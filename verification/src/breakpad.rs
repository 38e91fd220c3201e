//! The externally generated text-symbol loader's path policy: where the
//! symbol file for a binary is filed, and the cleanup of repository
//! prefixes in the file names such symbol files carry.

use vstd::prelude::*;
use vstd::string::StrSliceExecFns;
use vstd::string::StringExecFns;

use crate::error::{LoadError, LoadOp};
use crate::strtools::{
    base_name, ends_with_str, find_char_from, first_char_from, is_hex_digit, spec_base_name,
    spec_ends_with, spec_is_hex_digit, spec_starts_with, starts_with_str,
};

verus! {

/// Where the text-symbol file for a binary is expected:
/// `<symbols dir>/<db segment>/<debug id>/<sym segment>`, the segments
/// derived from the binary's base name — with the program-database
/// suffix substituted for one platform's executable suffixes. A path
/// without a base name has no expected location.
pub open spec fn spec_breakpad_sym_path(bin: Seq<char>, syms: Seq<char>, id: Seq<char>) -> Option<
    Seq<char>,
> {
    let base0 = spec_base_name(bin);
    if base0.len() == 0 {
        None
    } else {
        let is_win = spec_ends_with(base0, seq!['.', 'd', 'l', 'l']) || spec_ends_with(
            base0,
            seq!['.', 'e', 'x', 'e'],
        );
        let base = if is_win {
            base0.take(base0.len() - 4)
        } else {
            base0
        };
        let db = if is_win {
            base + seq!['.', 'p', 'd', 'b']
        } else {
            base
        };
        let sym = base + seq!['.', 's', 'y', 'm'];
        Some(syms + seq!['/'] + db + seq!['/'] + id + seq!['/'] + sym)
    }
}

/// Computes the expected path of the text-symbol file for `bin_file`
/// under `syms_dir`, given the binary's debug identifier.
pub fn breakpad_sym_path(bin_file: &str, syms_dir: &str, debug_id: &str) -> (r: Result<
    String,
    LoadError,
>)
    ensures
        match r {
            Ok(p) => spec_breakpad_sym_path(bin_file@, syms_dir@, debug_id@) == Some(p@),
            Err(e) => spec_breakpad_sym_path(bin_file@, syms_dir@, debug_id@) is None && e.op
                == LoadOp::ReadBreakpadSymbolsFor,
        },
{
    proof {
        reveal_strlit(".dll");
        reveal_strlit(".exe");
        reveal_strlit(".pdb");
        reveal_strlit(".sym");
        reveal_strlit("/");
        assert(".dll"@ =~= seq!['.', 'd', 'l', 'l']);
        assert(".exe"@ =~= seq!['.', 'e', 'x', 'e']);
        assert(".pdb"@ =~= seq!['.', 'p', 'd', 'b']);
        assert(".sym"@ =~= seq!['.', 's', 'y', 'm']);
        assert("/"@ =~= seq!['/']);
    }
    let base0 = base_name(bin_file);
    let n = base0.as_str().unicode_len();
    if n == 0 {
        return Err(LoadError::on(LoadOp::ReadBreakpadSymbolsFor, bin_file));
    }
    let is_win = ends_with_str(base0.as_str(), ".dll") || ends_with_str(base0.as_str(), ".exe");
    let base = if is_win {
        base0.as_str().substring_char(0, n - 4).to_owned()
    } else {
        base0
    };
    proof {
        if is_win {
            assert(base@ =~= spec_base_name(bin_file@).take(spec_base_name(bin_file@).len() - 4));
        }
    }
    let mut r = syms_dir.to_owned();
    r.append("/");
    r.append(base.as_str());
    if is_win {
        r.append(".pdb");
    }
    r.append("/");
    r.append(debug_id);
    r.append("/");
    r.append(base.as_str());
    r.append(".sym");
    proof {
        assert(Some(r@) =~= spec_breakpad_sym_path(bin_file@, syms_dir@, debug_id@));
    }
    Ok(r)
}

/// What stripping the repository bookkeeping from a symbol file's name
/// yields: for a name of the exact shape
/// `hg:<host>:<path>:<40-digit revision>` whose host names the known
/// repository server, the bare path; anything else is left alone. A
/// path containing a further separator is not recognized.
pub open spec fn spec_strip_junk(s: Seq<char>) -> Option<Seq<char>> {
    let c1 = first_char_from(s, ':', 0);
    let host = seq!['h', 'g', '.', 'm', 'o', 'z', 'i', 'l', 'l', 'a', '.', 'o', 'r', 'g'];
    if c1 < 0 {
        None
    } else {
        let c2 = first_char_from(s, ':', c1 + 1);
        if c2 < 0 {
            None
        } else {
            let c3 = first_char_from(s, ':', c2 + 1);
            if c3 < 0 || first_char_from(s, ':', c3 + 1) >= 0 {
                None
            } else {
                let s1 = s.subrange(0, c1);
                let s2 = s.subrange(c1 + 1, c2);
                let s4 = s.subrange(c3 + 1, s.len() as int);
                if s1 == seq!['h', 'g'] && spec_starts_with(s2, host) && s4.len() == 40 && (
                forall|i: int| 0 <= i < s4.len() ==> spec_is_hex_digit(s4[i])) {
                    Some(s.subrange(c2 + 1, c3))
                } else {
                    None
                }
            }
        }
    }
}

/// Strips repository bookkeeping from a file name out of a text-symbol
/// file, when the name has the expected shape.
pub fn strip_firefox_breakpad_junk(file_name: &str) -> (r: Option<&str>)
    ensures
        match r {
            Some(t) => spec_strip_junk(file_name@) == Some(t@),
            None => spec_strip_junk(file_name@) is None,
        },
{
    proof {
        reveal_strlit("hg");
        reveal_strlit("hg.mozilla.org");
        assert("hg"@ =~= seq!['h', 'g']);
        assert("hg.mozilla.org"@ =~= seq![
            'h', 'g', '.', 'm', 'o', 'z', 'i', 'l', 'l', 'a', '.', 'o', 'r', 'g'
        ]);
    }
    let n = file_name.unicode_len();
    let c1 = match find_char_from(file_name, ':', 0) {
        Some(i) => i,
        None => {
            return None;
        },
    };
    let c2 = match find_char_from(file_name, ':', c1 + 1) {
        Some(i) => i,
        None => {
            return None;
        },
    };
    let c3 = match find_char_from(file_name, ':', c2 + 1) {
        Some(i) => i,
        None => {
            return None;
        },
    };
    match find_char_from(file_name, ':', c3 + 1) {
        Some(_) => {
            return None;
        },
        None => {},
    }
    let s1 = file_name.substring_char(0, c1);
    let s2 = file_name.substring_char(c1 + 1, c2);
    let s4 = file_name.substring_char(c3 + 1, n);
    if !crate::strtools::str_eq(s1, "hg") {
        return None;
    }
    if !starts_with_str(s2, "hg.mozilla.org") {
        return None;
    }
    let m = s4.unicode_len();
    if m != 40 {
        return None;
    }
    let mut i: usize = 0;
    let mut all_hex = true;
    while i < m
        invariant
            m == s4@.len(),
            i <= m,
            all_hex ==> forall|j: int| 0 <= j < i ==> spec_is_hex_digit(s4@[j]),
            !all_hex ==> exists|j: int| 0 <= j < m && !spec_is_hex_digit(s4@[j]),
        decreases m - i,
    {
        if !is_hex_digit(s4.get_char(i)) {
            all_hex = false;
        }
        i = i + 1;
    }
    if !all_hex {
        return None;
    }
    Some(file_name.substring_char(c2 + 1, c3))
}

} // verus!
