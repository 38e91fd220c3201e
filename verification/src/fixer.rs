//! The orchestrator: a cache of one address table per file reference,
//! built at most once per reference (failures cached as the empty
//! sentinel), the dispatch from a file's sniffed format to its loader,
//! and the per-address query that yields a structured resolution.

use vstd::prelude::*;
use vstd::string::StringExecFns;

use crate::breakpad::{spec_strip_junk, strip_firefox_breakpad_junk};
use crate::error::{spec_kind_name, FileKind, LoadError, LoadOp};
use crate::macho::OsoRequest;
use crate::recon::{macho_begin, spec_macho_begin, ReconState};
use crate::service::{
    debug_functions, debug_parse_of, demangle_of, format_of, pe_debug_file_name,
    pe_debug_file_of, peek_format,
};
use crate::strtools::{base_name, spec_base_name};
use crate::table::{
    func_floor, func_result, lemma_func_floor, lemma_line_floor, line_floor, table_built,
    FileInfo, FuncInfo,
};

verus! {

/// The per-run cache of address tables, one per file reference. A
/// reference is recorded at most once, so a file is loaded — and a bad
/// reference diagnosed — exactly once.
pub struct TableCache {
    m: vstd::hash_map::StringHashMap<FileInfo>,
}

impl View for TableCache {
    type V = Map<Seq<char>, FileInfo>;

    closed spec fn view(&self) -> Map<Seq<char>, FileInfo> {
        self.m@
    }
}

impl TableCache {
    /// Every cached table is well-formed.
    pub closed spec fn wf(&self) -> bool {
        forall|k: Seq<char>| self.m@.contains_key(k) ==> (#[trigger] self.m@[k]).wf()
    }

    /// Creates an empty cache.
    pub fn new() -> (r: TableCache)
        ensures
            r.wf(),
            r@ == Map::<Seq<char>, FileInfo>::empty(),
    {
        TableCache { m: vstd::hash_map::StringHashMap::new() }
    }

    /// The table cached under `name`, when one has been recorded.
    pub fn lookup(&self, name: &str) -> (r: Option<&FileInfo>)
        requires
            self.wf(),
        ensures
            match r {
                Some(t) => self@.contains_key(name@) && *t == self@[name@] && t.wf(),
                None => !self@.contains_key(name@),
            },
    {
        self.m.get(name)
    }

    /// Records the table for a reference not seen before. Requiring the
    /// reference to be new is what makes one load per reference: once
    /// recorded, `lookup` answers and no further build can be recorded.
    pub fn record(&mut self, name: String, table: FileInfo)
        requires
            old(self).wf(),
            !old(self)@.contains_key(name@),
            table.wf(),
        ensures
            final(self).wf(),
            final(self)@ == old(self)@.insert(name@, table),
    {
        let ghost m0 = self.m@;
        self.m.insert(name, table);
        proof {
            assert forall|k: Seq<char>| self.m@.contains_key(k) implies (
            #[trigger] self.m@[k]).wf() by {
                if k != name@ {
                    assert(self.m@[k] == m0[k]);
                }
            }
        }
    }
}

/// Recording a table under a reference answers every later query for
/// that reference with that very table and disturbs no other entry;
/// with recording restricted to references not yet present, each
/// reference is loaded — and a failing one diagnosed — exactly once.
pub proof fn lemma_cache_single_build(m: Map<Seq<char>, FileInfo>, name: Seq<char>, t: FileInfo)
    ensures
        m.insert(name, t).contains_key(name),
        m.insert(name, t)[name] == t,
        forall|k: Seq<char>|
            k != name ==> (m.insert(name, t).contains_key(k) == m.contains_key(k)),
        forall|k: Seq<char>|
            k != name && m.contains_key(k) ==> m.insert(name, t)[k] == m[k],
{
}

/// Whether the surrounding text is treated as JSON fragments.
pub enum JsonMode {
    No,
    Yes,
}

/// Where externally generated text symbols are filed.
pub struct BreakpadInfo {
    pub syms_dir: String,
}

/// Where to look for a local substitute of a missing binary.
pub struct LocalFileInfo {
    pub local_dir: String,
}

/// The top-level resolver state: the table cache and the configured
/// policies. The caller performs all file reads and drives the loaders;
/// the state here only grows by recording finished tables.
pub struct Fixer {
    pub cache: TableCache,
    pub json_mode: JsonMode,
    pub bp_info: Option<BreakpadInfo>,
    pub local_info: Option<LocalFileInfo>,
    pub target_cputype: u32,
    pub lb: char,
    pub rb: char,
}

impl Fixer {
    /// The cached tables, by file reference.
    pub closed spec fn cache_view(&self) -> Map<Seq<char>, FileInfo> {
        self.cache@
    }

    /// The cache is well-formed.
    pub closed spec fn wf(&self) -> bool {
        self.cache.wf()
    }

    /// Creates a resolver: parentheses bracket native results, square
    /// brackets text-symbol results. `target_cputype` names the CPU
    /// type of the resolver's own build, the slice picked out of
    /// multi-architecture binaries.
    pub fn new(
        json_mode: JsonMode,
        bp_info: Option<BreakpadInfo>,
        local_info: Option<LocalFileInfo>,
        target_cputype: u32,
    ) -> (r: Fixer)
        ensures
            r.wf(),
            r.cache_view() == Map::<Seq<char>, FileInfo>::empty(),
            r.json_mode == json_mode,
            r.bp_info == bp_info,
            r.local_info == local_info,
            r.target_cputype == target_cputype,
            bp_info is None ==> r.lb == '(' && r.rb == ')',
            bp_info is Some ==> r.lb == '[' && r.rb == ']',
    {
        let (lb, rb) = if bp_info.is_none() {
            ('(', ')')
        } else {
            ('[', ']')
        };
        Fixer {
            cache: TableCache::new(),
            json_mode,
            bp_info,
            local_info,
            target_cputype,
            lb,
            rb,
        }
    }

    /// The table already built for a reference, if any.
    pub fn cached(&self, file_name: &str) -> (r: Option<&FileInfo>)
        requires
            self.wf(),
        ensures
            match r {
                Some(t) => self.cache_view().contains_key(file_name@) && *t
                    == self.cache_view()[file_name@] && t.wf(),
                None => !self.cache_view().contains_key(file_name@),
            },
    {
        self.cache.lookup(file_name)
    }

    /// Records the table built — or the empty sentinel after a failed
    /// load — for a reference seen for the first time.
    pub fn record(&mut self, file_name: String, table: FileInfo)
        requires
            old(self).wf(),
            !old(self).cache_view().contains_key(file_name@),
            table.wf(),
        ensures
            final(self).wf(),
            final(self).cache_view() == old(self).cache_view().insert(file_name@, table),
            final(self).json_mode == old(self).json_mode,
            final(self).bp_info == old(self).bp_info,
            final(self).local_info == old(self).local_info,
            final(self).target_cputype == old(self).target_cputype,
            final(self).lb == old(self).lb,
            final(self).rb == old(self).rb,
    {
        self.cache.record(file_name, table);
    }
}

/// A structured resolution: function, file and line; function alone; or
/// nothing — the caller formats it, falling back to its original
/// tokens.
pub enum Resolution {
    Full { name: String, path: String, line: u32 },
    NameOnly { name: String },
    Unresolved,
}

/// Ghost image of a [`Resolution`].
pub ghost enum ResolutionV {
    Full { name: Seq<char>, path: Seq<char>, line: u32 },
    NameOnly { name: Seq<char> },
    Unresolved,
}

impl View for Resolution {
    type V = ResolutionV;

    open spec fn view(&self) -> ResolutionV {
        match self {
            Resolution::Full { name, path, line } => ResolutionV::Full {
                name: name@,
                path: path@,
                line: *line,
            },
            Resolution::NameOnly { name } => ResolutionV::NameOnly { name: name@ },
            Resolution::Unresolved => ResolutionV::Unresolved,
        }
    }
}

/// What resolving an address against a table yields: the containing
/// function's demangled name; with the floor line entry's path (the
/// repository bookkeeping stripped when asked) and line number, when
/// the function records one at or below the address.
pub open spec fn spec_resolve(
    itn: Seq<Seq<char>>,
    funcs: Seq<FuncInfo>,
    a: u64,
    strip: bool,
) -> ResolutionV {
    match func_result(funcs, a) {
        None => ResolutionV::Unresolved,
        Some(f) => {
            let name = demangle_of(f.mangled_name@);
            let fl = line_floor(f.line_infos@, a);
            if fl == -1 {
                ResolutionV::NameOnly { name }
            } else {
                let li = f.line_infos@[fl];
                let p0 = itn[li.path.0 as int];
                let p = if strip {
                    match spec_strip_junk(p0) {
                        Some(q) => q,
                        None => p0,
                    }
                } else {
                    p0
                };
                ResolutionV::Full { name, path: p, line: li.line }
            }
        },
    }
}

/// Resolves one address against one file's table.
pub fn resolve_address(fi: &FileInfo, address: u64, strip_junk: bool) -> (r: Resolution)
    requires
        fi.wf(),
    ensures
        r@ == spec_resolve(fi.interner@, fi.func_infos@, address, strip_junk),
{
    proof {
        lemma_func_floor(fi.func_infos@, address);
    }
    match fi.func_info(address) {
        None => Resolution::Unresolved,
        Some(f) => {
            proof {
                assert(*f == fi.func_infos@[func_floor(fi.func_infos@, address)]);
                assert(f.wf(fi.interner@));
                lemma_line_floor(f.line_infos@, address);
            }
            let name = f.demangled_name();
            match f.line_info(address) {
                None => Resolution::NameOnly { name },
                Some(li) => {
                    let path0 = fi.interner.get(li.path);
                    let path = if strip_junk {
                        match strip_firefox_breakpad_junk(path0) {
                            Some(s) => s.to_owned(),
                            None => path0.to_owned(),
                        }
                    } else {
                        path0.to_owned()
                    };
                    Resolution::Full { name, path, line: li.line }
                },
            }
        },
    }
}

proof fn lemma_line_floor_pointwise(l1: Seq<crate::table::LineInfo>, l2: Seq<
    crate::table::LineInfo,
>, a: u64)
    requires
        l1.len() == l2.len(),
        forall|i: int| 0 <= i < l1.len() ==> (#[trigger] l1[i]).address == l2[i].address,
    ensures
        line_floor(l1, a) == line_floor(l2, a),
    decreases l1.len(),
{
    if l1.len() > 0 {
        assert forall|i: int| 0 <= i < l1.drop_last().len() implies (
        #[trigger] l1.drop_last()[i]).address == l2.drop_last()[i].address by {
            assert(l1.drop_last()[i] == l1[i]);
            assert(l2.drop_last()[i] == l2[i]);
        }
        lemma_line_floor_pointwise(l1.drop_last(), l2.drop_last(), a);
        assert(l1.last().address == l2.last().address);
    }
}

proof fn lemma_func_floor_pointwise(f1: Seq<FuncInfo>, f2: Seq<FuncInfo>, a: u64)
    requires
        f1.len() == f2.len(),
        forall|i: int| 0 <= i < f1.len() ==> (#[trigger] f1[i]).address == f2[i].address,
    ensures
        func_floor(f1, a) == func_floor(f2, a),
    decreases f1.len(),
{
    if f1.len() > 0 {
        assert forall|i: int| 0 <= i < f1.drop_last().len() implies (
        #[trigger] f1.drop_last()[i]).address == f2.drop_last()[i].address by {
            assert(f1.drop_last()[i] == f1[i]);
            assert(f2.drop_last()[i] == f2[i]);
        }
        lemma_func_floor_pointwise(f1.drop_last(), f2.drop_last(), a);
        assert(f1.last().address == f2.last().address);
    }
}

/// Two tables that carry the same information, entry by entry, resolve
/// every address identically, whatever their interners number the
/// paths.
pub proof fn lemma_resolve_view_eq(
    itn1: Seq<Seq<char>>,
    f1: Seq<FuncInfo>,
    itn2: Seq<Seq<char>>,
    f2: Seq<FuncInfo>,
    a: u64,
    strip: bool,
)
    requires
        f1.len() == f2.len(),
        forall|i: int|
            0 <= i < f1.len() ==> crate::table::func_view_eq(itn1, #[trigger] f1[i], itn2, f2[i]),
    ensures
        spec_resolve(itn1, f1, a, strip) == spec_resolve(itn2, f2, a, strip),
{
    assert forall|i: int| 0 <= i < f1.len() implies (#[trigger] f1[i]).address
        == f2[i].address by {
        assert(crate::table::func_view_eq(itn1, f1[i], itn2, f2[i]));
    }
    lemma_func_floor_pointwise(f1, f2, a);
    let fl = func_floor(f1, a);
    if fl == -1 {
        assert(func_result(f1, a) is None);
        assert(func_result(f2, a) is None);
    } else {
        crate::table::lemma_func_floor_total(f1, a);
        assert(0 <= fl < f1.len());
        assert(crate::table::func_view_eq(itn1, f1[fl], itn2, f2[fl]));
        let g1 = f1[fl];
        let g2 = f2[fl];
        if crate::table::spec_func_contains(g1, a) {
            assert(crate::table::spec_func_contains(g2, a));
            assert(func_result(f1, a) == Some(g1));
            assert(func_result(f2, a) == Some(g2));
            assert(demangle_of(g1.mangled_name@) == demangle_of(g2.mangled_name@));
            assert forall|j: int| 0 <= j < g1.line_infos@.len() implies (
            #[trigger] g1.line_infos@[j]).address == g2.line_infos@[j].address by {
                assert(crate::table::line_view_eq(
                    itn1,
                    g1.line_infos@[j],
                    itn2,
                    g2.line_infos@[j],
                ));
            }
            lemma_line_floor_pointwise(g1.line_infos@, g2.line_infos@, a);
            let ll = line_floor(g1.line_infos@, a);
            if ll == -1 {
            } else {
                crate::table::lemma_line_floor_total(g1.line_infos@, a);
                assert(0 <= ll < g1.line_infos@.len());
                assert(crate::table::line_view_eq(
                    itn1,
                    g1.line_infos@[ll],
                    itn2,
                    g2.line_infos@[ll],
                ));
                assert(itn1[g1.line_infos@[ll].path.0 as int] == itn2[g2.line_infos@[
                ll].path.0 as int]);
            }
        } else {
            assert(!crate::table::spec_func_contains(g2, a));
            assert(func_result(f1, a) is None);
            assert(func_result(f2, a) is None);
        }
    }
}

/// Loading through a companion debug file resolves identically to
/// loading the companion directly: any two tables built from the same
/// companion bytes — whichever path requested them — answer every
/// address with the same resolution.
pub proof fn lemma_companion_resolves_identically(
    data: Seq<u8>,
    fi1: FileInfo,
    fi2: FileInfo,
    a: u64,
    strip: bool,
)
    requires
        debug_parse_of(data) matches Ok(raw) && table_built(
            fi1.interner@,
            fi1.func_infos@,
            raw,
            0,
        ) && table_built(fi2.interner@, fi2.func_infos@, raw, 0),
    ensures
        spec_resolve(fi1.interner@, fi1.func_infos@, a, strip) == spec_resolve(
            fi2.interner@,
            fi2.func_infos@,
            a,
            strip,
        ),
{
    let raw = debug_parse_of(data)->Ok_0;
    crate::table::lemma_table_built_unique(
        fi1.interner@,
        fi1.func_infos@,
        fi2.interner@,
        fi2.func_infos@,
        raw,
        0,
    );
    lemma_resolve_view_eq(fi1.interner@, fi1.func_infos@, fi2.interner@, fi2.func_infos@, a, strip);
}

/// Builds a table directly from a file's bytes: the file itself holds
/// the debug information.
pub fn build_file_info_direct(data: &[u8]) -> (r: Result<FileInfo, LoadError>)
    ensures
        match debug_parse_of(data@) {
            Ok(raw) => r matches Ok(fi) && fi.wf() && table_built(
                fi.interner@,
                fi.func_infos@,
                raw,
                0,
            ),
            Err(e) => r matches Err(e2) && e2 == e,
        },
{
    let funcs = match debug_functions(data) {
        Ok(f) => f,
        Err(e) => {
            return Err(e);
        },
    };
    Ok(FileInfo::new(funcs))
}

/// What a load dispatch hands back: a finished table, the name of the
/// companion debug file still to be read, or a begun reconstruction
/// with the referenced sources still to be read.
pub enum LoadPlan {
    Built(FileInfo),
    Companion(String),
    Reconstruct(ReconState, Vec<OsoRequest>),
}

/// A direct load of these bytes yields the table they describe, or the
/// very error their parse ends in.
pub open spec fn direct_load_result(data: Seq<u8>, r: Result<LoadPlan, LoadError>) -> bool {
    match debug_parse_of(data) {
        Ok(raw) => r matches Ok(p) && p matches LoadPlan::Built(fi) && fi.wf() && table_built(
            fi.interner@,
            fi.func_infos@,
            raw,
            0,
        ),
        Err(e) => r matches Err(e2) && e2 == e,
    }
}

/// Dispatches a load on the file's sniffed format: two formats carry
/// their debug info themselves; one names a companion file; one is
/// reconstructed from the sources it references; every other format is
/// a hard error naming the format.
pub fn plan_load(data: &[u8], target_cputype: u32) -> (r: Result<LoadPlan, LoadError>)
    ensures
        format_of(data@) == FileKind::Elf || format_of(data@) == FileKind::Pdb
            ==> direct_load_result(data@, r),
        format_of(data@) == FileKind::Pe ==> (match r {
            Ok(p) => p matches LoadPlan::Companion(n) && pe_debug_file_of(data@) == Some(n@),
            Err(e) => pe_debug_file_of(data@) is None && (e.op == LoadOp::Parse || e.op
                == LoadOp::FindDebugInfoFile),
        }),
        format_of(data@) == FileKind::MachO ==> (match r {
            Ok(p) => p matches LoadPlan::Reconstruct(st, plan) && st.wf() && st.func_infos@.len()
                == 0 && spec_macho_begin(data@, target_cputype, Ok((st, plan))),
            Err(e) => spec_macho_begin(data@, target_cputype, Err(e)),
        }),
        format_of(data@) != FileKind::Elf && format_of(data@) != FileKind::Pdb && format_of(data@)
            != FileKind::Pe && format_of(data@) != FileKind::MachO ==> (r matches Err(e) && e.op
            == LoadOp::ParseFormat && (e.subject matches Some(s) && s@ == spec_kind_name(
            format_of(data@),
        ))),
{
    let kind = peek_format(data);
    match kind {
        FileKind::Elf => {
            match build_file_info_direct(data) {
                Ok(fi) => Ok(LoadPlan::Built(fi)),
                Err(e) => Err(e),
            }
        },
        FileKind::Pdb => {
            match build_file_info_direct(data) {
                Ok(fi) => Ok(LoadPlan::Built(fi)),
                Err(e) => Err(e),
            }
        },
        FileKind::Pe => {
            match pe_debug_file_name(data) {
                Ok(n) => Ok(LoadPlan::Companion(n)),
                Err(e) => Err(e),
            }
        },
        FileKind::MachO => {
            match macho_begin(data, target_cputype) {
                Ok((st, plan)) => Ok(LoadPlan::Reconstruct(st, plan)),
                Err(e) => Err(e),
            }
        },
        _ => Err(LoadError::on(LoadOp::ParseFormat, kind.kind_name())),
    }
}

/// The substitute path tried when a referenced file is missing and a
/// local directory is configured: the directory joined with the
/// reference's base name. A reference without a base name has no
/// substitute.
pub open spec fn spec_remap(name: Seq<char>, dir: Seq<char>) -> Option<Seq<char>> {
    let base = spec_base_name(name);
    if base.len() == 0 {
        None
    } else {
        Some(dir + seq!['/'] + base)
    }
}

/// Computes the substitute path for a missing file under the local
/// directory; whether the substitute exists is the caller's check.
pub fn remap_candidate(in_file_name: &str, local_dir: &str) -> (r: Option<String>)
    ensures
        match r {
            Some(p) => spec_remap(in_file_name@, local_dir@) == Some(p@),
            None => spec_remap(in_file_name@, local_dir@) is None,
        },
{
    proof {
        reveal_strlit("/");
        assert("/"@ =~= seq!['/']);
    }
    let base = base_name(in_file_name);
    if base.as_str().unicode_len() == 0 {
        return None;
    }
    let mut r = local_dir.to_owned();
    r.append("/");
    r.append(base.as_str());
    proof {
        assert(r@ =~= local_dir@ + seq!['/'] + spec_base_name(in_file_name@));
    }
    Some(r)
}

} // verus!
