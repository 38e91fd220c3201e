//! Reconstruction of an address table for a linked binary whose debug
//! info was never re-linked into it: the verified logic that walks the
//! symbol table's debugging stabs, keys function addresses by their
//! source of origin, plans which object files and archives to read, and
//! merges the per-object debug info.

use vstd::prelude::*;
use vstd::string::StrSliceExecFns;
use vstd::string::StringExecFns;

use crate::raw::{SegEntry, SegEntryV, SymEntry, SymEntryV};
use crate::strtools::{
    find_first, first_occur_from, lemma_first_occur_from, lemma_first_occur_from_none, str_eq,
};
use crate::symmap::SymMap;

verus! {

/// Symbol-table type masks and codes of the Mach-O debugging stabs the
/// reconstruction reads.
pub const N_STAB_MASK: u8 = 0xe0;

/// The type code of an object-source-origin stab.
pub const N_OSO: u8 = 0x66;

/// The type code of a function stab.
pub const N_FUN: u8 = 0x24;

/// CPU type of 32-bit x86 binaries.
pub const CPU_TYPE_X86: u32 = 7;

/// CPU type of 64-bit x86 binaries.
pub const CPU_TYPE_X86_64: u32 = 0x0100_0007;

/// CPU type of 32-bit ARM binaries.
pub const CPU_TYPE_ARM: u32 = 12;

/// CPU type of 64-bit ARM binaries.
pub const CPU_TYPE_ARM64: u32 = 0x0100_000C;

/// CPU type of ARM binaries with 64-bit registers and 32-bit pointers.
pub const CPU_TYPE_ARM64_32: u32 = 0x0200_000C;

/// CPU type of 32-bit PowerPC binaries.
pub const CPU_TYPE_POWERPC: u32 = 18;

/// CPU type of 64-bit PowerPC binaries.
pub const CPU_TYPE_POWERPC64: u32 = 0x0100_0012;

/// A CPU type that matches no real binary: the fallback target.
pub const CPU_TYPE_ANY: u32 = 0xFFFF_FFFF;

/// Whether a symbol entry is a debugging stab.
pub open spec fn spec_is_stab(n_type: u8) -> bool {
    n_type & N_STAB_MASK != 0
}

/// The name without its first character: the leading name-mangling
/// prefix of a symbol is dropped (an empty name stays empty).
pub open spec fn spec_trim_first(s: Seq<char>) -> Seq<char> {
    if s.len() > 0 {
        s.drop_first()
    } else {
        s
    }
}

/// The key under which a function's address is recorded:
/// `<source file>:<function name>`.
pub open spec fn key_seq(file: Seq<char>, func: Seq<char>) -> Seq<char> {
    file + seq![':'] + func
}

/// Builds the key for the symbol-address index.
pub fn sym_func_key(file_name: &str, func_name: &str) -> (r: String)
    ensures
        r@ == key_seq(file_name@, func_name@),
{
    proof {
        reveal_strlit(":");
    }
    let mut r = file_name.to_owned();
    r.append(":");
    r.append(func_name);
    proof {
        assert(r@ =~= key_seq(file_name@, func_name@));
    }
    r
}

/// The archive a file name refers into, when it has the form
/// `<archive>.a(<member>)`: everything up to and including the `.a`
/// before the first `.a(`.
pub open spec fn archive_name_of(s: Seq<char>) -> Option<Seq<char>> {
    let i = first_occur_from(s, seq!['.', 'a', '('], 0);
    if i >= 0 && s.len() > 0 && s.last() == ')' {
        Some(s.subrange(0, i + 2))
    } else {
        None
    }
}

/// When `file_name` names a member within an archive, returns the
/// archive's own name.
pub fn is_within_archive(file_name: &str) -> (r: Option<&str>)
    ensures
        match r {
            Some(t) => archive_name_of(file_name@) == Some(t@),
            None => archive_name_of(file_name@) is None,
        },
{
    proof {
        reveal_strlit(".a(");
        assert(".a("@ =~= seq!['.', 'a', '(']);
    }
    let n = file_name.unicode_len();
    let idx = find_first(file_name, ".a(");
    match idx {
        Some(i) => {
            proof {
                lemma_first_occur_from(file_name@, seq!['.', 'a', '('], 0, i as int);
            }
            if n > 0 && file_name.get_char(n - 1) == ')' {
                Some(file_name.substring_char(0, i + 2))
            } else {
                None
            }
        },
        None => {
            proof {
                lemma_first_occur_from_none(file_name@, seq!['.', 'a', '('], 0);
            }
            None
        },
    }
}

/// The source name an object-source-origin stab records: the archive's
/// name for an archive member, else the name itself.
pub open spec fn oso_source_name(name: Seq<char>) -> Seq<char> {
    match archive_name_of(name) {
        Some(ar) => ar,
        None => name,
    }
}

/// One step of the symbol-address pass over a symbol entry: an
/// object-source-origin stab switches the current source; a function
/// stab with a section records `entry value - load address` (with
/// wrap-around) under `<source>:<trimmed name>`, a later entry winning.
pub open spec fn sym_step(
    curr: Seq<char>,
    m: Map<Seq<char>, u64>,
    e: SymEntryV,
    load: u64,
) -> (Seq<char>, Map<Seq<char>, u64>) {
    if !spec_is_stab(e.n_type) {
        (curr, m)
    } else if e.n_type == N_OSO {
        (oso_source_name(e.name), m)
    } else if e.n_type == N_FUN && e.n_sect != 0 {
        (
            curr,
            m.insert(
                key_seq(curr, spec_trim_first(e.name)),
                vstd::wrapping::u64_specs::wrapping_sub(e.n_value, load),
            ),
        )
    } else {
        (curr, m)
    }
}

/// The symbol-address pass over a whole symbol table.
pub open spec fn sym_fold(entries: Seq<SymEntryV>, load: u64) -> (Seq<char>, Map<Seq<char>, u64>)
    decreases entries.len(),
{
    if entries.len() == 0 {
        (Seq::<char>::empty(), Map::<Seq<char>, u64>::empty())
    } else {
        let r = sym_fold(entries.drop_last(), load);
        sym_step(r.0, r.1, entries.last(), load)
    }
}

/// Walks the symbol table once and records, for every function stab,
/// its address relative to the load address, keyed by the source it
/// originated from.
pub fn sym_func_addrs(entries: &Vec<SymEntry>, object_load_address: u64) -> (r: SymMap)
    ensures
        r@ == sym_fold(entries.deep_view(), object_load_address).1,
{
    let ghost dv = entries.deep_view();
    let mut curr_oso_name = String::new();
    let mut m = SymMap::new();
    let mut i: usize = 0;
    proof {
        assert(dv.take(0) =~= Seq::<SymEntryV>::empty());
    }
    while i < entries.len()
        invariant
            dv == entries.deep_view(),
            dv.len() == entries@.len(),
            i <= entries@.len(),
            (curr_oso_name@, m@) == sym_fold(dv.take(i as int), object_load_address),
        decreases entries@.len() - i,
    {
        proof {
            assert(dv.take(i + 1).drop_last() =~= dv.take(i as int));
            assert(dv.take(i + 1).last() == dv[i as int]);
            assert(dv[i as int] == entries@[i as int]@);
        }
        let e = &entries[i];
        if e.n_type & N_STAB_MASK != 0 {
            if e.n_type == N_OSO {
                match is_within_archive(e.name.as_str()) {
                    Some(ar) => {
                        curr_oso_name = ar.to_owned();
                    },
                    None => {
                        curr_oso_name = e.name.as_str().to_owned();
                    },
                }
            } else if e.n_type == N_FUN && e.n_sect != 0 {
                let name = trim_first_char(e.name.as_str());
                let key = sym_func_key(curr_oso_name.as_str(), name.as_str());
                let address = e.n_value.wrapping_sub(object_load_address);
                m.insert(key, address);
            }
        }
        i = i + 1;
    }
    proof {
        assert(dv.take(dv.len() as int) =~= dv);
    }
    m
}

/// Drops the first character of a name, when it has one.
pub fn trim_first_char(s: &str) -> (r: String)
    ensures
        r@ == spec_trim_first(s@),
{
    let n = s.unicode_len();
    if n == 0 {
        s.to_owned()
    } else {
        let t = s.substring_char(1, n);
        proof {
            assert(t@ =~= s@.drop_first());
        }
        t.to_owned()
    }
}

/// The load address of a binary: the mapped address of the first
/// segment named `__TEXT`, or zero when there is none.
pub open spec fn spec_load_address(segs: Seq<SegEntryV>) -> u64
    decreases segs.len(),
{
    if segs.len() == 0 {
        0
    } else if segs.first().name == Some(seq!['_', '_', 'T', 'E', 'X', 'T']) {
        segs.first().vmaddr
    } else {
        spec_load_address(segs.drop_first())
    }
}

/// Finds the binary's load address among its segments.
pub fn object_load_address(segs: &Vec<SegEntry>) -> (r: u64)
    ensures
        r == spec_load_address(segs.deep_view()),
{
    let ghost dv = segs.deep_view();
    let mut i: usize = 0;
    proof {
        assert(dv.skip(0) =~= dv);
    }
    while i < segs.len()
        invariant
            dv == segs.deep_view(),
            dv.len() == segs@.len(),
            i <= segs@.len(),
            spec_load_address(dv) == spec_load_address(dv.skip(i as int)),
        decreases segs@.len() - i,
    {
        proof {
            reveal_strlit("__TEXT");
            assert("__TEXT"@ =~= seq!['_', '_', 'T', 'E', 'X', 'T']);
            assert(dv.skip(i as int).first() == dv[i as int]);
            assert(dv[i as int] == segs@[i as int]@);
            assert(dv.skip(i as int).drop_first() =~= dv.skip(i + 1));
        }
        let found = match &segs[i].name {
            Some(n) => str_eq(n.as_str(), "__TEXT"),
            None => false,
        };
        if found {
            return segs[i].vmaddr;
        }
        i = i + 1;
    }
    proof {
        assert(dv.skip(dv.len() as int) =~= Seq::<SegEntryV>::empty());
    }
    0
}

/// One referenced debug source to read from disk: a standalone object
/// file, or a whole static archive to be read member by member.
pub struct OsoRequest {
    pub path: String,
    pub archive: bool,
}

/// Ghost image of an [`OsoRequest`].
pub ghost struct OsoRequestV {
    pub path: Seq<char>,
    pub archive: bool,
}

impl View for OsoRequest {
    type V = OsoRequestV;

    open spec fn view(&self) -> OsoRequestV {
        OsoRequestV { path: self.path@, archive: self.archive }
    }
}

impl DeepView for OsoRequest {
    type V = OsoRequestV;

    open spec fn deep_view(&self) -> OsoRequestV {
        self.view()
    }
}

/// The plan already lists archive `p`.
pub open spec fn has_archive_req(plan: Seq<OsoRequestV>, p: Seq<char>) -> bool {
    exists|j: int| 0 <= j < plan.len() && plan[j].archive && plan[j].path == p
}

/// One step of plan building over a symbol entry: each
/// object-source-origin stab adds a read request — an archive once,
/// however often it is named; a standalone object on each mention.
pub open spec fn plan_step(acc: Seq<OsoRequestV>, e: SymEntryV) -> Seq<OsoRequestV> {
    if spec_is_stab(e.n_type) && e.n_type == N_OSO {
        match archive_name_of(e.name) {
            Some(ar) => {
                if has_archive_req(acc, ar) {
                    acc
                } else {
                    acc.push(OsoRequestV { path: ar, archive: true })
                }
            },
            None => acc.push(OsoRequestV { path: e.name, archive: false }),
        }
    } else {
        acc
    }
}

/// Plan building over a whole symbol table.
pub open spec fn plan_fold(entries: Seq<SymEntryV>, acc: Seq<OsoRequestV>) -> Seq<OsoRequestV>
    decreases entries.len(),
{
    if entries.len() == 0 {
        acc
    } else {
        plan_fold(entries.drop_first(), plan_step(acc, entries.first()))
    }
}

/// Plans which referenced debug sources to read: every referenced
/// archive once, every standalone object file on each mention, in the
/// order the symbol table names them.
pub fn oso_plan(entries: &Vec<SymEntry>) -> (r: Vec<OsoRequest>)
    ensures
        r.deep_view() == plan_fold(entries.deep_view(), Seq::<OsoRequestV>::empty()),
{
    let ghost dv = entries.deep_view();
    let mut plan: Vec<OsoRequest> = Vec::new();
    let mut i: usize = 0;
    proof {
        assert(dv.skip(0) =~= dv);
        assert(plan.deep_view() =~= Seq::<OsoRequestV>::empty());
    }
    while i < entries.len()
        invariant
            dv == entries.deep_view(),
            dv.len() == entries@.len(),
            i <= entries@.len(),
            plan_fold(dv, Seq::<OsoRequestV>::empty()) == plan_fold(
                dv.skip(i as int),
                plan.deep_view(),
            ),
        decreases entries@.len() - i,
    {
        proof {
            assert(dv.skip(i as int).first() == dv[i as int]);
            assert(dv[i as int] == entries@[i as int]@);
            assert(dv.skip(i as int).drop_first() =~= dv.skip(i + 1));
        }
        let ghost acc0 = plan.deep_view();
        let e = &entries[i];
        if e.n_type & N_STAB_MASK != 0 && e.n_type == N_OSO {
            match is_within_archive(e.name.as_str()) {
                Some(ar) => {
                    let ar_owned = ar.to_owned();
                    let mut seen = false;
                    let mut j: usize = 0;
                    while j < plan.len()
                        invariant
                            acc0 == plan.deep_view(),
                            j <= plan@.len(),
                            plan.deep_view().len() == plan@.len(),
                            seen ==> has_archive_req(acc0, ar_owned@),
                            !seen ==> forall|w: int|
                                0 <= w < j ==> !((#[trigger] acc0[w]).archive && acc0[w].path
                                    == ar_owned@),
                        decreases plan@.len() - j,
                    {
                        if !seen && plan[j].archive && str_eq(
                            plan[j].path.as_str(),
                            ar_owned.as_str(),
                        ) {
                            proof {
                                assert(acc0[j as int].archive && acc0[j as int].path
                                    == ar_owned@);
                            }
                            seen = true;
                        }
                        j = j + 1;
                    }
                    if !seen {
                        let req = OsoRequest { path: ar_owned, archive: true };
                        plan.push(req);
                        proof {
                            assert(plan.deep_view() =~= acc0.push(
                                OsoRequestV { path: ar@, archive: true },
                            ));
                        }
                    }
                },
                None => {
                    let req = OsoRequest { path: e.name.clone(), archive: false };
                    plan.push(req);
                    proof {
                        assert(plan.deep_view() =~= acc0.push(
                            OsoRequestV { path: e.name@, archive: false },
                        ));
                    }
                },
            }
        }
        i = i + 1;
    }
    proof {
        assert(dv.skip(dv.len() as int) =~= Seq::<SymEntryV>::empty());
    }
    plan
}

/// The first slice position at or after `i` whose CPU type equals
/// `target`, or -1 when there is none.
pub open spec fn first_cpu_match(cpus: Seq<(u32, u32)>, target: u32, i: int) -> int
    decreases cpus.len() - i,
{
    if i < 0 || i >= cpus.len() {
        -1
    } else if cpus[i].0 == target {
        i
    } else {
        first_cpu_match(cpus, target, i + 1)
    }
}

pub proof fn lemma_first_cpu_match_found(cpus: Seq<(u32, u32)>, target: u32, s: int, k: int)
    requires
        0 <= s <= k < cpus.len(),
        cpus[k].0 == target,
        forall|j: int| s <= j < k ==> (#[trigger] cpus[j]).0 != target,
    ensures
        first_cpu_match(cpus, target, s) == k,
    decreases k - s,
{
    if s < k {
        lemma_first_cpu_match_found(cpus, target, s + 1, k);
    }
}

pub proof fn lemma_first_cpu_match_none(cpus: Seq<(u32, u32)>, target: u32, s: int)
    requires
        0 <= s,
        forall|j: int| s <= j < cpus.len() ==> (#[trigger] cpus[j]).0 != target,
    ensures
        first_cpu_match(cpus, target, s) == -1,
    decreases cpus.len() - s,
{
    if s < cpus.len() {
        lemma_first_cpu_match_none(cpus, target, s + 1);
    }
}

/// Which slice of a binary the reconstruction works on: the binary
/// itself when it is not fat (there is no way to know which slice a
/// stack frame came from, so a fat binary gets the best-effort guess of
/// the slice matching the resolver's own build), or -1 when a fat
/// binary has no matching slice.
pub open spec fn slice_index_for(cpus: Seq<(u32, u32)>, fat: bool, target: u32) -> int {
    if fat {
        first_cpu_match(cpus, target, 0)
    } else if cpus.len() > 0 {
        0
    } else {
        -1
    }
}

/// The first position at or after `i` of a name equal to `want`, or -1
/// when there is none.
pub open spec fn first_name_match(names: Seq<Seq<char>>, want: Seq<char>, i: int) -> int
    decreases names.len() - i,
{
    if i < 0 || i >= names.len() {
        -1
    } else if names[i] == want {
        i
    } else {
        first_name_match(names, want, i + 1)
    }
}

pub proof fn lemma_first_name_match_found(names: Seq<Seq<char>>, want: Seq<char>, s: int, k: int)
    requires
        0 <= s <= k < names.len(),
        names[k] == want,
        forall|j: int| s <= j < k ==> names[j] != want,
    ensures
        first_name_match(names, want, s) == k,
    decreases k - s,
{
    if s < k {
        lemma_first_name_match_found(names, want, s + 1, k);
    }
}

pub proof fn lemma_first_name_match_none(names: Seq<Seq<char>>, want: Seq<char>, s: int)
    requires
        0 <= s,
        forall|j: int| s <= j < names.len() ==> names[j] != want,
    ensures
        first_name_match(names, want, s) == -1,
    decreases names.len() - s,
{
    if s < names.len() {
        lemma_first_name_match_none(names, want, s + 1);
    }
}

/// The architecture name for a Mach-O header's CPU type and subtype,
/// matching the names the object parsing service gives the
/// architectures of the objects it reads. The subtype's capability bits
/// (its top byte) are masked off first.
pub open spec fn spec_cpu_arch_name(cputype: u32, cpusubtype_raw: u32) -> Seq<char> {
    let sub = cpusubtype_raw & 0x00FF_FFFF;
    if cputype == CPU_TYPE_X86 {
        if sub == 3 {
            "x86"@
        } else {
            "x86_unknown"@
        }
    } else if cputype == CPU_TYPE_X86_64 {
        if sub == 3 {
            "x86_64"@
        } else if sub == 8 {
            "x86_64h"@
        } else {
            "x86_64_unknown"@
        }
    } else if cputype == CPU_TYPE_ARM64 {
        if sub == 0 {
            "arm64"@
        } else if sub == 1 {
            "arm64v8"@
        } else if sub == 2 {
            "arm64e"@
        } else {
            "arm64_unknown"@
        }
    } else if cputype == CPU_TYPE_ARM64_32 {
        if sub == 0 {
            "arm64_32"@
        } else if sub == 1 {
            "arm64_32_v8"@
        } else {
            "arm64_32_unknown"@
        }
    } else if cputype == CPU_TYPE_ARM {
        if sub == 0 {
            "arm"@
        } else if sub == 7 {
            "armv5"@
        } else if sub == 6 {
            "armv6"@
        } else if sub == 14 {
            "armv6m"@
        } else if sub == 9 {
            "armv7"@
        } else if sub == 10 {
            "armv7f"@
        } else if sub == 11 {
            "armv7s"@
        } else if sub == 12 {
            "armv7k"@
        } else if sub == 15 {
            "armv7m"@
        } else if sub == 16 {
            "armv7em"@
        } else {
            "arm_unknown"@
        }
    } else if cputype == CPU_TYPE_POWERPC && (cpusubtype_raw & 0x00FF_FFFF) == 0 {
        "ppc"@
    } else if cputype == CPU_TYPE_POWERPC64 && (cpusubtype_raw & 0x00FF_FFFF) == 0 {
        "ppc64"@
    } else {
        "unknown"@
    }
}

/// Names the architecture of a Mach-O header, as the parsing service
/// names it.
pub fn cpu_arch_name(cputype: u32, cpusubtype_raw: u32) -> (r: &'static str)
    ensures
        r@ == spec_cpu_arch_name(cputype, cpusubtype_raw),
{
    let sub = cpusubtype_raw & 0x00FF_FFFF;
    if cputype == CPU_TYPE_X86 {
        if sub == 3 {
            "x86"
        } else {
            "x86_unknown"
        }
    } else if cputype == CPU_TYPE_X86_64 {
        if sub == 3 {
            "x86_64"
        } else if sub == 8 {
            "x86_64h"
        } else {
            "x86_64_unknown"
        }
    } else if cputype == CPU_TYPE_ARM64 {
        if sub == 0 {
            "arm64"
        } else if sub == 1 {
            "arm64v8"
        } else if sub == 2 {
            "arm64e"
        } else {
            "arm64_unknown"
        }
    } else if cputype == CPU_TYPE_ARM64_32 {
        if sub == 0 {
            "arm64_32"
        } else if sub == 1 {
            "arm64_32_v8"
        } else {
            "arm64_32_unknown"
        }
    } else if cputype == CPU_TYPE_ARM {
        if sub == 0 {
            "arm"
        } else if sub == 7 {
            "armv5"
        } else if sub == 6 {
            "armv6"
        } else if sub == 14 {
            "armv6m"
        } else if sub == 9 {
            "armv7"
        } else if sub == 10 {
            "armv7f"
        } else if sub == 11 {
            "armv7s"
        } else if sub == 12 {
            "armv7k"
        } else if sub == 15 {
            "armv7m"
        } else if sub == 16 {
            "armv7em"
        } else {
            "arm_unknown"
        }
    } else if cputype == CPU_TYPE_POWERPC && sub == 0 {
        "ppc"
    } else if cputype == CPU_TYPE_POWERPC64 && sub == 0 {
        "ppc64"
    } else {
        "unknown"
    }
}

} // verus!
