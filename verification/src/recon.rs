//! The driver of the reconstruction: begun from a linked binary's
//! bytes, it selects the slice matching the resolver's own
//! architecture, builds the symbol-address index and the plan of
//! referenced files to read; the caller reads each planned file and
//! hands the bytes back; finishing yields the address table. Any
//! unreadable or unparsable referenced source aborts the whole
//! reconstruction.

use vstd::prelude::*;
use vstd::string::StringExecFns;

use crate::error::{LoadError, LoadOp};
use crate::interner::Interner;
use crate::macho::{
    cpu_arch_name, first_name_match, lemma_first_cpu_match_found, lemma_first_cpu_match_none,
    lemma_first_name_match_found, lemma_first_name_match_none, object_load_address, oso_plan,
    slice_index_for, spec_cpu_arch_name, spec_load_address, sym_fold, sym_func_addrs, OsoRequest,
    OsoRequestV,
};
use crate::macho::plan_fold;
use crate::service::{
    arch_names_of, archive_arch_names, archive_extract, archive_funcs_of,
    archive_member_bytes_of, archive_members, archive_members_of, archive_object_functions,
    mach_cpus_of, mach_segs_of, mach_slice_cpus, mach_slice_segments, mach_slice_symbols,
    mach_syms_of,
};
use crate::strtools::str_eq;
use crate::symmap::SymMap;
use crate::table::{lemma_rel_added_mono, rel_added, FileInfo, FuncInfo};

verus! {

/// The growing state of one reconstruction: the architecture to select
/// in referenced objects, the symbol-address index, and the functions
/// merged so far.
pub struct ReconState {
    pub arch: String,
    pub sym_addrs: SymMap,
    pub interner: Interner,
    pub func_infos: Vec<FuncInfo>,
}

impl ReconState {
    /// The index and interner are well-formed and every merged function
    /// is valid against the interner.
    pub open spec fn wf(&self) -> bool {
        &&& self.interner.wf()
        &&& forall|i: int|
            0 <= i < self.func_infos@.len() ==> (#[trigger] self.func_infos@[i]).wf(
                self.interner@,
            )
    }
}

/// What beginning a reconstruction on these bytes yields: a parse
/// failure when the binary does not read; the no-matching-slice error
/// when it is fat and no slice has the target CPU type; a
/// symbol-table error when the chosen slice's table cannot be read;
/// otherwise a fresh state whose architecture names the chosen slice,
/// whose symbol index is the full symbol-address pass over that slice's
/// table relative to its load address, and the read plan of that table.
pub open spec fn spec_macho_begin(
    data: Seq<u8>,
    target: u32,
    r: Result<(ReconState, Vec<OsoRequest>), LoadError>,
) -> bool {
    match mach_cpus_of(data) {
        None => r matches Err(e) && e.op == LoadOp::ParseWithGoblin,
        Some(p) => {
            let cpus = p.0;
            let fat = p.1;
            let idx = slice_index_for(cpus, fat, target);
            if idx == -1 {
                r matches Err(e) && e.op == (if fat {
                    LoadOp::FindFatCode
                } else {
                    LoadOp::ParseWithGoblin
                })
            } else {
                match mach_syms_of(data, idx) {
                    None => r matches Err(e) && e.op == LoadOp::ReadSymbolTable,
                    Some(syms) => r matches Ok(q) && {
                        &&& q.0.wf()
                        &&& q.0.func_infos@.len() == 0
                        &&& q.0.arch@ == spec_cpu_arch_name(cpus[idx].0, cpus[idx].1)
                        &&& q.0.sym_addrs@ == sym_fold(
                            syms,
                            spec_load_address(mach_segs_of(data, idx)),
                        ).1
                        &&& q.1.deep_view() == plan_fold(syms, Seq::<OsoRequestV>::empty())
                    },
                }
            }
        },
    }
}

/// Begins a reconstruction: parses the binary, takes the slice whose
/// CPU type matches `target_cputype` (the only slice of a plain
/// binary), walks its symbol table into the symbol-address index, and
/// plans which referenced sources to read.
pub fn macho_begin(data: &[u8], target_cputype: u32) -> (r: Result<
    (ReconState, Vec<OsoRequest>),
    LoadError,
>)
    ensures
        spec_macho_begin(data@, target_cputype, r),
        r matches Ok(p) ==> p.0.wf() && p.0.func_infos@.len() == 0,
{
    let (cpus, is_fat) = match mach_slice_cpus(data) {
        Ok(p) => p,
        Err(e) => {
            return Err(e);
        },
    };
    let n = cpus.len();
    let mut idx: usize = 0;
    if is_fat {
        let mut found = false;
        let mut i: usize = 0;
        while i < n
            invariant
                n == cpus@.len(),
                i <= n,
                !found ==> forall|j: int| 0 <= j < i ==> (#[trigger] cpus@[j]).0
                    != target_cputype,
                found ==> idx < n && cpus@[idx as int].0 == target_cputype && forall|j: int|
                    0 <= j < idx ==> (#[trigger] cpus@[j]).0 != target_cputype,
            decreases n - i,
        {
            if !found && cpus[i].0 == target_cputype {
                idx = i;
                found = true;
            }
            i = i + 1;
        }
        if !found {
            proof {
                lemma_first_cpu_match_none(cpus@, target_cputype, 0);
            }
            return Err(LoadError::bare(LoadOp::FindFatCode));
        }
        proof {
            lemma_first_cpu_match_found(cpus@, target_cputype, 0, idx as int);
        }
    } else {
        if n == 0 {
            return Err(LoadError::bare(LoadOp::ParseWithGoblin));
        }
    }
    proof {
        assert(slice_index_for(cpus@, is_fat, target_cputype) == idx as int);
    }
    let syms = match mach_slice_symbols(data, idx) {
        Ok(s) => s,
        Err(e) => {
            return Err(e);
        },
    };
    let segs = mach_slice_segments(data, idx);
    let load = object_load_address(&segs);
    let sym_addrs = sym_func_addrs(&syms, load);
    let plan = oso_plan(&syms);
    let cpu = cpus[idx];
    let arch = cpu_arch_name(cpu.0, cpu.1).to_owned();
    let st = ReconState { arch, sym_addrs, interner: Interner::new(), func_infos: Vec::new() };
    Ok((st, plan))
}

/// One referenced source merges under symbol index `m`: its
/// architecture list parses, contains `arch` (first match selected),
/// that sub-object's debug session reports functions, and `added` is
/// exactly their contribution per the symbol index.
pub open spec fn spec_object_merge(
    m: Map<Seq<char>, u64>,
    file: Seq<char>,
    arch: Seq<char>,
    itn: Seq<Seq<char>>,
    data: Seq<u8>,
    added: Seq<FuncInfo>,
) -> bool {
    match arch_names_of(data) {
        None => false,
        Some(names) => {
            let idx = first_name_match(names, arch, 0);
            &&& idx >= 0
            &&& match archive_funcs_of(data, idx) {
                None => false,
                Some(raw) => rel_added(m, file, itn, raw, added),
            }
        },
    }
}

/// Why one referenced source cannot merge: it does not parse, no
/// sub-object has the wanted architecture, or the matching sub-object's
/// debug session cannot be read.
pub open spec fn spec_object_merge_fails(data: Seq<u8>, arch: Seq<char>) -> bool {
    match arch_names_of(data) {
        None => true,
        Some(names) => {
            let idx = first_name_match(names, arch, 0);
            idx == -1 || archive_funcs_of(data, idx) is None
        },
    }
}

/// A merged contribution survives growing the interner.
pub proof fn lemma_object_merge_mono(
    m: Map<Seq<char>, u64>,
    file: Seq<char>,
    arch: Seq<char>,
    itn1: Seq<Seq<char>>,
    itn2: Seq<Seq<char>>,
    data: Seq<u8>,
    added: Seq<FuncInfo>,
)
    requires
        itn1.is_prefix_of(itn2),
        spec_object_merge(m, file, arch, itn1, data, added),
    ensures
        spec_object_merge(m, file, arch, itn2, data, added),
{
    let names = arch_names_of(data)->Some_0;
    let idx = first_name_match(names, arch, 0);
    let raw = archive_funcs_of(data, idx)->Some_0;
    lemma_rel_added_mono(m, file, itn1, itn2, raw, added);
}

/// Merges the debug info of one referenced standalone object or archive
/// member: selects its sub-object of the wanted architecture, and adds
/// every function whose symbol-table entry is known, rebased onto the
/// recorded address — exactly, and if and only if the source can be
/// read. A source that cannot fails the whole reconstruction with an
/// error naming it, leaving the state untouched.
pub fn recon_add_object(st: &mut ReconState, file_name: &str, data: &[u8]) -> (r: Result<
    (),
    LoadError,
>)
    requires
        old(st).wf(),
    ensures
        final(st).wf(),
        final(st).arch == old(st).arch,
        final(st).sym_addrs == old(st).sym_addrs,
        old(st).func_infos@.is_prefix_of(final(st).func_infos@),
        old(st).interner@.is_prefix_of(final(st).interner@),
        r matches Ok(u) ==> spec_object_merge(
            old(st).sym_addrs@,
            file_name@,
            old(st).arch@,
            final(st).interner@,
            data@,
            final(st).func_infos@.skip(old(st).func_infos@.len() as int),
        ),
        r matches Err(e) ==> *final(st) == *old(st) && spec_object_merge_fails(
            data@,
            old(st).arch@,
        )
            && (e.subject matches Some(s) && s@ == file_name@) && (e.op == LoadOp::ParseRef
            || e.op == LoadOp::ParseFatEntry || e.op == LoadOp::FindArchCode || e.op
            == LoadOp::ReadDebugInfoRef),
{
    let names = match archive_arch_names(data) {
        Ok(n) => n,
        Err(e) => {
            return Err(LoadError::on(e.op, file_name));
        },
    };
    let ghost names_dv = names.deep_view();
    let n = names.len();
    let mut idx: usize = 0;
    let mut found = false;
    let mut i: usize = 0;
    while i < n
        invariant
            st == old(st),
            n == names@.len(),
            names_dv == names.deep_view(),
            names_dv.len() == n,
            i <= n,
            !found ==> forall|j: int| 0 <= j < i ==> names_dv[j] != st.arch@,
            found ==> idx < n && names_dv[idx as int] == st.arch@ && forall|j: int|
                0 <= j < idx ==> names_dv[j] != st.arch@,
        decreases n - i,
    {
        proof {
            assert(names_dv[i as int] == names@[i as int]@);
        }
        if !found && str_eq(names[i].as_str(), st.arch.as_str()) {
            idx = i;
            found = true;
        }
        i = i + 1;
    }
    if !found {
        proof {
            lemma_first_name_match_none(names_dv, st.arch@, 0);
        }
        return Err(LoadError::on(LoadOp::FindArchCode, file_name));
    }
    proof {
        lemma_first_name_match_found(names_dv, st.arch@, 0, idx as int);
    }
    let funcs = match archive_object_functions(data, idx) {
        Ok(f) => f,
        Err(e) => {
            return Err(LoadError::on(e.op, file_name));
        },
    };
    FileInfo::add(&st.sym_addrs, file_name, funcs, &mut st.interner, &mut st.func_infos);
    Ok(())
}

/// How many of the reported functions the symbol index knows: the
/// length of the contribution `rel_added` describes.
pub open spec fn contrib_len(m: Map<Seq<char>, u64>, file: Seq<char>, raw: Seq<
    crate::raw::RawFuncV,
>) -> int
    decreases raw.len(),
{
    if raw.len() == 0 {
        0
    } else {
        contrib_len(m, file, raw.drop_last()) + if m.contains_key(
            crate::macho::key_seq(file, raw.last().name),
        ) {
            1int
        } else {
            0int
        }
    }
}

/// A merged contribution has exactly as many entries as the symbol
/// index knows of the reported functions.
pub proof fn lemma_rel_added_len(
    m: Map<Seq<char>, u64>,
    file: Seq<char>,
    itn: Seq<Seq<char>>,
    raw: Seq<crate::raw::RawFuncV>,
    added: Seq<FuncInfo>,
)
    requires
        rel_added(m, file, itn, raw, added),
    ensures
        added.len() == contrib_len(m, file, raw),
    decreases raw.len(),
{
    if raw.len() > 0 {
        if m.contains_key(crate::macho::key_seq(file, raw.last().name)) {
            lemma_rel_added_len(m, file, itn, raw.drop_last(), added.drop_last());
        } else {
            lemma_rel_added_len(m, file, itn, raw.drop_last(), added);
        }
    }
}

/// The length of one archive member's contribution, determined by the
/// member's bytes and the symbol index alone (zero when the member
/// cannot merge).
pub open spec fn member_contrib_len(
    m: Map<Seq<char>, u64>,
    ar: Seq<char>,
    arch: Seq<char>,
    data: Seq<u8>,
    member: Seq<char>,
) -> int {
    match archive_member_bytes_of(data, member) {
        None => 0,
        Some(b) => match arch_names_of(b) {
            None => 0,
            Some(names) => {
                let idx = first_name_match(names, arch, 0);
                if idx >= 0 {
                    match archive_funcs_of(b, idx) {
                        Some(raw) => contrib_len(m, ar, raw),
                        None => 0,
                    }
                } else {
                    0
                }
            },
        },
    }
}

/// One archive member merges: its bytes extract and, as one referenced
/// source, contribute exactly `chunk`.
pub open spec fn member_step(
    m: Map<Seq<char>, u64>,
    ar: Seq<char>,
    arch: Seq<char>,
    itn: Seq<Seq<char>>,
    data: Seq<u8>,
    member: Seq<char>,
    chunk: Seq<FuncInfo>,
) -> bool {
    match archive_member_bytes_of(data, member) {
        Some(b) => spec_object_merge(m, ar, arch, itn, b, chunk),
        None => false,
    }
}

/// A whole referenced archive merges: each member's bytes extract, and
/// each member's contribution follows the previous members', in member
/// order.
pub open spec fn spec_archive_merge(
    m: Map<Seq<char>, u64>,
    ar: Seq<char>,
    arch: Seq<char>,
    itn: Seq<Seq<char>>,
    data: Seq<u8>,
    members: Seq<Seq<char>>,
    added: Seq<FuncInfo>,
) -> bool
    decreases members.len(),
{
    if members.len() == 0 {
        added.len() == 0
    } else {
        let k = added.len() - member_contrib_len(m, ar, arch, data, members.last());
        &&& 0 <= k <= added.len()
        &&& spec_archive_merge(m, ar, arch, itn, data, members.drop_last(), added.take(k))
        &&& member_step(m, ar, arch, itn, data, members.last(), added.skip(k))
    }
}

/// A member's contribution survives growing the interner.
pub proof fn lemma_member_step_mono(
    m: Map<Seq<char>, u64>,
    ar: Seq<char>,
    arch: Seq<char>,
    itn1: Seq<Seq<char>>,
    itn2: Seq<Seq<char>>,
    data: Seq<u8>,
    member: Seq<char>,
    chunk: Seq<FuncInfo>,
)
    requires
        itn1.is_prefix_of(itn2),
        member_step(m, ar, arch, itn1, data, member, chunk),
    ensures
        member_step(m, ar, arch, itn2, data, member, chunk),
{
    let b = archive_member_bytes_of(data, member)->Some_0;
    lemma_object_merge_mono(m, ar, arch, itn1, itn2, b, chunk);
}

/// An archive's merged contributions survive growing the interner.
pub proof fn lemma_archive_merge_mono(
    m: Map<Seq<char>, u64>,
    ar: Seq<char>,
    arch: Seq<char>,
    itn1: Seq<Seq<char>>,
    itn2: Seq<Seq<char>>,
    data: Seq<u8>,
    members: Seq<Seq<char>>,
    added: Seq<FuncInfo>,
)
    requires
        itn1.is_prefix_of(itn2),
        spec_archive_merge(m, ar, arch, itn1, data, members, added),
    ensures
        spec_archive_merge(m, ar, arch, itn2, data, members, added),
    decreases members.len(),
{
    if members.len() > 0 {
        let k = added.len() - member_contrib_len(m, ar, arch, data, members.last());
        lemma_archive_merge_mono(m, ar, arch, itn1, itn2, data, members.drop_last(), added.take(k));
        lemma_member_step_mono(m, ar, arch, itn1, itn2, data, members.last(), added.skip(k));
    }
}

/// Reads every member of one referenced static archive and merges each
/// member's debug info, keyed under the archive's own name: on success
/// the contribution is exactly the members' contributions in member
/// order. Any unreadable member fails the whole reconstruction with an
/// error naming the archive.
pub fn recon_add_archive(st: &mut ReconState, ar_name: &str, data: &[u8]) -> (r: Result<
    (),
    LoadError,
>)
    requires
        old(st).wf(),
    ensures
        final(st).wf(),
        final(st).arch == old(st).arch,
        final(st).sym_addrs == old(st).sym_addrs,
        old(st).func_infos@.is_prefix_of(final(st).func_infos@),
        r matches Ok(u) ==> (archive_members_of(data@) matches Some(members)
            && spec_archive_merge(
            old(st).sym_addrs@,
            ar_name@,
            old(st).arch@,
            final(st).interner@,
            data@,
            members,
            final(st).func_infos@.skip(old(st).func_infos@.len() as int),
        )),
        r matches Err(e) ==> (e.subject matches Some(s) && s@ == ar_name@) && (e.op
            == LoadOp::ParseAr || e.op == LoadOp::ReadArEntry || e.op == LoadOp::ParseRef || e.op
            == LoadOp::ParseFatEntry || e.op == LoadOp::FindArchCode || e.op
            == LoadOp::ReadDebugInfoRef),
{
    let members = match archive_members(data) {
        Ok(m) => m,
        Err(e) => {
            return Err(LoadError::on(e.op, ar_name));
        },
    };
    let ghost mem_dv = members.deep_view();
    let ghost base = old(st).func_infos@.len() as int;
    let ghost m0 = old(st).sym_addrs@;
    let ghost arch0 = old(st).arch@;
    let mut i: usize = 0;
    proof {
        assert(mem_dv.take(0) =~= Seq::<Seq<char>>::empty());
        assert(st.func_infos@.skip(base) =~= Seq::<FuncInfo>::empty());
    }
    while i < members.len()
        invariant
            i <= members@.len(),
            mem_dv == members.deep_view(),
            mem_dv.len() == members@.len(),
            st.wf(),
            st.arch == old(st).arch,
            st.sym_addrs == old(st).sym_addrs,
            m0 == old(st).sym_addrs@,
            arch0 == old(st).arch@,
            base == old(st).func_infos@.len() as int,
            old(st).func_infos@.is_prefix_of(st.func_infos@),
            spec_archive_merge(
                m0,
                ar_name@,
                arch0,
                st.interner@,
                data@,
                mem_dv.take(i as int),
                st.func_infos@.skip(base),
            ),
        decreases members@.len() - i,
    {
        let ghost itn0 = st.interner@;
        let ghost added0 = st.func_infos@.skip(base);
        let ghost pre = st.func_infos@;
        let ghost mid = st.func_infos@.len() as int;
        proof {
            assert(mem_dv[i as int] == members@[i as int]@);
        }
        let bytes = match archive_extract(data, members[i].as_str()) {
            Ok(b) => b,
            Err(e) => {
                return Err(LoadError::on(e.op, ar_name));
            },
        };
        match recon_add_object(st, ar_name, bytes.as_slice()) {
            Ok(_) => {},
            Err(e) => {
                return Err(e);
            },
        }
        proof {
            lemma_archive_merge_mono(
                m0,
                ar_name@,
                arch0,
                itn0,
                st.interner@,
                data@,
                mem_dv.take(i as int),
                added0,
            );
            let added1 = st.func_infos@.skip(base);
            let k0 = mid - base;
            assert(pre.is_prefix_of(st.func_infos@));
            assert forall|j: int| 0 <= j < pre.len() implies st.func_infos@[j] == pre[j] by {
                assert(pre[j] == st.func_infos@.subrange(0, pre.len() as int)[j]);
            }
            assert(old(st).func_infos@.is_prefix_of(st.func_infos@)) by {
                assert forall|j: int|
                    0 <= j < old(st).func_infos@.len() implies st.func_infos@.subrange(
                    0,
                    base,
                )[j] == old(st).func_infos@[j] by {
                    assert(pre[j] == old(st).func_infos@[j]) by {
                        assert(pre.subrange(0, base)[j] == old(st).func_infos@[j]);
                    }
                }
                assert(st.func_infos@.subrange(0, base) =~= old(st).func_infos@);
            }
            assert(added1.take(k0) =~= added0);
            assert(added1.skip(k0) =~= st.func_infos@.skip(mid));
            assert(mem_dv.take(i + 1).drop_last() =~= mem_dv.take(i as int));
            assert(mem_dv.take(i + 1).last() == mem_dv[i as int]);
            // The split point is the one the relation computes: the
            // merged chunk is exactly as long as the member's known
            // functions.
            let chunk = st.func_infos@.skip(mid);
            assert(bytes@ == archive_member_bytes_of(data@, mem_dv[i as int])->Some_0);
            assert(spec_object_merge(m0, ar_name@, arch0, st.interner@, bytes@, chunk));
            let names2 = arch_names_of(bytes@)->Some_0;
            let idx2 = first_name_match(names2, arch0, 0);
            let raw2 = archive_funcs_of(bytes@, idx2)->Some_0;
            lemma_rel_added_len(m0, ar_name@, st.interner@, raw2, chunk);
            assert(member_contrib_len(m0, ar_name@, arch0, data@, mem_dv[i as int])
                == chunk.len());
            assert(added1.len() - member_contrib_len(
                m0,
                ar_name@,
                arch0,
                data@,
                mem_dv.take(i + 1).last(),
            ) == k0);
            assert(member_step(
                m0,
                ar_name@,
                arch0,
                st.interner@,
                data@,
                mem_dv.take(i + 1).last(),
                added1.skip(k0),
            ));
            assert(spec_archive_merge(
                m0,
                ar_name@,
                arch0,
                st.interner@,
                data@,
                mem_dv.take(i + 1),
                added1,
            ));
        }
        i = i + 1;
    }
    proof {
        assert(mem_dv.take(mem_dv.len() as int) =~= mem_dv);
    }
    Ok(())
}

/// Finishes a reconstruction: sorts the merged functions and removes
/// duplicate addresses, the last merged entry winning.
pub fn recon_finish(st: ReconState) -> (r: FileInfo)
    requires
        st.wf(),
    ensures
        r.wf(),
        crate::table::dedup_rel_f(st.func_infos@, r.func_infos@),
{
    FileInfo::finish(st.interner, st.func_infos)
}

} // verus!
