//! The address table: per-function line tables and the per-file table
//! of functions, each sorted strictly by address, with the floor-style
//! binary searches that answer point queries, and the sort/dedup pass
//! that builds the tables.

use vstd::prelude::*;

use crate::interner::{InternedString, Interner};
use crate::macho::{key_seq, sym_func_key};
use crate::raw::{RawFunc, RawFuncV, RawLine, RawLineV};
use crate::symmap::SymMap;

verus! {

/// The address `a` shifted by `offset`, with two's-complement
/// wrap-around, as addresses are rebased during reconstruction.
pub open spec fn shift(a: u64, offset: i64) -> u64 {
    vstd::wrapping::u64_specs::wrapping_add_signed(a, offset)
}

/// A line number as the table stores it: the service reports 64-bit
/// numbers, the table keeps their low 32 bits.
pub open spec fn spec_line_u32(l: u64) -> u32 {
    (l % 0x1_0000_0000) as u32
}

/// Debug info for a single line: source line `line` of the path behind
/// the handle `path` begins at `address`.
pub struct LineInfo {
    pub address: u64,
    pub line: u32,
    pub path: InternedString,
}

/// Debug info for a single function covering the address range
/// `[address, address + size)`.
pub struct FuncInfo {
    pub address: u64,
    pub size: u64,
    pub mangled_name: String,
    /// Sorted strictly ascending by address.
    pub line_infos: Vec<LineInfo>,
}

/// Debug info for a single file: an interner for the source paths and
/// the functions, sorted strictly ascending by address.
pub struct FileInfo {
    pub interner: Interner,
    pub func_infos: Vec<FuncInfo>,
}

/// Strictly ascending line addresses: sorted and duplicate-free.
pub open spec fn sorted_strict_lines(s: Seq<LineInfo>) -> bool {
    forall|i: int, j: int| 0 <= i < j < s.len() ==> s[i].address < s[j].address
}

/// Strictly ascending function addresses: sorted and duplicate-free.
pub open spec fn sorted_strict_funcs(s: Seq<FuncInfo>) -> bool {
    forall|i: int, j: int| 0 <= i < j < s.len() ==> s[i].address < s[j].address
}

/// The index of the last line entry with address at most `a`, or -1.
/// For a sorted table this is the floor entry for `a`.
pub open spec fn line_floor(s: Seq<LineInfo>, a: u64) -> int
    decreases s.len(),
{
    if s.len() == 0 {
        -1
    } else if s.last().address <= a {
        s.len() - 1
    } else {
        line_floor(s.drop_last(), a)
    }
}

/// The index of the last function entry with address at most `a`, or
/// -1. For a sorted table this is the floor entry for `a`.
pub open spec fn func_floor(s: Seq<FuncInfo>, a: u64) -> int
    decreases s.len(),
{
    if s.len() == 0 {
        -1
    } else if s.last().address <= a {
        s.len() - 1
    } else {
        func_floor(s.drop_last(), a)
    }
}

/// A function contains `a` when `a` falls in its half-open range.
pub open spec fn spec_func_contains(f: FuncInfo, a: u64) -> bool {
    f.address <= a && (a as int) < f.address + f.size
}

/// What a function lookup yields: the floor entry, and only if the
/// address falls inside its range.
pub open spec fn func_result(s: Seq<FuncInfo>, a: u64) -> Option<FuncInfo> {
    let f = func_floor(s, a);
    if f == -1 {
        None
    } else if spec_func_contains(s[f], a) {
        Some(s[f])
    } else {
        None
    }
}

/// The floor index is always a valid index or -1, sorted or not.
pub proof fn lemma_line_floor_total(s: Seq<LineInfo>, a: u64)
    ensures
        -1 <= line_floor(s, a) < s.len(),
    decreases s.len(),
{
    if s.len() > 0 && !(s.last().address <= a) {
        lemma_line_floor_total(s.drop_last(), a);
    }
}

/// The floor index is always a valid index or -1, sorted or not.
pub proof fn lemma_func_floor_total(s: Seq<FuncInfo>, a: u64)
    ensures
        -1 <= func_floor(s, a) < s.len(),
    decreases s.len(),
{
    if s.len() > 0 && !(s.last().address <= a) {
        lemma_func_floor_total(s.drop_last(), a);
    }
}

pub proof fn lemma_line_floor(s: Seq<LineInfo>, a: u64)
    requires
        sorted_strict_lines(s),
    ensures
        -1 <= line_floor(s, a) < s.len(),
        line_floor(s, a) >= 0 ==> s[line_floor(s, a)].address <= a,
        forall|j: int| line_floor(s, a) < j < s.len() ==> s[j].address > a,
    decreases s.len(),
{
    if s.len() > 0 && !(s.last().address <= a) {
        assert(sorted_strict_lines(s.drop_last()));
        lemma_line_floor(s.drop_last(), a);
        assert forall|j: int| line_floor(s, a) < j < s.len() implies s[j].address > a by {
            if j < s.len() - 1 {
                assert(s[j] == s.drop_last()[j]);
            }
        }
    }
}

/// The floor index is pinned by its local shape: the entry is at most
/// `a` and the next entry, if any, is beyond `a`.
pub proof fn lemma_line_floor_is(s: Seq<LineInfo>, a: u64, i: int)
    requires
        sorted_strict_lines(s),
        0 <= i < s.len(),
        s[i].address <= a,
        i == s.len() - 1 || s[i + 1].address > a,
    ensures
        line_floor(s, a) == i,
    decreases s.len(),
{
    if i == s.len() - 1 {
    } else if s.last().address <= a {
        assert(s[i + 1].address <= s[s.len() - 1].address);
        assert(false);
    } else {
        assert(sorted_strict_lines(s.drop_last()));
        lemma_line_floor_is(s.drop_last(), a, i);
    }
}

pub proof fn lemma_func_floor(s: Seq<FuncInfo>, a: u64)
    requires
        sorted_strict_funcs(s),
    ensures
        -1 <= func_floor(s, a) < s.len(),
        func_floor(s, a) >= 0 ==> s[func_floor(s, a)].address <= a,
        forall|j: int| func_floor(s, a) < j < s.len() ==> s[j].address > a,
    decreases s.len(),
{
    if s.len() > 0 && !(s.last().address <= a) {
        assert(sorted_strict_funcs(s.drop_last()));
        lemma_func_floor(s.drop_last(), a);
        assert forall|j: int| func_floor(s, a) < j < s.len() implies s[j].address > a by {
            if j < s.len() - 1 {
                assert(s[j] == s.drop_last()[j]);
            }
        }
    }
}

/// The floor index is pinned by its local shape.
pub proof fn lemma_func_floor_is(s: Seq<FuncInfo>, a: u64, i: int)
    requires
        sorted_strict_funcs(s),
        0 <= i < s.len(),
        s[i].address <= a,
        i == s.len() - 1 || s[i + 1].address > a,
    ensures
        func_floor(s, a) == i,
    decreases s.len(),
{
    if i == s.len() - 1 {
    } else if s.last().address <= a {
        assert(s[i + 1].address <= s[s.len() - 1].address);
        assert(false);
    } else {
        assert(sorted_strict_funcs(s.drop_last()));
        lemma_func_floor_is(s.drop_last(), a, i);
    }
}

impl FuncInfo {
    /// The line table is strictly sorted and every path handle is valid
    /// for interner table `itn`.
    pub open spec fn wf(&self, itn: Seq<Seq<char>>) -> bool {
        &&& sorted_strict_lines(self.line_infos@)
        &&& forall|i: int|
            0 <= i < self.line_infos@.len() ==> (#[trigger] self.line_infos@[i]).path.0 < itn.len()
    }

    /// Whether `address` falls within this function's address range.
    pub fn contains(&self, address: u64) -> (r: bool)
        ensures
            r == spec_func_contains(*self, address),
    {
        self.address <= address && address - self.address < self.size
    }

    /// The floor line entry for `address`: the entry with the greatest
    /// address not beyond `address`, found by binary search. The last
    /// known line before `address` is assumed to continue, so there is
    /// no upper interval check.
    pub fn line_info(&self, address: u64) -> (r: Option<&LineInfo>)
        requires
            sorted_strict_lines(self.line_infos@),
        ensures
            ({
                let f = line_floor(self.line_infos@, address);
                match r {
                    Some(li) => f >= 0 && *li == self.line_infos@[f],
                    None => f == -1,
                }
            }),
    {
        let mut lo: usize = 0;
        let mut hi: usize = self.line_infos.len();
        while lo < hi
            invariant
                lo <= hi <= self.line_infos@.len(),
                sorted_strict_lines(self.line_infos@),
                forall|j: int| 0 <= j < lo ==> self.line_infos@[j].address <= address,
                forall|j: int|
                    hi <= j < self.line_infos@.len() ==> self.line_infos@[j].address > address,
            decreases hi - lo,
        {
            let mid = lo + (hi - lo) / 2;
            if self.line_infos[mid].address <= address {
                proof {
                    assert forall|j: int| 0 <= j < mid + 1 implies self.line_infos@[j].address
                        <= address by {
                        if j < mid {
                            assert(self.line_infos@[j].address < self.line_infos@[
                            mid as int].address);
                        }
                    }
                }
                lo = mid + 1;
            } else {
                proof {
                    assert forall|j: int|
                        mid <= j < self.line_infos@.len() implies self.line_infos@[j].address
                        > address by {
                        if j > mid {
                            assert(self.line_infos@[mid as int].address < self.line_infos@[
                            j].address);
                        }
                    }
                }
                hi = mid;
            }
        }
        if lo == 0 {
            proof {
                lemma_line_floor(self.line_infos@, address);
            }
            None
        } else {
            proof {
                lemma_line_floor_is(self.line_infos@, address, lo - 1);
            }
            Some(&self.line_infos[lo - 1])
        }
    }
}

impl FuncInfo {
    /// The function's name in human-readable form, demangled on a
    /// best-effort basis (the mangled name itself when demangling does
    /// not apply).
    pub fn demangled_name(&self) -> (r: String)
        ensures
            r@ == crate::service::demangle_of(self.mangled_name@),
    {
        crate::service::demangle(self.mangled_name.as_str())
    }
}

impl FileInfo {
    /// The function table is strictly sorted, and every function's line
    /// table is well-formed against this file's interner.
    pub open spec fn wf(&self) -> bool {
        &&& self.interner.wf()
        &&& sorted_strict_funcs(self.func_infos@)
        &&& forall|i: int|
            0 <= i < self.func_infos@.len() ==> (#[trigger] self.func_infos@[i]).wf(
                self.interner@,
            )
    }

    /// The function containing `address`, if any: binary search for the
    /// floor entry, returned only when `address` falls in its range.
    pub fn func_info(&self, address: u64) -> (r: Option<&FuncInfo>)
        requires
            sorted_strict_funcs(self.func_infos@),
        ensures
            ({
                let res = func_result(self.func_infos@, address);
                match r {
                    Some(f) => res == Some(*f),
                    None => res is None,
                }
            }),
    {
        let mut lo: usize = 0;
        let mut hi: usize = self.func_infos.len();
        while lo < hi
            invariant
                lo <= hi <= self.func_infos@.len(),
                sorted_strict_funcs(self.func_infos@),
                forall|j: int| 0 <= j < lo ==> self.func_infos@[j].address <= address,
                forall|j: int|
                    hi <= j < self.func_infos@.len() ==> self.func_infos@[j].address > address,
            decreases hi - lo,
        {
            let mid = lo + (hi - lo) / 2;
            if self.func_infos[mid].address <= address {
                proof {
                    assert forall|j: int| 0 <= j < mid + 1 implies self.func_infos@[j].address
                        <= address by {
                        if j < mid {
                            assert(self.func_infos@[j].address < self.func_infos@[
                            mid as int].address);
                        }
                    }
                }
                lo = mid + 1;
            } else {
                proof {
                    assert forall|j: int|
                        mid <= j < self.func_infos@.len() implies self.func_infos@[j].address
                        > address by {
                        if j > mid {
                            assert(self.func_infos@[mid as int].address < self.func_infos@[
                            j].address);
                        }
                    }
                }
                hi = mid;
            }
        }
        if lo == 0 {
            proof {
                lemma_func_floor(self.func_infos@, address);
            }
            None
        } else {
            proof {
                lemma_func_floor_is(self.func_infos@, address, lo - 1);
            }
            let fi = &self.func_infos[lo - 1];
            if fi.contains(address) {
                Some(fi)
            } else {
                None
            }
        }
    }
}

/// Function ranges are pairwise disjoint: each ends at or before the
/// next begins.
pub open spec fn disjoint_funcs(s: Seq<FuncInfo>) -> bool {
    forall|i: int, j: int|
        0 <= i < j < s.len() ==> s[i].address + s[i].size <= s[j].address
}

/// For a table of pairwise disjoint functions, a lookup anywhere inside
/// one function's range yields exactly that function.
pub proof fn lemma_function_at_in_range(s: Seq<FuncInfo>, i: int, a: u64)
    requires
        sorted_strict_funcs(s),
        disjoint_funcs(s),
        0 <= i < s.len(),
        s[i].address <= a,
        (a as int) < s[i].address + s[i].size,
    ensures
        func_result(s, a) == Some(s[i]),
{
    if i < s.len() - 1 {
        assert(s[i].address + s[i].size <= s[i + 1].address);
    }
    lemma_func_floor_is(s, a, i);
}

/// For a table of pairwise disjoint functions, a lookup at an address
/// inside no function's range yields nothing; in particular an address
/// strictly between one function's end and the next function's start is
/// unresolved.
pub proof fn lemma_function_at_outside(s: Seq<FuncInfo>, a: u64)
    requires
        sorted_strict_funcs(s),
        disjoint_funcs(s),
        forall|i: int| 0 <= i < s.len() ==> !spec_func_contains(#[trigger] s[i], a),
    ensures
        func_result(s, a) is None,
{
    lemma_func_floor(s, a);
}

/// An address strictly between one function's end and the next
/// function's start resolves to nothing.
pub proof fn lemma_function_at_gap(s: Seq<FuncInfo>, i: int, a: u64)
    requires
        sorted_strict_funcs(s),
        disjoint_funcs(s),
        0 <= i < s.len() - 1,
        s[i].address + s[i].size <= a,
        (a as int) < s[i + 1].address,
    ensures
        func_result(s, a) is None,
{
    assert forall|j: int| 0 <= j < s.len() implies !spec_func_contains(#[trigger] s[j], a) by {
        if j < i {
            assert(s[j].address + s[j].size <= s[i].address);
        } else if j > i {
            assert(s[i + 1].address <= s[j].address);
        }
    }
    lemma_function_at_outside(s, a);
}

/// Exact boundary behaviour: a function resolves at its first and at
/// its last address, and no longer at the address one past its range.
pub proof fn lemma_function_at_boundaries(s: Seq<FuncInfo>, i: int)
    requires
        sorted_strict_funcs(s),
        disjoint_funcs(s),
        0 <= i < s.len(),
        s[i].size > 0,
        s[i].address + s[i].size <= u64::MAX,
    ensures
        func_result(s, s[i].address) == Some(s[i]),
        func_result(s, (s[i].address + s[i].size - 1) as u64) == Some(s[i]),
        func_result(s, (s[i].address + s[i].size) as u64) != Some(s[i]),
{
    lemma_function_at_in_range(s, i, s[i].address);
    lemma_function_at_in_range(s, i, (s[i].address + s[i].size - 1) as u64);
    let e = (s[i].address + s[i].size) as u64;
    lemma_func_floor(s, e);
    let f = func_floor(s, e);
    if f >= 0 && spec_func_contains(s[f], e) {
        // The result is the floor entry; it cannot be entry i, whose
        // range ends at e.
        if f == i {
            assert(false);
        } else {
            assert(s[f].address != s[i].address);
        }
    }
}

/// The line lookup is a monotonic floor: any address from one recorded
/// line up to (not including) the next recorded line answers with the
/// earlier entry, and any address below the first recorded line answers
/// with nothing.
pub proof fn lemma_line_at_floor(s: Seq<LineInfo>, i: int, x: u64)
    requires
        sorted_strict_lines(s),
        0 <= i < s.len(),
        s[i].address <= x,
        i + 1 < s.len() ==> x < s[i + 1].address,
    ensures
        line_floor(s, x) == i,
{
    lemma_line_floor_is(s, x, i);
}

/// Below the first recorded line there is no line information.
pub proof fn lemma_line_at_below_first(s: Seq<LineInfo>, x: u64)
    requires
        sorted_strict_lines(s),
        s.len() > 0 ==> x < s[0].address,
    ensures
        line_floor(s, x) == -1,
{
    lemma_line_floor(s, x);
    let f = line_floor(s, x);
    if f >= 0 {
        assert(s[f].address >= s[0].address);
        assert(false);
    }
}

/// Some line entry of `s` has address `a`.
pub open spec fn has_addr_l(s: Seq<LineInfo>, a: u64) -> bool
    decreases s.len(),
{
    s.len() > 0 && (s.last().address == a || has_addr_l(s.drop_last(), a))
}

/// The last line entry of `s` with address `a`.
pub open spec fn last_with_addr_l(s: Seq<LineInfo>, a: u64) -> LineInfo
    decreases s.len(),
{
    if s.len() == 0 {
        arbitrary()
    } else if s.last().address == a {
        s.last()
    } else {
        last_with_addr_l(s.drop_last(), a)
    }
}

/// Some function entry of `s` has address `a`.
pub open spec fn has_addr_f(s: Seq<FuncInfo>, a: u64) -> bool
    decreases s.len(),
{
    s.len() > 0 && (s.last().address == a || has_addr_f(s.drop_last(), a))
}

/// The last function entry of `s` with address `a`.
pub open spec fn last_with_addr_f(s: Seq<FuncInfo>, a: u64) -> FuncInfo
    decreases s.len(),
{
    if s.len() == 0 {
        arbitrary()
    } else if s.last().address == a {
        s.last()
    } else {
        last_with_addr_f(s.drop_last(), a)
    }
}

pub proof fn lemma_has_addr_l_exists(s: Seq<LineInfo>, a: u64)
    ensures
        has_addr_l(s, a) == exists|i: int| 0 <= i < s.len() && s[i].address == a,
    decreases s.len(),
{
    if s.len() > 0 {
        lemma_has_addr_l_exists(s.drop_last(), a);
        if s.last().address == a {
            assert(s[s.len() - 1].address == a);
        }
        if exists|i: int| 0 <= i < s.len() && s[i].address == a {
            let i = choose|i: int| 0 <= i < s.len() && s[i].address == a;
            if i < s.len() - 1 {
                assert(s.drop_last()[i].address == a);
            }
        }
    }
}

pub proof fn lemma_has_addr_f_exists(s: Seq<FuncInfo>, a: u64)
    ensures
        has_addr_f(s, a) == exists|i: int| 0 <= i < s.len() && s[i].address == a,
    decreases s.len(),
{
    if s.len() > 0 {
        lemma_has_addr_f_exists(s.drop_last(), a);
        if s.last().address == a {
            assert(s[s.len() - 1].address == a);
        }
        if exists|i: int| 0 <= i < s.len() && s[i].address == a {
            let i = choose|i: int| 0 <= i < s.len() && s[i].address == a;
            if i < s.len() - 1 {
                assert(s.drop_last()[i].address == a);
            }
        }
    }
}

/// The last entry with a given address is itself an entry of `s`.
pub proof fn lemma_last_with_f_in(s: Seq<FuncInfo>, a: u64)
    requires
        has_addr_f(s, a),
    ensures
        exists|i: int|
            0 <= i < s.len() && s[i] == last_with_addr_f(s, a) && s[i].address == a,
    decreases s.len(),
{
    if s.last().address == a {
        assert(s[s.len() - 1] == last_with_addr_f(s, a));
    } else {
        lemma_last_with_f_in(s.drop_last(), a);
        let i = choose|i: int|
            0 <= i < s.drop_last().len() && s.drop_last()[i] == last_with_addr_f(
                s.drop_last(),
                a,
            ) && s.drop_last()[i].address == a;
        assert(s[i] == last_with_addr_f(s, a));
    }
}

/// `out` is the sorted, address-deduplicated image of `input`: strictly
/// sorted, made exactly of the last `input` entry for each address that
/// occurs in `input`.
pub open spec fn dedup_rel_l(input: Seq<LineInfo>, out: Seq<LineInfo>) -> bool {
    &&& sorted_strict_lines(out)
    &&& forall|j: int|
        0 <= j < out.len() ==> has_addr_l(input, (#[trigger] out[j]).address) && out[j]
            == last_with_addr_l(input, out[j].address)
    &&& forall|i: int| 0 <= i < input.len() ==> has_addr_l(out, (#[trigger] input[i]).address)
}

/// `out` is the sorted, address-deduplicated image of `input`.
pub open spec fn dedup_rel_f(input: Seq<FuncInfo>, out: Seq<FuncInfo>) -> bool {
    &&& sorted_strict_funcs(out)
    &&& forall|j: int|
        0 <= j < out.len() ==> has_addr_f(input, (#[trigger] out[j]).address) && out[j]
            == last_with_addr_f(input, out[j].address)
    &&& forall|i: int| 0 <= i < input.len() ==> has_addr_f(out, (#[trigger] input[i]).address)
}

proof fn lemma_cons_l(x: LineInfo, rest: Seq<LineInfo>, a: u64)
    ensures
        has_addr_l(seq![x] + rest, a) == (x.address == a || has_addr_l(rest, a)),
        has_addr_l(rest, a) ==> last_with_addr_l(seq![x] + rest, a) == last_with_addr_l(rest, a),
        !has_addr_l(rest, a) && x.address == a ==> last_with_addr_l(seq![x] + rest, a) == x,
    decreases rest.len(),
{
    let s = seq![x] + rest;
    if rest.len() == 0 {
        assert(s.len() == 1);
        assert(s.last() == x);
        assert(s.drop_last() =~= Seq::<LineInfo>::empty());
        assert(!has_addr_l(s.drop_last(), a));
        assert(!has_addr_l(rest, a));
        assert(has_addr_l(s, a) == (x.address == a));
        if x.address == a {
            assert(last_with_addr_l(s, a) == x);
        }
    } else {
        lemma_cons_l(x, rest.drop_last(), a);
        assert(s.last() == rest.last());
        assert(s.drop_last() =~= seq![x] + rest.drop_last());
        assert(has_addr_l(s, a) == (s.last().address == a || has_addr_l(
            seq![x] + rest.drop_last(),
            a,
        )));
        assert(has_addr_l(rest, a) == (rest.last().address == a || has_addr_l(
            rest.drop_last(),
            a,
        )));
        if has_addr_l(rest, a) {
            if rest.last().address == a {
                assert(last_with_addr_l(s, a) == s.last());
                assert(last_with_addr_l(rest, a) == rest.last());
            } else {
                assert(last_with_addr_l(s, a) == last_with_addr_l(s.drop_last(), a));
                assert(last_with_addr_l(rest, a) == last_with_addr_l(rest.drop_last(), a));
            }
        }
        if !has_addr_l(rest, a) && x.address == a {
            assert(last_with_addr_l(s, a) == last_with_addr_l(seq![x] + rest.drop_last(), a));
        }
    }
}

proof fn lemma_cons_f(x: FuncInfo, rest: Seq<FuncInfo>, a: u64)
    ensures
        has_addr_f(seq![x] + rest, a) == (x.address == a || has_addr_f(rest, a)),
        has_addr_f(rest, a) ==> last_with_addr_f(seq![x] + rest, a) == last_with_addr_f(rest, a),
        !has_addr_f(rest, a) && x.address == a ==> last_with_addr_f(seq![x] + rest, a) == x,
    decreases rest.len(),
{
    let s = seq![x] + rest;
    if rest.len() == 0 {
        assert(s.len() == 1);
        assert(s.last() == x);
        assert(s.drop_last() =~= Seq::<FuncInfo>::empty());
        assert(!has_addr_f(s.drop_last(), a));
        assert(!has_addr_f(rest, a));
        assert(has_addr_f(s, a) == (x.address == a));
        if x.address == a {
            assert(last_with_addr_f(s, a) == x);
        }
    } else {
        lemma_cons_f(x, rest.drop_last(), a);
        assert(s.last() == rest.last());
        assert(s.drop_last() =~= seq![x] + rest.drop_last());
        assert(has_addr_f(s, a) == (s.last().address == a || has_addr_f(
            seq![x] + rest.drop_last(),
            a,
        )));
        assert(has_addr_f(rest, a) == (rest.last().address == a || has_addr_f(
            rest.drop_last(),
            a,
        )));
        if has_addr_f(rest, a) {
            if rest.last().address == a {
                assert(last_with_addr_f(s, a) == s.last());
                assert(last_with_addr_f(rest, a) == rest.last());
            } else {
                assert(last_with_addr_f(s, a) == last_with_addr_f(s.drop_last(), a));
                assert(last_with_addr_f(rest, a) == last_with_addr_f(rest.drop_last(), a));
            }
        }
        if !has_addr_f(rest, a) && x.address == a {
            assert(last_with_addr_f(s, a) == last_with_addr_f(seq![x] + rest.drop_last(), a));
        }
    }
}

/// Sorts line entries by address and keeps, for each address, the entry
/// that came last in the input order.
pub fn sort_dedup_lines(input: Vec<LineInfo>) -> (out: Vec<LineInfo>)
    ensures
        dedup_rel_l(input@, out@),
{
    let ghost orig = input@;
    let mut v = input;
    let mut out: Vec<LineInfo> = Vec::new();
    proof {
        assert(orig.take(v@.len() as int) =~= v@);
        assert(orig.skip(v@.len() as int) =~= Seq::<LineInfo>::empty());
    }
    while v.len() > 0
        invariant
            v@.len() <= orig.len(),
            v@ == orig.take(v@.len() as int),
            dedup_rel_l(orig.skip(v@.len() as int), out@),
        decreases v@.len(),
    {
        let ghost k = v@.len() as int;
        let ghost rest = orig.skip(k);
        let ghost out0 = out@;
        let x = v.pop().unwrap();
        proof {
            assert(v@ =~= orig.take(k - 1));
            assert(x == orig[k - 1]);
            assert(orig.skip(k - 1) =~= seq![x] + rest);
        }
        let ghost cur = orig.skip(k - 1);
        let mut pos: usize = 0;
        while pos < out.len() && out[pos].address < x.address
            invariant
                pos <= out@.len(),
                out@ == out0,
                sorted_strict_lines(out@),
                forall|j: int| 0 <= j < pos ==> out@[j].address < x.address,
            decreases out@.len() - pos,
        {
            pos = pos + 1;
        }
        proof {
            assert forall|j: int| pos <= j < out@.len() implies out@[j].address >= x.address by {
                if j > pos {
                    assert(out@[pos as int].address < out@[j].address);
                }
            }
        }
        if pos < out.len() && out[pos].address == x.address {
            proof {
                assert forall|j: int|
                    0 <= j < out@.len() implies has_addr_l(cur, (#[trigger] out@[j]).address)
                        && out@[j] == last_with_addr_l(cur, out@[j].address) by {
                    lemma_cons_l(x, rest, out@[j].address);
                }
                assert forall|i: int| 0 <= i < cur.len() implies has_addr_l(
                    out@,
                    (#[trigger] cur[i]).address,
                ) by {
                    if i == 0 {
                        assert(cur[0] == x);
                        lemma_has_addr_l_exists(out@, x.address);
                        assert(out@[pos as int].address == x.address);
                    } else {
                        assert(cur[i] == rest[i - 1]);
                    }
                }
                assert(dedup_rel_l(cur, out@));
            }
        } else {
            proof {
                // x's address is new to out, hence new to rest.
                assert forall|j: int| 0 <= j < out@.len() implies out@[j].address != x.address by {
                    if j < pos {
                    } else if j == pos {
                    } else {
                        assert(out@[pos as int].address < out@[j].address);
                    }
                }
                if has_addr_l(rest, x.address) {
                    lemma_has_addr_l_exists(rest, x.address);
                    let i = choose|i: int| 0 <= i < rest.len() && rest[i].address == x.address;
                    assert(has_addr_l(out@, rest[i].address));
                    lemma_has_addr_l_exists(out@, x.address);
                    assert(false);
                }
            }
            let ghost pold = out@;
            out.insert(pos, x);
            proof {
                pold.insert_ensures(pos as int, x);
                assert(out@ == pold.insert(pos as int, x));
                assert forall|i: int, j: int|
                    0 <= i < j < out@.len() implies out@[i].address < out@[j].address by {
                    if j < pos {
                    } else if i < pos && j == pos {
                        assert(out@[i] == pold[i]);
                    } else if i < pos && j > pos {
                        assert(out@[j] == pold[j - 1]);
                        assert(pold[j - 1].address >= x.address);
                        assert(pold[j - 1].address != x.address);
                    } else if i == pos && j > pos {
                        assert(out@[j] == pold[j - 1]);
                        assert(pold[j - 1].address != x.address);
                    } else {
                        assert(out@[i] == pold[i - 1]);
                        assert(out@[j] == pold[j - 1]);
                    }
                }
                assert forall|j: int|
                    0 <= j < out@.len() implies has_addr_l(cur, (#[trigger] out@[j]).address)
                        && out@[j] == last_with_addr_l(cur, out@[j].address) by {
                    lemma_cons_l(x, rest, out@[j].address);
                    if j < pos {
                        assert(out@[j] == pold[j]);
                    } else if j == pos {
                        assert(out@[j] == x);
                    } else {
                        assert(out@[j] == pold[j - 1]);
                    }
                }
                assert forall|i: int| 0 <= i < cur.len() implies has_addr_l(
                    out@,
                    (#[trigger] cur[i]).address,
                ) by {
                    lemma_has_addr_l_exists(out@, cur[i].address);
                    if i == 0 {
                        assert(cur[0] == x);
                        assert(out@[pos as int] == x);
                    } else {
                        assert(cur[i] == rest[i - 1]);
                        assert(has_addr_l(pold, rest[i - 1].address));
                        lemma_has_addr_l_exists(pold, rest[i - 1].address);
                        let w = choose|w: int|
                            0 <= w < pold.len() && pold[w].address == rest[i - 1].address;
                        if w < pos {
                            assert(out@[w].address == cur[i].address);
                        } else {
                            assert(out@[w + 1] == pold[w]);
                        }
                    }
                }
                assert(dedup_rel_l(cur, out@));
            }
        }
    }
    proof {
        assert(orig.skip(0) =~= orig);
    }
    out
}

/// Sorts function entries by address and keeps, for each address, the
/// entry that came last in the input order.
pub fn sort_dedup_funcs(input: Vec<FuncInfo>) -> (out: Vec<FuncInfo>)
    ensures
        dedup_rel_f(input@, out@),
{
    let ghost orig = input@;
    let mut v = input;
    let mut out: Vec<FuncInfo> = Vec::new();
    proof {
        assert(orig.take(v@.len() as int) =~= v@);
        assert(orig.skip(v@.len() as int) =~= Seq::<FuncInfo>::empty());
    }
    while v.len() > 0
        invariant
            v@.len() <= orig.len(),
            v@ == orig.take(v@.len() as int),
            dedup_rel_f(orig.skip(v@.len() as int), out@),
        decreases v@.len(),
    {
        let ghost k = v@.len() as int;
        let ghost rest = orig.skip(k);
        let ghost out0 = out@;
        let x = v.pop().unwrap();
        proof {
            assert(v@ =~= orig.take(k - 1));
            assert(x == orig[k - 1]);
            assert(orig.skip(k - 1) =~= seq![x] + rest);
        }
        let ghost cur = orig.skip(k - 1);
        let mut pos: usize = 0;
        while pos < out.len() && out[pos].address < x.address
            invariant
                pos <= out@.len(),
                out@ == out0,
                sorted_strict_funcs(out@),
                forall|j: int| 0 <= j < pos ==> out@[j].address < x.address,
            decreases out@.len() - pos,
        {
            pos = pos + 1;
        }
        proof {
            assert forall|j: int| pos <= j < out@.len() implies out@[j].address >= x.address by {
                if j > pos {
                    assert(out@[pos as int].address < out@[j].address);
                }
            }
        }
        if pos < out.len() && out[pos].address == x.address {
            proof {
                assert forall|j: int|
                    0 <= j < out@.len() implies has_addr_f(cur, (#[trigger] out@[j]).address)
                        && out@[j] == last_with_addr_f(cur, out@[j].address) by {
                    lemma_cons_f(x, rest, out@[j].address);
                }
                assert forall|i: int| 0 <= i < cur.len() implies has_addr_f(
                    out@,
                    (#[trigger] cur[i]).address,
                ) by {
                    if i == 0 {
                        assert(cur[0] == x);
                        lemma_has_addr_f_exists(out@, x.address);
                        assert(out@[pos as int].address == x.address);
                    } else {
                        assert(cur[i] == rest[i - 1]);
                    }
                }
                assert(dedup_rel_f(cur, out@));
            }
        } else {
            proof {
                assert forall|j: int| 0 <= j < out@.len() implies out@[j].address != x.address by {
                    if j < pos {
                    } else if j == pos {
                    } else {
                        assert(out@[pos as int].address < out@[j].address);
                    }
                }
                if has_addr_f(rest, x.address) {
                    lemma_has_addr_f_exists(rest, x.address);
                    let i = choose|i: int| 0 <= i < rest.len() && rest[i].address == x.address;
                    assert(has_addr_f(out@, rest[i].address));
                    lemma_has_addr_f_exists(out@, x.address);
                    assert(false);
                }
            }
            let ghost pold = out@;
            out.insert(pos, x);
            proof {
                pold.insert_ensures(pos as int, x);
                assert(out@ == pold.insert(pos as int, x));
                assert forall|i: int, j: int|
                    0 <= i < j < out@.len() implies out@[i].address < out@[j].address by {
                    if j < pos {
                    } else if i < pos && j == pos {
                        assert(out@[i] == pold[i]);
                    } else if i < pos && j > pos {
                        assert(out@[j] == pold[j - 1]);
                        assert(pold[j - 1].address >= x.address);
                        assert(pold[j - 1].address != x.address);
                    } else if i == pos && j > pos {
                        assert(out@[j] == pold[j - 1]);
                        assert(pold[j - 1].address != x.address);
                    } else {
                        assert(out@[i] == pold[i - 1]);
                        assert(out@[j] == pold[j - 1]);
                    }
                }
                assert forall|j: int|
                    0 <= j < out@.len() implies has_addr_f(cur, (#[trigger] out@[j]).address)
                        && out@[j] == last_with_addr_f(cur, out@[j].address) by {
                    lemma_cons_f(x, rest, out@[j].address);
                    if j < pos {
                        assert(out@[j] == pold[j]);
                    } else if j == pos {
                        assert(out@[j] == x);
                    } else {
                        assert(out@[j] == pold[j - 1]);
                    }
                }
                assert forall|i: int| 0 <= i < cur.len() implies has_addr_f(
                    out@,
                    (#[trigger] cur[i]).address,
                ) by {
                    lemma_has_addr_f_exists(out@, cur[i].address);
                    if i == 0 {
                        assert(cur[0] == x);
                        assert(out@[pos as int] == x);
                    } else {
                        assert(cur[i] == rest[i - 1]);
                        assert(has_addr_f(pold, rest[i - 1].address));
                        lemma_has_addr_f_exists(pold, rest[i - 1].address);
                        let w = choose|w: int|
                            0 <= w < pold.len() && pold[w].address == rest[i - 1].address;
                        if w < pos {
                            assert(out@[w].address == cur[i].address);
                        } else {
                            assert(out@[w + 1] == pold[w]);
                        }
                    }
                }
                assert(dedup_rel_f(cur, out@));
            }
        }
    }
    proof {
        assert(orig.skip(0) =~= orig);
    }
    out
}

/// A stored line entry is the image of a reported one: address shifted
/// by `offset`, line number truncated to 32 bits, and a path handle
/// that resolves, in interner table `itn`, to the reported path.
pub open spec fn line_built(itn: Seq<Seq<char>>, li: LineInfo, rl: RawLineV, offset: i64) -> bool {
    &&& li.address == shift(rl.address, offset)
    &&& li.line == spec_line_u32(rl.line)
    &&& li.path.0 < itn.len()
    &&& itn[li.path.0 as int] == rl.path
}

/// Some reported line, shifted by `offset`, lands on address `a`.
pub open spec fn has_raw_line(raw: Seq<RawLineV>, offset: i64, a: u64) -> bool
    decreases raw.len(),
{
    raw.len() > 0 && (shift(raw.last().address, offset) == a || has_raw_line(
        raw.drop_last(),
        offset,
        a,
    ))
}

/// The last reported line that, shifted by `offset`, lands on `a`.
pub open spec fn last_raw_line(raw: Seq<RawLineV>, offset: i64, a: u64) -> RawLineV
    decreases raw.len(),
{
    if raw.len() == 0 {
        arbitrary()
    } else if shift(raw.last().address, offset) == a {
        raw.last()
    } else {
        last_raw_line(raw.drop_last(), offset, a)
    }
}

/// The stored line table is exactly the reported lines, shifted,
/// sorted, and deduplicated by address with the last report winning.
pub open spec fn lines_built(
    itn: Seq<Seq<char>>,
    out: Seq<LineInfo>,
    raw: Seq<RawLineV>,
    offset: i64,
) -> bool {
    &&& sorted_strict_lines(out)
    &&& forall|j: int|
        0 <= j < out.len() ==> has_raw_line(raw, offset, (#[trigger] out[j]).address)
            && line_built(itn, out[j], last_raw_line(raw, offset, out[j].address), offset)
    &&& forall|i: int|
        0 <= i < raw.len() ==> has_addr_l(out, shift((#[trigger] raw[i]).address, offset))
}

/// A stored function is the image of a reported one, its line table
/// built from the reported lines.
pub open spec fn func_built(itn: Seq<Seq<char>>, f: FuncInfo, rf: RawFuncV, offset: i64) -> bool {
    &&& f.address == shift(rf.address, offset)
    &&& f.size == rf.size
    &&& f.mangled_name@ == rf.name
    &&& lines_built(itn, f.line_infos@, rf.lines, offset)
}

/// Some reported function, shifted by `offset`, lands on address `a`.
pub open spec fn has_raw_func(raw: Seq<RawFuncV>, offset: i64, a: u64) -> bool
    decreases raw.len(),
{
    raw.len() > 0 && (shift(raw.last().address, offset) == a || has_raw_func(
        raw.drop_last(),
        offset,
        a,
    ))
}

/// The last reported function that, shifted by `offset`, lands on `a`.
pub open spec fn last_raw_func(raw: Seq<RawFuncV>, offset: i64, a: u64) -> RawFuncV
    decreases raw.len(),
{
    if raw.len() == 0 {
        arbitrary()
    } else if shift(raw.last().address, offset) == a {
        raw.last()
    } else {
        last_raw_func(raw.drop_last(), offset, a)
    }
}

/// A function table and its interner are exactly the reported
/// functions, shifted, sorted, and deduplicated by address with the
/// last report winning.
pub open spec fn table_built(
    itn: Seq<Seq<char>>,
    funcs: Seq<FuncInfo>,
    raw: Seq<RawFuncV>,
    offset: i64,
) -> bool {
    &&& sorted_strict_funcs(funcs)
    &&& forall|j: int|
        0 <= j < funcs.len() ==> has_raw_func(raw, offset, (#[trigger] funcs[j]).address)
            && func_built(itn, funcs[j], last_raw_func(raw, offset, funcs[j].address), offset)
    &&& forall|i: int|
        0 <= i < raw.len() ==> has_addr_f(funcs, shift((#[trigger] raw[i]).address, offset))
}

/// Line facts survive growing the interner: handles keep resolving to
/// the same strings.
pub proof fn lemma_lines_built_mono(
    itn1: Seq<Seq<char>>,
    itn2: Seq<Seq<char>>,
    out: Seq<LineInfo>,
    raw: Seq<RawLineV>,
    offset: i64,
)
    requires
        itn1.is_prefix_of(itn2),
        lines_built(itn1, out, raw, offset),
    ensures
        lines_built(itn2, out, raw, offset),
{
    assert forall|j: int|
        0 <= j < out.len() implies has_raw_line(raw, offset, (#[trigger] out[j]).address)
            && line_built(itn2, out[j], last_raw_line(raw, offset, out[j].address), offset) by {
        assert(line_built(itn1, out[j], last_raw_line(raw, offset, out[j].address), offset));
        assert(itn2[out[j].path.0 as int] == itn1[out[j].path.0 as int]);
    }
}

/// Function facts survive growing the interner.
pub proof fn lemma_func_built_mono(
    itn1: Seq<Seq<char>>,
    itn2: Seq<Seq<char>>,
    f: FuncInfo,
    rf: RawFuncV,
    offset: i64,
)
    requires
        itn1.is_prefix_of(itn2),
        func_built(itn1, f, rf, offset),
    ensures
        func_built(itn2, f, rf, offset),
{
    lemma_lines_built_mono(itn1, itn2, f.line_infos@, rf.lines, offset);
}

proof fn lemma_raw_corr_l(
    itn: Seq<Seq<char>>,
    pre: Seq<LineInfo>,
    raw: Seq<RawLineV>,
    offset: i64,
    a: u64,
)
    requires
        pre.len() == raw.len(),
        forall|i: int| 0 <= i < pre.len() ==> line_built(itn, #[trigger] pre[i], raw[i], offset),
    ensures
        has_addr_l(pre, a) == has_raw_line(raw, offset, a),
        has_addr_l(pre, a) ==> line_built(
            itn,
            last_with_addr_l(pre, a),
            last_raw_line(raw, offset, a),
            offset,
        ),
    decreases pre.len(),
{
    if pre.len() > 0 {
        assert forall|i: int| 0 <= i < pre.drop_last().len() implies line_built(
            itn,
            #[trigger] pre.drop_last()[i],
            raw.drop_last()[i],
            offset,
        ) by {
            assert(pre.drop_last()[i] == pre[i]);
            assert(raw.drop_last()[i] == raw[i]);
        }
        lemma_raw_corr_l(itn, pre.drop_last(), raw.drop_last(), offset, a);
        assert(line_built(itn, pre[pre.len() - 1], raw[raw.len() - 1], offset));
        assert(pre.last().address == shift(raw.last().address, offset));
    }
}

proof fn lemma_raw_corr_f(
    itn: Seq<Seq<char>>,
    pre: Seq<FuncInfo>,
    raw: Seq<RawFuncV>,
    offset: i64,
    a: u64,
)
    requires
        pre.len() == raw.len(),
        forall|i: int| 0 <= i < pre.len() ==> func_built(itn, #[trigger] pre[i], raw[i], offset),
    ensures
        has_addr_f(pre, a) == has_raw_func(raw, offset, a),
        has_addr_f(pre, a) ==> func_built(
            itn,
            last_with_addr_f(pre, a),
            last_raw_func(raw, offset, a),
            offset,
        ),
    decreases pre.len(),
{
    if pre.len() > 0 {
        assert forall|i: int| 0 <= i < pre.drop_last().len() implies func_built(
            itn,
            #[trigger] pre.drop_last()[i],
            raw.drop_last()[i],
            offset,
        ) by {
            assert(pre.drop_last()[i] == pre[i]);
            assert(raw.drop_last()[i] == raw[i]);
        }
        lemma_raw_corr_f(itn, pre.drop_last(), raw.drop_last(), offset, a);
        assert(func_built(itn, pre[pre.len() - 1], raw[raw.len() - 1], offset));
        assert(pre.last().address == shift(raw.last().address, offset));
    }
}

/// Interns each reported line's path and shifts its address, keeping
/// the input order.
pub fn intern_lines(interner: &mut Interner, lines: Vec<RawLine>, offset: i64) -> (r: Vec<
    LineInfo,
>)
    requires
        old(interner).wf(),
    ensures
        final(interner).wf(),
        old(interner)@.is_prefix_of(final(interner)@),
        r@.len() == lines.deep_view().len(),
        forall|i: int|
            0 <= i < r@.len() ==> line_built(final(interner)@, #[trigger] r@[i], lines.deep_view()[i], offset),
{
    let ghost orig = lines.deep_view();
    let mut v = lines;
    let mut r: Vec<LineInfo> = Vec::new();
    proof {
        assert(v.deep_view() =~= orig.skip(0));
    }
    while v.len() > 0
        invariant
            interner.wf(),
            old(interner)@.is_prefix_of(interner@),
            r@.len() + v@.len() == orig.len(),
            v.deep_view() == orig.skip(r@.len() as int),
            forall|i: int|
                0 <= i < r@.len() ==> line_built(interner@, #[trigger] r@[i], orig[i], offset),
        decreases v@.len(),
    {
        let ghost n0 = r@.len() as int;
        let ghost itn0 = interner@;
        let ghost vpre = v@;
        let ghost dvpre = v.deep_view();
        let x = v.remove(0);
        proof {
            vpre.remove_ensures(0);
            assert(x == vpre[0]);
            assert(dvpre[0] == vpre[0].deep_view());
            assert(x@ == orig[n0]);
            assert forall|i: int| 0 <= i < v.deep_view().len() implies v.deep_view()[i]
                == orig.skip(n0 + 1)[i] by {
                assert(v@[i] == vpre[i + 1]);
                assert(dvpre[i + 1] == vpre[i + 1].deep_view());
                assert(orig.skip(n0)[i + 1] == orig[n0 + 1 + i]);
            }
            assert(v.deep_view() =~= orig.skip(n0 + 1));
        }
        let h = interner.intern(x.path);
        let li = LineInfo {
            address: x.address.wrapping_add_signed(offset),
            line: (x.line % 0x1_0000_0000u64) as u32,
            path: h,
        };
        r.push(li);
        proof {
            assert forall|i: int| 0 <= i < r@.len() implies line_built(
                interner@,
                #[trigger] r@[i],
                orig[i],
                offset,
            ) by {
                if i < n0 {
                    assert(line_built(itn0, r@[i], orig[i], offset));
                    assert(interner@[r@[i].path.0 as int] == itn0[r@[i].path.0 as int]);
                } else {
                    assert(r@[i] == li);
                    assert(interner@[h.0 as int] == orig[n0].path);
                }
            }
        }
    }
    r
}

impl FuncInfo {
    /// Builds one function's table entry from a reported function,
    /// shifting every address by `offset` and interning the line paths.
    pub fn new(interner: &mut Interner, function: RawFunc, offset: i64) -> (r: FuncInfo)
        requires
            old(interner).wf(),
        ensures
            final(interner).wf(),
            old(interner)@.is_prefix_of(final(interner)@),
            func_built(final(interner)@, r, function@, offset),
            r.wf(final(interner)@),
    {
        let address = function.address.wrapping_add_signed(offset);
        let size = function.size;
        let mangled_name = function.name;
        let pre = intern_lines(interner, function.lines, offset);
        let lis = sort_dedup_lines(pre);
        proof {
            assert forall|j: int|
                0 <= j < lis@.len() implies has_raw_line(
                function@.lines,
                offset,
                (#[trigger] lis@[j]).address,
            ) && line_built(
                interner@,
                lis@[j],
                last_raw_line(function@.lines, offset, lis@[j].address),
                offset,
            ) by {
                lemma_raw_corr_l(interner@, pre@, function@.lines, offset, lis@[j].address);
            }
            assert forall|i: int| 0 <= i < function@.lines.len() implies has_addr_l(
                lis@,
                shift((#[trigger] function@.lines[i]).address, offset),
            ) by {
                assert(line_built(interner@, pre@[i], function@.lines[i], offset));
                assert(pre@[i].address == shift(function@.lines[i].address, offset));
            }
        }
        FuncInfo { address, size, mangled_name, line_infos: lis }
    }
}

impl FileInfo {
    /// Builds a file's table from the functions one debug source
    /// reports, with no address shift: interned, sorted, deduplicated.
    pub fn new(functions: Vec<RawFunc>) -> (r: FileInfo)
        ensures
            r.wf(),
            table_built(r.interner@, r.func_infos@, functions.deep_view(), 0),
    {
        let ghost orig = functions.deep_view();
        let mut interner = Interner::new();
        let mut pre: Vec<FuncInfo> = Vec::new();
        let mut v = functions;
        proof {
            assert(v.deep_view() =~= orig.skip(0));
        }
        while v.len() > 0
            invariant
                interner.wf(),
                pre@.len() + v@.len() == orig.len(),
                v.deep_view() == orig.skip(pre@.len() as int),
                forall|i: int|
                    0 <= i < pre@.len() ==> func_built(interner@, #[trigger] pre@[i], orig[i], 0),
            decreases v@.len(),
        {
            let ghost n0 = pre@.len() as int;
            let ghost itn0 = interner@;
            let ghost vpre = v@;
            let ghost dvpre = v.deep_view();
            let x = v.remove(0);
            proof {
                vpre.remove_ensures(0);
                assert(x == vpre[0]);
                assert(dvpre[0] == vpre[0].deep_view());
                assert(x@ == orig[n0]);
                assert forall|i: int| 0 <= i < v.deep_view().len() implies v.deep_view()[i]
                    == orig.skip(n0 + 1)[i] by {
                    assert(v@[i] == vpre[i + 1]);
                    assert(dvpre[i + 1] == vpre[i + 1].deep_view());
                    assert(orig.skip(n0)[i + 1] == orig[n0 + 1 + i]);
                }
                assert(v.deep_view() =~= orig.skip(n0 + 1));
            }
            let fi = FuncInfo::new(&mut interner, x, 0);
            pre.push(fi);
            proof {
                assert forall|i: int| 0 <= i < pre@.len() implies func_built(
                    interner@,
                    #[trigger] pre@[i],
                    orig[i],
                    0,
                ) by {
                    if i < n0 {
                        lemma_func_built_mono(itn0, interner@, pre@[i], orig[i], 0);
                    }
                }
            }
        }
        let out = sort_dedup_funcs(pre);
        proof {
            assert forall|j: int|
                0 <= j < out@.len() implies has_raw_func(orig, 0, (#[trigger] out@[j]).address)
                    && func_built(interner@, out@[j], last_raw_func(orig, 0, out@[j].address), 0)
                    && out@[j].wf(interner@) by {
                lemma_raw_corr_f(interner@, pre@, orig, 0, out@[j].address);
            }
            assert forall|i: int| 0 <= i < orig.len() implies has_addr_f(
                out@,
                shift((#[trigger] orig[i]).address, 0),
            ) by {
                assert(func_built(interner@, pre@[i], orig[i], 0));
                assert(pre@[i].address == shift(orig[i].address, 0));
            }
        }
        FileInfo { interner, func_infos: out }
    }

    /// Finishes a table built up across several debug sources: sorts
    /// and deduplicates the accumulated functions, the last insertion
    /// winning on a duplicated address.
    pub fn finish(interner: Interner, func_infos: Vec<FuncInfo>) -> (r: FileInfo)
        requires
            interner.wf(),
            forall|i: int|
                0 <= i < func_infos@.len() ==> (#[trigger] func_infos@[i]).wf(interner@),
    ensures
            r.wf(),
            r.interner == interner,
            dedup_rel_f(func_infos@, r.func_infos@),
    {
        let out = sort_dedup_funcs(func_infos);
        proof {
            assert forall|j: int| 0 <= j < out@.len() implies (#[trigger] out@[j]).wf(
                interner@,
            ) by {
                lemma_last_with_f_in(func_infos@, out@[j].address);
            }
        }
        FileInfo { interner, func_infos: out }
    }

    /// The empty table: the sentinel cached for a file that could not
    /// be loaded.
    pub fn empty() -> (r: FileInfo)
        ensures
            r.wf(),
            r.func_infos@.len() == 0,
    {
        FileInfo { interner: Interner::new(), func_infos: Vec::new() }
    }
}

pub proof fn lemma_has_raw_line_exists(raw: Seq<RawLineV>, offset: i64, a: u64)
    ensures
        has_raw_line(raw, offset, a) == exists|i: int|
            0 <= i < raw.len() && shift(raw[i].address, offset) == a,
    decreases raw.len(),
{
    if raw.len() > 0 {
        lemma_has_raw_line_exists(raw.drop_last(), offset, a);
        if shift(raw.last().address, offset) == a {
            assert(shift(raw[raw.len() - 1].address, offset) == a);
        }
        if exists|i: int| 0 <= i < raw.len() && shift(raw[i].address, offset) == a {
            let i = choose|i: int| 0 <= i < raw.len() && shift(raw[i].address, offset) == a;
            if i < raw.len() - 1 {
                assert(shift(raw.drop_last()[i].address, offset) == a);
            }
        }
    }
}

pub proof fn lemma_has_raw_func_exists(raw: Seq<RawFuncV>, offset: i64, a: u64)
    ensures
        has_raw_func(raw, offset, a) == exists|i: int|
            0 <= i < raw.len() && shift(raw[i].address, offset) == a,
    decreases raw.len(),
{
    if raw.len() > 0 {
        lemma_has_raw_func_exists(raw.drop_last(), offset, a);
        if shift(raw.last().address, offset) == a {
            assert(shift(raw[raw.len() - 1].address, offset) == a);
        }
        if exists|i: int| 0 <= i < raw.len() && shift(raw[i].address, offset) == a {
            let i = choose|i: int| 0 <= i < raw.len() && shift(raw[i].address, offset) == a;
            if i < raw.len() - 1 {
                assert(shift(raw.drop_last()[i].address, offset) == a);
            }
        }
    }
}

proof fn lemma_drop_last_has_l(s: Seq<LineInfo>, a: u64)
    requires
        sorted_strict_lines(s),
        s.len() > 0,
    ensures
        has_addr_l(s.drop_last(), a) == (has_addr_l(s, a) && a != s.last().address),
{
    lemma_has_addr_l_exists(s, a);
    lemma_has_addr_l_exists(s.drop_last(), a);
    if has_addr_l(s.drop_last(), a) {
        let i = choose|i: int| 0 <= i < s.drop_last().len() && s.drop_last()[i].address == a;
        assert(s[i].address == a);
        assert(s[i].address < s[s.len() - 1].address);
    }
    if has_addr_l(s, a) && a != s.last().address {
        let i = choose|i: int| 0 <= i < s.len() && s[i].address == a;
        assert(i < s.len() - 1);
        assert(s.drop_last()[i].address == a);
    }
}

proof fn lemma_drop_last_has_f(s: Seq<FuncInfo>, a: u64)
    requires
        sorted_strict_funcs(s),
        s.len() > 0,
    ensures
        has_addr_f(s.drop_last(), a) == (has_addr_f(s, a) && a != s.last().address),
{
    lemma_has_addr_f_exists(s, a);
    lemma_has_addr_f_exists(s.drop_last(), a);
    if has_addr_f(s.drop_last(), a) {
        let i = choose|i: int| 0 <= i < s.drop_last().len() && s.drop_last()[i].address == a;
        assert(s[i].address == a);
        assert(s[i].address < s[s.len() - 1].address);
    }
    if has_addr_f(s, a) && a != s.last().address {
        let i = choose|i: int| 0 <= i < s.len() && s[i].address == a;
        assert(i < s.len() - 1);
        assert(s.drop_last()[i].address == a);
    }
}

/// Two strictly sorted line tables over the same set of addresses agree
/// position by position on their addresses.
proof fn lemma_sorted_same_addrs_l(s1: Seq<LineInfo>, s2: Seq<LineInfo>)
    requires
        sorted_strict_lines(s1),
        sorted_strict_lines(s2),
        forall|a: u64| has_addr_l(s1, a) == has_addr_l(s2, a),
    ensures
        s1.len() == s2.len(),
        forall|i: int| 0 <= i < s1.len() ==> s1[i].address == s2[i].address,
    decreases s1.len() + s2.len(),
{
    if s1.len() == 0 {
        if s2.len() > 0 {
            assert(has_addr_l(s2, s2.last().address));
            assert(!has_addr_l(s1, s2.last().address));
        }
    } else if s2.len() == 0 {
        assert(has_addr_l(s1, s1.last().address));
        assert(!has_addr_l(s2, s1.last().address));
    } else {
        let a1 = s1.last().address;
        let a2 = s2.last().address;
        assert(has_addr_l(s1, a1) && has_addr_l(s2, a2));
        assert(has_addr_l(s2, a1) && has_addr_l(s1, a2));
        lemma_has_addr_l_exists(s2, a1);
        let j = choose|j: int| 0 <= j < s2.len() && s2[j].address == a1;
        if j < s2.len() - 1 {
            assert(s2[j].address < s2[s2.len() - 1].address);
        }
        lemma_has_addr_l_exists(s1, a2);
        let k = choose|k: int| 0 <= k < s1.len() && s1[k].address == a2;
        if k < s1.len() - 1 {
            assert(s1[k].address < s1[s1.len() - 1].address);
        }
        assert(a1 == a2);
        assert(sorted_strict_lines(s1.drop_last()));
        assert(sorted_strict_lines(s2.drop_last()));
        assert forall|a: u64| has_addr_l(s1.drop_last(), a) == has_addr_l(
            s2.drop_last(),
            a,
        ) by {
            lemma_drop_last_has_l(s1, a);
            lemma_drop_last_has_l(s2, a);
        }
        lemma_sorted_same_addrs_l(s1.drop_last(), s2.drop_last());
        assert forall|i: int| 0 <= i < s1.len() implies s1[i].address == s2[i].address by {
            if i < s1.len() - 1 {
                assert(s1.drop_last()[i].address == s2.drop_last()[i].address);
            }
        }
    }
}

/// Two strictly sorted function tables over the same set of addresses
/// agree position by position on their addresses.
proof fn lemma_sorted_same_addrs_f(s1: Seq<FuncInfo>, s2: Seq<FuncInfo>)
    requires
        sorted_strict_funcs(s1),
        sorted_strict_funcs(s2),
        forall|a: u64| has_addr_f(s1, a) == has_addr_f(s2, a),
    ensures
        s1.len() == s2.len(),
        forall|i: int| 0 <= i < s1.len() ==> s1[i].address == s2[i].address,
    decreases s1.len() + s2.len(),
{
    if s1.len() == 0 {
        if s2.len() > 0 {
            assert(has_addr_f(s2, s2.last().address));
            assert(!has_addr_f(s1, s2.last().address));
        }
    } else if s2.len() == 0 {
        assert(has_addr_f(s1, s1.last().address));
        assert(!has_addr_f(s2, s1.last().address));
    } else {
        let a1 = s1.last().address;
        let a2 = s2.last().address;
        assert(has_addr_f(s1, a1) && has_addr_f(s2, a2));
        assert(has_addr_f(s2, a1) && has_addr_f(s1, a2));
        lemma_has_addr_f_exists(s2, a1);
        let j = choose|j: int| 0 <= j < s2.len() && s2[j].address == a1;
        if j < s2.len() - 1 {
            assert(s2[j].address < s2[s2.len() - 1].address);
        }
        lemma_has_addr_f_exists(s1, a2);
        let k = choose|k: int| 0 <= k < s1.len() && s1[k].address == a2;
        if k < s1.len() - 1 {
            assert(s1[k].address < s1[s1.len() - 1].address);
        }
        assert(a1 == a2);
        assert(sorted_strict_funcs(s1.drop_last()));
        assert(sorted_strict_funcs(s2.drop_last()));
        assert forall|a: u64| has_addr_f(s1.drop_last(), a) == has_addr_f(
            s2.drop_last(),
            a,
        ) by {
            lemma_drop_last_has_f(s1, a);
            lemma_drop_last_has_f(s2, a);
        }
        lemma_sorted_same_addrs_f(s1.drop_last(), s2.drop_last());
        assert forall|i: int| 0 <= i < s1.len() implies s1[i].address == s2[i].address by {
            if i < s1.len() - 1 {
                assert(s1.drop_last()[i].address == s2.drop_last()[i].address);
            }
        }
    }
}

/// Two line entries carry the same information, their paths read
/// through their own interners.
pub open spec fn line_view_eq(
    itn1: Seq<Seq<char>>,
    a: LineInfo,
    itn2: Seq<Seq<char>>,
    b: LineInfo,
) -> bool {
    &&& a.address == b.address
    &&& a.line == b.line
    &&& a.path.0 < itn1.len()
    &&& b.path.0 < itn2.len()
    &&& itn1[a.path.0 as int] == itn2[b.path.0 as int]
}

/// Two function entries carry the same information, line by line.
pub open spec fn func_view_eq(
    itn1: Seq<Seq<char>>,
    a: FuncInfo,
    itn2: Seq<Seq<char>>,
    b: FuncInfo,
) -> bool {
    &&& a.address == b.address
    &&& a.size == b.size
    &&& a.mangled_name@ == b.mangled_name@
    &&& a.line_infos@.len() == b.line_infos@.len()
    &&& forall|j: int|
        0 <= j < a.line_infos@.len() ==> line_view_eq(
            itn1,
            #[trigger] a.line_infos@[j],
            itn2,
            b.line_infos@[j],
        )
}

/// Two line tables built from the same reported lines carry the same
/// information entry by entry.
proof fn lemma_lines_built_unique(
    itn1: Seq<Seq<char>>,
    l1: Seq<LineInfo>,
    itn2: Seq<Seq<char>>,
    l2: Seq<LineInfo>,
    raw: Seq<RawLineV>,
    offset: i64,
)
    requires
        lines_built(itn1, l1, raw, offset),
        lines_built(itn2, l2, raw, offset),
    ensures
        l1.len() == l2.len(),
        forall|j: int| 0 <= j < l1.len() ==> line_view_eq(itn1, #[trigger] l1[j], itn2, l2[j]),
{
    assert forall|a: u64| has_addr_l(l1, a) == has_addr_l(l2, a) by {
        lemma_has_addr_l_exists(l1, a);
        lemma_has_addr_l_exists(l2, a);
        lemma_has_raw_line_exists(raw, offset, a);
        if has_addr_l(l1, a) {
            let j = choose|j: int| 0 <= j < l1.len() && l1[j].address == a;
            assert(has_raw_line(raw, offset, l1[j].address));
            let i = choose|i: int| 0 <= i < raw.len() && shift(raw[i].address, offset) == a;
            assert(has_addr_l(l2, shift(raw[i].address, offset)));
        }
        if has_addr_l(l2, a) {
            let j = choose|j: int| 0 <= j < l2.len() && l2[j].address == a;
            assert(has_raw_line(raw, offset, l2[j].address));
            let i = choose|i: int| 0 <= i < raw.len() && shift(raw[i].address, offset) == a;
            assert(has_addr_l(l1, shift(raw[i].address, offset)));
        }
    }
    lemma_sorted_same_addrs_l(l1, l2);
    assert forall|j: int| 0 <= j < l1.len() implies line_view_eq(
        itn1,
        #[trigger] l1[j],
        itn2,
        l2[j],
    ) by {
        assert(line_built(itn1, l1[j], last_raw_line(raw, offset, l1[j].address), offset));
        assert(line_built(itn2, l2[j], last_raw_line(raw, offset, l2[j].address), offset));
    }
}

/// Two tables built from the same reported functions carry the same
/// information entry by entry, whatever their interners number the
/// paths.
pub proof fn lemma_table_built_unique(
    itn1: Seq<Seq<char>>,
    f1: Seq<FuncInfo>,
    itn2: Seq<Seq<char>>,
    f2: Seq<FuncInfo>,
    raw: Seq<RawFuncV>,
    offset: i64,
)
    requires
        table_built(itn1, f1, raw, offset),
        table_built(itn2, f2, raw, offset),
    ensures
        f1.len() == f2.len(),
        forall|i: int| 0 <= i < f1.len() ==> func_view_eq(itn1, #[trigger] f1[i], itn2, f2[i]),
{
    assert forall|a: u64| has_addr_f(f1, a) == has_addr_f(f2, a) by {
        lemma_has_addr_f_exists(f1, a);
        lemma_has_addr_f_exists(f2, a);
        lemma_has_raw_func_exists(raw, offset, a);
        if has_addr_f(f1, a) {
            let j = choose|j: int| 0 <= j < f1.len() && f1[j].address == a;
            assert(has_raw_func(raw, offset, f1[j].address));
            let i = choose|i: int| 0 <= i < raw.len() && shift(raw[i].address, offset) == a;
            assert(has_addr_f(f2, shift(raw[i].address, offset)));
        }
        if has_addr_f(f2, a) {
            let j = choose|j: int| 0 <= j < f2.len() && f2[j].address == a;
            assert(has_raw_func(raw, offset, f2[j].address));
            let i = choose|i: int| 0 <= i < raw.len() && shift(raw[i].address, offset) == a;
            assert(has_addr_f(f1, shift(raw[i].address, offset)));
        }
    }
    lemma_sorted_same_addrs_f(f1, f2);
    assert forall|i: int| 0 <= i < f1.len() implies func_view_eq(
        itn1,
        #[trigger] f1[i],
        itn2,
        f2[i],
    ) by {
        assert(func_built(itn1, f1[i], last_raw_func(raw, offset, f1[i].address), offset));
        assert(func_built(itn2, f2[i], last_raw_func(raw, offset, f2[i].address), offset));
        lemma_lines_built_unique(
            itn1,
            f1[i].line_infos@,
            itn2,
            f2[i].line_infos@,
            last_raw_func(raw, offset, f1[i].address).lines,
            offset,
        );
    }
}

/// The offset by which a reported function's addresses are shifted so
/// that its start lands on the address the symbol table recorded: the
/// wrap-around difference between the two.
pub open spec fn offset_for(sym_addr: u64, debug_addr: u64) -> i64 {
    vstd::wrapping::u64_specs::wrapping_sub(sym_addr, debug_addr) as i64
}

/// `added` is exactly what one debug source contributes under symbol
/// index `m`: for each reported function whose
/// `<source file>:<name>` key the index knows, one table entry shifted
/// onto the recorded address, in report order; a reported function
/// without a symbol-table entry is dropped.
pub open spec fn rel_added(
    m: Map<Seq<char>, u64>,
    file: Seq<char>,
    itn: Seq<Seq<char>>,
    raw: Seq<RawFuncV>,
    added: Seq<FuncInfo>,
) -> bool
    decreases raw.len(),
{
    if raw.len() == 0 {
        added.len() == 0
    } else {
        let rf = raw.last();
        let key = key_seq(file, rf.name);
        if m.contains_key(key) {
            &&& added.len() > 0
            &&& func_built(itn, added.last(), rf, offset_for(m[key], rf.address))
            &&& rel_added(m, file, itn, raw.drop_last(), added.drop_last())
        } else {
            rel_added(m, file, itn, raw.drop_last(), added)
        }
    }
}

/// What one source contributes survives growing the interner.
pub proof fn lemma_rel_added_mono(
    m: Map<Seq<char>, u64>,
    file: Seq<char>,
    itn1: Seq<Seq<char>>,
    itn2: Seq<Seq<char>>,
    raw: Seq<RawFuncV>,
    added: Seq<FuncInfo>,
)
    requires
        itn1.is_prefix_of(itn2),
        rel_added(m, file, itn1, raw, added),
    ensures
        rel_added(m, file, itn2, raw, added),
    decreases raw.len(),
{
    if raw.len() > 0 {
        let rf = raw.last();
        let key = key_seq(file, rf.name);
        if m.contains_key(key) {
            lemma_func_built_mono(itn1, itn2, added.last(), rf, offset_for(m[key], rf.address));
            lemma_rel_added_mono(m, file, itn1, itn2, raw.drop_last(), added.drop_last());
        } else {
            lemma_rel_added_mono(m, file, itn1, itn2, raw.drop_last(), added);
        }
    }
}

/// A reported function with no matching symbol-table entry contributes
/// nothing, and blocks nothing: every contributed entry comes from some
/// matched report, and when no report matches, nothing is contributed.
pub proof fn lemma_unmatched_dropped(
    m: Map<Seq<char>, u64>,
    file: Seq<char>,
    itn: Seq<Seq<char>>,
    raw: Seq<RawFuncV>,
    added: Seq<FuncInfo>,
)
    requires
        rel_added(m, file, itn, raw, added),
    ensures
        added.len() <= raw.len(),
        forall|j: int|
            0 <= j < added.len() ==> exists|i: int|
                0 <= i < raw.len() && m.contains_key(key_seq(file, raw[i].name)) && func_built(
                    itn,
                    #[trigger] added[j],
                    raw[i],
                    offset_for(m[key_seq(file, raw[i].name)], raw[i].address),
                ),
        (forall|i: int|
            0 <= i < raw.len() ==> !m.contains_key(key_seq(file, (#[trigger] raw[i]).name)))
            ==> added.len() == 0,
    decreases raw.len(),
{
    if raw.len() > 0 {
        let rf = raw.last();
        let key = key_seq(file, rf.name);
        if m.contains_key(key) {
            lemma_unmatched_dropped(m, file, itn, raw.drop_last(), added.drop_last());
            assert forall|j: int| 0 <= j < added.len() implies exists|i: int|
                0 <= i < raw.len() && m.contains_key(key_seq(file, raw[i].name)) && func_built(
                    itn,
                    #[trigger] added[j],
                    raw[i],
                    offset_for(m[key_seq(file, raw[i].name)], raw[i].address),
                ) by {
                if j == added.len() - 1 {
                    assert(added[j] == added.last());
                    assert(raw[raw.len() - 1] == rf);
                } else {
                    assert(added.drop_last()[j] == added[j]);
                    let i = choose|i: int|
                        0 <= i < raw.drop_last().len() && m.contains_key(
                            key_seq(file, raw.drop_last()[i].name),
                        ) && func_built(
                            itn,
                            added.drop_last()[j],
                            raw.drop_last()[i],
                            offset_for(
                                m[key_seq(file, raw.drop_last()[i].name)],
                                raw.drop_last()[i].address,
                            ),
                        );
                    assert(raw.drop_last()[i] == raw[i]);
                }
            }
        } else {
            lemma_unmatched_dropped(m, file, itn, raw.drop_last(), added);
            assert forall|j: int| 0 <= j < added.len() implies exists|i: int|
                0 <= i < raw.len() && m.contains_key(key_seq(file, raw[i].name)) && func_built(
                    itn,
                    #[trigger] added[j],
                    raw[i],
                    offset_for(m[key_seq(file, raw[i].name)], raw[i].address),
                ) by {
                let i = choose|i: int|
                    0 <= i < raw.drop_last().len() && m.contains_key(
                        key_seq(file, raw.drop_last()[i].name),
                    ) && func_built(
                        itn,
                        added[j],
                        raw.drop_last()[i],
                        offset_for(
                            m[key_seq(file, raw.drop_last()[i].name)],
                            raw.drop_last()[i].address,
                        ),
                    );
                assert(raw.drop_last()[i] == raw[i]);
            }
        }
    }
}

impl FileInfo {
    /// Adds to `interner` and `func_infos` the debug info that one
    /// source named `file_name` reports, but only for functions present
    /// in `sym_func_addrs`, each rebased onto its symbol-table address;
    /// the rest are dropped.
    pub fn add(
        sym_func_addrs: &SymMap,
        file_name: &str,
        functions: Vec<RawFunc>,
        interner: &mut Interner,
        func_infos: &mut Vec<FuncInfo>,
    )
        requires
            old(interner).wf(),
            forall|i: int|
                0 <= i < old(func_infos)@.len() ==> (#[trigger] old(func_infos)@[i]).wf(
                    old(interner)@,
                ),
        ensures
            final(interner).wf(),
            old(interner)@.is_prefix_of(final(interner)@),
            old(func_infos)@.is_prefix_of(final(func_infos)@),
            forall|i: int|
                0 <= i < final(func_infos)@.len() ==> (#[trigger] final(func_infos)@[i]).wf(
                    final(interner)@,
                ),
            rel_added(
                sym_func_addrs@,
                file_name@,
                final(interner)@,
                functions.deep_view(),
                final(func_infos)@.skip(old(func_infos)@.len() as int),
            ),
    {
        let ghost orig = functions.deep_view();
        let ghost m = sym_func_addrs@;
        let ghost base = old(func_infos)@.len() as int;
        let mut v = functions;
        let mut k: usize = 0;
        let total: usize = v.len();
        proof {
            assert(v.deep_view() =~= orig.skip(0));
            assert(func_infos@.skip(base) =~= Seq::<FuncInfo>::empty());
            assert(orig.take(0) =~= Seq::<RawFuncV>::empty());
            assert(orig.len() == total as int);
        }
        while v.len() > 0
            invariant
                m == sym_func_addrs@,
                interner.wf(),
                old(interner)@.is_prefix_of(interner@),
                old(func_infos)@.is_prefix_of(func_infos@),
                base == old(func_infos)@.len() as int,
                base <= func_infos@.len(),
                forall|i: int|
                    0 <= i < func_infos@.len() ==> (#[trigger] func_infos@[i]).wf(interner@),
                orig.len() == total as int,
                k + v@.len() == orig.len(),
                v.deep_view() == orig.skip(k as int),
                rel_added(m, file_name@, interner@, orig.take(k as int), func_infos@.skip(base)),
            decreases v@.len(),
        {
            let ghost itn0 = interner@;
            let ghost added0 = func_infos@.skip(base);
            let ghost vpre = v@;
            let ghost dvpre = v.deep_view();
            let x = v.remove(0);
            proof {
                vpre.remove_ensures(0);
                assert(x == vpre[0]);
                assert(dvpre[0] == vpre[0].deep_view());
                assert(x@ == orig[k as int]);
                assert forall|i: int| 0 <= i < v.deep_view().len() implies v.deep_view()[i]
                    == orig.skip(k + 1)[i] by {
                    assert(v@[i] == vpre[i + 1]);
                    assert(dvpre[i + 1] == vpre[i + 1].deep_view());
                    assert(orig.skip(k as int)[i + 1] == orig[k + 1 + i]);
                }
                assert(v.deep_view() =~= orig.skip(k + 1));
                assert(orig.take(k + 1).drop_last() =~= orig.take(k as int));
                assert(orig.take(k + 1).last() == orig[k as int]);
            }
            let key = sym_func_key(file_name, x.name.as_str());
            match sym_func_addrs.get(key.as_str()) {
                Some(sym_addr) => {
                    let offset = #[verifier::truncate] (sym_addr.wrapping_sub(x.address) as i64);
                    proof {
                        assert(offset == offset_for(m[key_seq(file_name@, x@.name)], x@.address));
                    }
                    let fi = FuncInfo::new(interner, x, offset);
                    func_infos.push(fi);
                    proof {
                        assert(func_infos@.skip(base) =~= added0.push(fi));
                        lemma_rel_added_mono(
                            m,
                            file_name@,
                            itn0,
                            interner@,
                            orig.take(k as int),
                            added0,
                        );
                        assert(func_infos@.skip(base).drop_last() =~= added0);
                        assert forall|i: int| 0 <= i < func_infos@.len() implies (
                        #[trigger] func_infos@[i]).wf(interner@) by {
                            if i < func_infos@.len() - 1 {
                                assert(func_infos@[i].wf(itn0));
                            }
                        }
                    }
                },
                None => {
                    proof {
                        assert(rel_added(
                            m,
                            file_name@,
                            interner@,
                            orig.take(k + 1),
                            func_infos@.skip(base),
                        ));
                    }
                },
            }
            k = k + 1;
        }
        proof {
            assert(orig.take(orig.len() as int) =~= orig);
        }
    }
}

impl Default for FileInfo {
    /// The empty table.
    fn default() -> (r: FileInfo)
        ensures
            r.wf(),
            r.func_infos@.len() == 0,
    {
        FileInfo::empty()
    }
}

} // verus!
