//! A string interner: an injective mapping from strings to small
//! integer handles, with its inverse table. Many source paths repeat,
//! so an address table stores handles instead of the strings. Each
//! string is stored twice — once as a hash key, once in the inverse
//! table — so interning is amortized constant time.

use vstd::hash_map::StringHashMap;
use vstd::prelude::*;

verus! {

/// An opaque handle into one [`Interner`]. Handles are meaningful only
/// for the interner that issued them.
#[derive(Clone, Copy)]
pub struct InternedString(pub usize);

/// The interner: a growable table of distinct strings and the mapping
/// back from each string to its position. A string's handle is its
/// index in the table.
pub struct Interner {
    map: StringHashMap<usize>,
    strings: Vec<String>,
}

impl View for Interner {
    type V = Seq<Seq<char>>;

    closed spec fn view(&self) -> Seq<Seq<char>> {
        self.strings.deep_view()
    }
}

/// The position of the first entry equal to `s`, or -1 when `s` is not
/// in the table.
pub open spec fn first_index_of(v: Seq<Seq<char>>, s: Seq<char>) -> int
    decreases v.len(),
{
    if v.len() == 0 {
        -1
    } else if v[0] == s {
        0
    } else {
        let rest = first_index_of(v.drop_first(), s);
        if rest == -1 {
            -1
        } else {
            rest + 1
        }
    }
}

/// What interning `s` into table `v` yields: the table afterwards and
/// the handle returned.
pub open spec fn spec_intern(v: Seq<Seq<char>>, s: Seq<char>) -> (Seq<Seq<char>>, int) {
    let i = first_index_of(v, s);
    if i >= 0 {
        (v, i)
    } else {
        (v.push(s), v.len() as int)
    }
}

pub broadcast proof fn lemma_first_index_of(v: Seq<Seq<char>>, s: Seq<char>)
    ensures
        -1 <= #[trigger] first_index_of(v, s) < v.len(),
        first_index_of(v, s) >= 0 ==> v[first_index_of(v, s)] == s,
        first_index_of(v, s) == -1 ==> forall|j: int| 0 <= j < v.len() ==> v[j] != s,
        forall|j: int| 0 <= j < first_index_of(v, s) ==> v[j] != s,
    decreases v.len(),
{
    if v.len() > 0 && v[0] != s {
        lemma_first_index_of(v.drop_first(), s);
        assert forall|j: int| 0 <= j < first_index_of(v, s) implies v[j] != s by {
            if j > 0 {
                assert(v[j] == v.drop_first()[j - 1]);
            }
        }
        if first_index_of(v, s) == -1 {
            assert forall|j: int| 0 <= j < v.len() implies v[j] != s by {
                if j > 0 {
                    assert(v[j] == v.drop_first()[j - 1]);
                }
            }
        }
    }
}

impl Interner {
    /// A well-formed interner holds each distinct string once, and its
    /// backward mapping inverts the table.
    pub closed spec fn wf(&self) -> bool {
        &&& forall|i: int, j: int| 0 <= i < j < self@.len() ==> self@[i] != self@[j]
        &&& forall|s: Seq<char>|
            #[trigger] self.map@.contains_key(s) ==> self.map@[s] < self@.len()
                && self@[self.map@[s] as int] == s
        &&& forall|i: int|
            0 <= i < self@.len() ==> self.map@.contains_key(#[trigger] self@[i]) && self.map@[
                self@[i]] as int == i
    }

    /// Creates an empty interner.
    pub fn new() -> (r: Interner)
        ensures
            r@ == Seq::<Seq<char>>::empty(),
            r.wf(),
    {
        let r = Interner { map: StringHashMap::new(), strings: Vec::new() };
        proof {
            assert(r@ =~= Seq::<Seq<char>>::empty());
        }
        r
    }

    /// Returns the handle of `string`, issuing a fresh one when the
    /// string has not been seen before.
    pub fn intern(&mut self, string: String) -> (r: InternedString)
        requires
            old(self).wf(),
        ensures
            final(self).wf(),
            (final(self)@, r.0 as int) == spec_intern(old(self)@, string@),
            r.0 < final(self)@.len(),
            final(self)@[r.0 as int] == string@,
            old(self)@.is_prefix_of(final(self)@),
    {
        let found = match self.map.get(string.as_str()) {
            Some(i) => Some(*i),
            None => None,
        };
        match found {
            Some(k) => {
                proof {
                    assert(self@[k as int] == string@);
                    assert forall|j: int| 0 <= j < k implies self@[j] != string@ by {
                        assert(self@[j] != self@[k as int]);
                    }
                    lemma_first_index_found(self@, string@, k as int);
                }
                InternedString(k)
            },
            None => {
                proof {
                    assert forall|j: int| 0 <= j < self@.len() implies self@[j] != string@ by {
                        assert(self.map@.contains_key(self@[j]));
                    }
                    lemma_first_index_of(self@, string@);
                    assert(first_index_of(self@, string@) == -1);
                }
                let n = self.strings.len();
                let ghost old_view = self@;
                let ghost old_map = self.map@;
                let copy = string.clone();
                self.strings.push(copy);
                self.map.insert(string, n);
                proof {
                    assert(self@ =~= old_view.push(string@));
                    assert forall|i: int, j: int|
                        0 <= i < j < self@.len() implies self@[i] != self@[j] by {
                        if j == old_view.len() {
                            assert(self@[i] == old_view[i]);
                        }
                    }
                    assert forall|s: Seq<char>|
                        #[trigger] self.map@.contains_key(s) implies self.map@[s] < self@.len()
                        && self@[self.map@[s] as int] == s by {
                        if s != string@ {
                            assert(old_map.contains_key(s));
                            assert(self@[old_map[s] as int] == old_view[old_map[s] as int]);
                        }
                    }
                    assert forall|i: int| 0 <= i < self@.len() implies self.map@.contains_key(
                        #[trigger] self@[i],
                    ) && self.map@[self@[i]] as int == i by {
                        if i < old_view.len() {
                            assert(self@[i] == old_view[i]);
                            assert(old_view[i] != string@);
                        }
                    }
                }
                InternedString(n)
            },
        }
    }

    /// Resolves a handle this interner issued; never fails for such
    /// handles.
    pub fn get(&self, interned_string: InternedString) -> (r: &str)
        requires
            interned_string.0 < self@.len(),
        ensures
            r@ == self@[interned_string.0 as int],
    {
        self.strings[interned_string.0].as_str()
    }
}

proof fn lemma_first_index_found(v: Seq<Seq<char>>, s: Seq<char>, k: int)
    requires
        0 <= k < v.len(),
        v[k] == s,
        forall|j: int| 0 <= j < k ==> v[j] != s,
    ensures
        first_index_of(v, s) == k,
    decreases v.len(),
{
    if k > 0 {
        lemma_first_index_found(v.drop_first(), s, k - 1);
    }
}

/// Interning is idempotent: interning a string a second time changes
/// nothing and returns the same handle, and that handle resolves to the
/// original string.
pub proof fn lemma_intern_idempotent(v: Seq<Seq<char>>, s: Seq<char>)
    ensures
        ({
            let (v1, h1) = spec_intern(v, s);
            let (v2, h2) = spec_intern(v1, s);
            &&& v2 == v1
            &&& h2 == h1
            &&& 0 <= h1 < v1.len()
            &&& v1[h1] == s
        }),
{
    lemma_first_index_of(v, s);
    let (v1, h1) = spec_intern(v, s);
    if first_index_of(v, s) == -1 {
        lemma_first_index_found(v1, s, v.len() as int);
    } else {
        lemma_first_index_found(v1, s, first_index_of(v, s));
    }
    lemma_first_index_of(v1, s);
}

} // verus!
