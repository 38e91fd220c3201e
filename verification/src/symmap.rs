//! The symbol-address index built during reconstruction: a mapping from
//! `"<source>:<function>"` keys to resolved load addresses, with
//! last-write-wins insertion and constant-time amortized access.

use vstd::hash_map::StringHashMap;
use vstd::prelude::*;

verus! {

/// Records the addresses of functions found in a symbol table, keyed by
/// source file and bare function name.
pub struct SymMap {
    m: StringHashMap<u64>,
}

impl View for SymMap {
    type V = Map<Seq<char>, u64>;

    closed spec fn view(&self) -> Map<Seq<char>, u64> {
        self.m@
    }
}

impl SymMap {
    /// Creates an empty index.
    pub fn new() -> (r: SymMap)
        ensures
            r@ == Map::<Seq<char>, u64>::empty(),
    {
        SymMap { m: StringHashMap::new() }
    }

    /// Records `val` under `key`; a later insertion for the same key
    /// wins.
    pub fn insert(&mut self, key: String, val: u64)
        ensures
            final(self)@ == old(self)@.insert(key@, val),
    {
        self.m.insert(key, val);
    }

    /// Looks the address up for `key`.
    pub fn get(&self, key: &str) -> (r: Option<u64>)
        ensures
            r == if self@.contains_key(key@) {
                Some(self@[key@])
            } else {
                None::<u64>
            },
    {
        match self.m.get(key) {
            Some(v) => Some(*v),
            None => None,
        }
    }
}

} // verus!
