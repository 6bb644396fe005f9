//! The index from an ordered pair of node handles to the list of parallel
//! edges between them.

use std::collections::HashMap;
use vstd::prelude::*;

verus! {

broadcast use vstd::std_specs::hash::group_hash_axioms;

/// The key under which a pair is stored: the first handle in the upper
/// half of the word, the second in the lower.
pub open spec fn pair_key(a: u32, b: u32) -> u64 {
    (a * 0x1_0000_0000 + b) as u64
}

/// Different pairs have different keys.
pub proof fn lemma_pair_key_injective(a: u32, b: u32, c: u32, d: u32)
    ensures
        pair_key(a, b) == pair_key(c, d) <==> (a == c && b == d),
{
}

/// Computes the key of a pair.
fn key_of(a: u32, b: u32) -> (k: u64)
    ensures
        k == pair_key(a, b),
{
    let hi: u64 = a as u64;
    let lo: u64 = b as u64;
    hi * 0x1_0000_0000 + lo
}

/// A map from ordered pairs of node handles to lists of edge handles.
pub struct PairIndex {
    map: HashMap<u64, Vec<u32>>,
}

impl View for PairIndex {
    type V = Map<(u32, u32), Seq<u32>>;

    closed spec fn view(&self) -> Map<(u32, u32), Seq<u32>> {
        Map::new(
            |p: (u32, u32)| self.map@.contains_key(pair_key(p.0, p.1)),
            |p: (u32, u32)| self.map@[pair_key(p.0, p.1)]@,
        )
    }
}

impl PairIndex {
    /// An index with no entry.
    pub fn new() -> (index: PairIndex)
        ensures
            index@ == (Map::<(u32, u32), Seq<u32>>::empty()),
    {
        let index = PairIndex { map: HashMap::new() };
        assert(index@ =~= Map::<(u32, u32), Seq<u32>>::empty());
        index
    }

    /// The list stored for the pair, if there is one.
    pub fn get(&self, a: u32, b: u32) -> (r: Option<&Vec<u32>>)
        ensures
            match r {
                Some(list) => self@.contains_key((a, b)) && list@ == self@[(a, b)],
                None => !self@.contains_key((a, b)),
            },
    {
        let k = key_of(a, b);
        self.map.get(&k)
    }

    /// Stores `list` for the pair, in place of what was there.
    pub fn put(&mut self, a: u32, b: u32, list: Vec<u32>)
        ensures
            final(self)@ == old(self)@.insert((a, b), list@),
    {
        let k = key_of(a, b);
        self.map.insert(k, list);
        proof {
            assert forall|p: (u32, u32)| p != (a, b) implies pair_key(p.0, p.1) != k by {
                lemma_pair_key_injective(p.0, p.1, a, b);
            }
            assert(self@ =~= old(self)@.insert((a, b), list@));
        }
    }

    /// Takes the list of the pair out of the index and hands it over.
    pub fn take(&mut self, a: u32, b: u32) -> (r: Option<Vec<u32>>)
        ensures
            final(self)@ == old(self)@.remove((a, b)),
            match r {
                Some(list) => old(self)@.contains_key((a, b)) && list@ == old(self)@[(a, b)],
                None => !old(self)@.contains_key((a, b)),
            },
    {
        let k = key_of(a, b);
        let r = self.map.remove(&k);
        proof {
            assert forall|p: (u32, u32)| p != (a, b) implies pair_key(p.0, p.1) != k by {
                lemma_pair_key_injective(p.0, p.1, a, b);
            }
            assert(self@ =~= old(self)@.remove((a, b)));
        }
        r
    }

    /// A copy that shares nothing with this index.
    pub fn duplicate(&self) -> (copy: PairIndex)
        ensures
            copy@ == self@,
    {
        let copy = PairIndex { map: self.map.clone() };
        assert(copy@ =~= self@);
        copy
    }
}

} // verus!
