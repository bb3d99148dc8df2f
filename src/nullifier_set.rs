use vstd::prelude::*;
use crate::root_history::same_element;

verus! {

/// The nullifiers already revealed. A nullifier enters once and never leaves.
pub struct NullifierSet {
    used: Vec<[u8; 32]>,
}

impl NullifierSet {
    /// Whether `nullifier` was marked spent.
    pub closed spec fn spent(&self, nullifier: Seq<u8>) -> bool {
        exists|i: int| 0 <= i < self.used@.len() && (#[trigger] self.used@[i])@ == nullifier
    }

    /// An empty set.
    pub fn new() -> (r: NullifierSet)
        ensures
            forall|n: Seq<u8>| !r.spent(n),
    {
        NullifierSet { used: Vec::new() }
    }

    /// Whether `nullifier` was marked spent.
    pub fn is_known(&self, nullifier: &[u8; 32]) -> (r: bool)
        ensures
            r == self.spent(nullifier@),
    {
        let mut i: usize = 0;
        while i < self.used.len()
            invariant
                i <= self.used@.len(),
                forall|j: int| 0 <= j < i ==> (#[trigger] self.used@[j])@ != nullifier@,
            decreases self.used@.len() - i,
        {
            if same_element(&self.used[i], nullifier) {
                return true;
            }
            i = i + 1;
        }
        false
    }

    /// Marks `nullifier` spent; marking it again changes nothing.
    pub fn mark_spent(&mut self, nullifier: [u8; 32])
        ensures
            forall|n: Seq<u8>| #[trigger] final(self).spent(n) == (old(self).spent(n) || n == nullifier@),
    {
        if !self.is_known(&nullifier) {
            let ghost before = self.used@;
            self.used.push(nullifier);
            assert forall|n: Seq<u8>| #[trigger] self.spent(n) == (old(self).spent(n) || n == nullifier@) by {
                if old(self).spent(n) {
                    let i = choose|i: int| 0 <= i < before.len() && (#[trigger] before[i])@ == n;
                    assert(self.used@[i] == before[i]);
                }
                if n == nullifier@ {
                    assert(self.used@[before.len() as int]@ == n);
                }
                if self.spent(n) && n != nullifier@ {
                    let i = choose|i: int| 0 <= i < self.used@.len() && (#[trigger] self.used@[i])@ == n;
                    assert(before[i] == self.used@[i]);
                }
            }
        }
    }
}

} // verus!
