//! A set of hashes that keeps its members in the order in which they came.

use vstd::prelude::*;
use crate::primitives::H256;

verus! {

/// Whether no hash occurs twice.
pub open spec fn distinct(s: Seq<H256>) -> bool {
    forall|i: int, j: int| 0 <= i < j < s.len() ==> s[i] != s[j]
}

/// A set of hashes; none occurs twice.
#[derive(Clone, Debug)]
pub struct HashList {
    pub items: Vec<H256>,
}

/// The place of a hash in a sequence, if it is there.
pub fn find_hash(items: &Vec<H256>, hash: &H256) -> (r: Option<usize>)
    ensures
        r is Some <==> items@.contains(*hash),
        r matches Some(i) ==> i < items@.len() && items@[i as int] == *hash,
{
    let mut i: usize = 0;
    while i < items.len()
        invariant
            i <= items@.len(),
            forall|k: int| 0 <= k < i ==> items@[k] != *hash,
        decreases items@.len() - i,
    {
        if items[i] == *hash {
            return Some(i);
        }
        i += 1;
    }
    None
}

impl HashList {
    pub open spec fn wf(&self) -> bool {
        distinct(self.items@)
    }

    pub open spec fn has(&self, hash: H256) -> bool {
        self.items@.contains(hash)
    }

    pub fn new() -> (r: Self)
        ensures
            r.items@.len() == 0,
            r.wf(),
    {
        HashList { items: Vec::new() }
    }

    pub fn len(&self) -> (r: usize)
        ensures
            r == self.items@.len(),
    {
        self.items.len()
    }

    pub fn is_empty(&self) -> (r: bool)
        ensures
            r == (self.items@.len() == 0),
    {
        self.items.len() == 0
    }

    pub fn contains(&self, hash: &H256) -> (r: bool)
        ensures
            r == self.has(*hash),
    {
        find_hash(&self.items, hash).is_some()
    }

    /// Adds a hash; says whether it was new.
    pub fn insert(&mut self, hash: H256) -> (r: bool)
        requires
            old(self).wf(),
        ensures
            r == !old(self).has(hash),
            final(self).wf(),
            r ==> final(self).items@ == old(self).items@.push(hash),
            !r ==> final(self).items@ == old(self).items@,
            forall|h: H256| final(self).has(h) == (old(self).has(h) || h == hash),
    {
        if self.contains(&hash) {
            false
        } else {
            self.items.push(hash);
            proof {
                let a = old(self).items@;
                let b = self.items@;
                assert(b[a.len() as int] == hash);
                assert forall|h: H256| b.contains(h) == (a.contains(h) || h == hash) by {
                    if a.contains(h) {
                        let i = choose|i: int| 0 <= i < a.len() && a[i] == h;
                        assert(b[i] == h);
                    }
                    if b.contains(h) {
                        let i = choose|i: int| 0 <= i < b.len() && b[i] == h;
                        if i < a.len() {
                            assert(a[i] == h);
                        }
                    }
                }
            }
            true
        }
    }

    /// Drops a hash; says whether it was there.
    pub fn remove(&mut self, hash: &H256) -> (r: bool)
        requires
            old(self).wf(),
        ensures
            r == old(self).has(*hash),
            final(self).wf(),
            forall|h: H256| final(self).has(h) == (old(self).has(h) && h != *hash),
            final(self).items@.len() == old(self).items@.len() - if r { 1int } else { 0int },
    {
        match find_hash(&self.items, hash) {
            Some(i) => {
                let _ = self.items.remove(i);
                proof {
                    let a = old(self).items@;
                    let b = self.items@;
                    let at = i as int;
                    assert forall|k: int| 0 <= k < b.len() implies b[k] == a[if k < at {
                        k
                    } else {
                        k + 1
                    }] by {}
                    assert forall|h: H256| b.contains(h) == (a.contains(h) && h != *hash) by {
                        if a.contains(h) && h != *hash {
                            let p = choose|p: int| 0 <= p < a.len() && a[p] == h;
                            let q = if p < at { p } else { p - 1 };
                            assert(b[q] == h);
                        }
                        if b.contains(h) {
                            let p = choose|p: int| 0 <= p < b.len() && b[p] == h;
                            let p0 = if p < at { p } else { p + 1 };
                            assert(a[p0] == h);
                        }
                    }
                }
                true
            },
            None => false,
        }
    }

    pub fn clear(&mut self)
        ensures
            final(self).items@.len() == 0,
            final(self).wf(),
    {
        self.items.clear();
    }

    /// Whether no hash occurs twice.
    pub fn is_well_formed(&self) -> (r: bool)
        ensures
            r == self.wf(),
    {
        let mut j: usize = 0;
        while j < self.items.len()
            invariant
                j <= self.items@.len(),
                forall|x: int, y: int| 0 <= x < y < j ==> self.items@[x] != self.items@[y],
            decreases self.items@.len() - j,
        {
            let mut i: usize = 0;
            while i < j
                invariant
                    i <= j,
                    j < self.items@.len(),
                    forall|x: int| 0 <= x < i ==> self.items@[x] != self.items@[j as int],
                decreases j - i,
            {
                if self.items[i] == self.items[j] {
                    return false;
                }
                i += 1;
            }
            j += 1;
        }
        true
    }
}

} // verus!
