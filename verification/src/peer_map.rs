//! A small map keyed by peer id that keeps its entries in the order in which
//! they came.

use vstd::prelude::*;
use crate::primitives::PeerId;

verus! {

/// One entry of a `PeerMap`.
pub struct Entry<V> {
    pub id: PeerId,
    pub value: V,
}

/// A map from peer ids to values; no id occurs twice.
pub struct PeerMap<V> {
    pub entries: Vec<Entry<V>>,
}

/// Whether no id occurs twice among the entries.
pub open spec fn distinct_ids<V>(s: Seq<Entry<V>>) -> bool {
    forall|i: int, j: int| 0 <= i < j < s.len() ==> (#[trigger] s[i]).id != (#[trigger] s[j]).id
}

/// Whether some entry has the given id.
pub open spec fn has_id<V>(s: Seq<Entry<V>>, id: PeerId) -> bool {
    exists|i: int| 0 <= i < s.len() && (#[trigger] s[i]).id == id
}

/// An index at which the given id stands, where it stands anywhere.
pub open spec fn position<V>(s: Seq<Entry<V>>, id: PeerId) -> int {
    choose|i: int| 0 <= i < s.len() && (#[trigger] s[i]).id == id
}

/// Whether two sequences hold the same ids at the same places.
pub open spec fn same_ids<V>(a: Seq<Entry<V>>, b: Seq<Entry<V>>) -> bool {
    &&& a.len() == b.len()
    &&& forall|i: int| 0 <= i < a.len() ==> (#[trigger] a[i]).id == (#[trigger] b[i]).id
}

pub proof fn lemma_same_ids_has<V>(a: Seq<Entry<V>>, b: Seq<Entry<V>>, id: PeerId)
    requires
        same_ids(a, b),
    ensures
        has_id(a, id) == has_id(b, id),
{
    if has_id(a, id) {
        let i = position(a, id);
        assert(b[i].id == id);
    }
    if has_id(b, id) {
        let i = position(b, id);
        assert(a[i].id == id);
    }
}

pub proof fn lemma_same_ids_distinct<V>(a: Seq<Entry<V>>, b: Seq<Entry<V>>)
    requires
        same_ids(a, b),
        distinct_ids(a),
    ensures
        distinct_ids(b),
{
    assert forall|i: int, j: int| 0 <= i < j < b.len() implies (#[trigger] b[i]).id != (
    #[trigger] b[j]).id by {
        assert(a[i].id == b[i].id);
        assert(a[j].id == b[j].id);
    }
}

/// With distinct ids, the place of an id is the only one that holds it.
pub proof fn lemma_position_unique<V>(s: Seq<Entry<V>>, i: int)
    requires
        distinct_ids(s),
        0 <= i < s.len(),
    ensures
        has_id(s, s[i].id),
        position(s, s[i].id) == i,
{
    let id = s[i].id;
    assert(s[i].id == id);
    let p = position(s, id);
    if p != i {
        if p < i {
            assert(s[p].id != s[i].id);
        } else {
            assert(s[i].id != s[p].id);
        }
    }
}

impl<V> PeerMap<V> {
    pub open spec fn wf(&self) -> bool {
        distinct_ids(self.entries@)
    }

    pub open spec fn has(&self, id: PeerId) -> bool {
        has_id(self.entries@, id)
    }

    /// The value kept for an id.
    pub open spec fn value_of(&self, id: PeerId) -> V {
        self.entries@[position(self.entries@, id)].value
    }

    pub fn new() -> (r: Self)
        ensures
            r.entries@.len() == 0,
            r.wf(),
    {
        PeerMap { entries: Vec::new() }
    }

    pub fn len(&self) -> (r: usize)
        ensures
            r == self.entries@.len(),
    {
        self.entries.len()
    }

    pub fn is_empty(&self) -> (r: bool)
        ensures
            r == (self.entries@.len() == 0),
    {
        self.entries.len() == 0
    }

    /// The place of an id among the entries.
    pub fn index_of(&self, id: PeerId) -> (r: Option<usize>)
        ensures
            r is Some <==> self.has(id),
            r matches Some(i) ==> i < self.entries@.len() && self.entries@[i as int].id == id,
            self.wf() ==> (r matches Some(i) ==> i == position(self.entries@, id)),
    {
        let mut i: usize = 0;
        while i < self.entries.len()
            invariant
                i <= self.entries@.len(),
                forall|k: int| 0 <= k < i ==> (#[trigger] self.entries@[k]).id != id,
            decreases self.entries@.len() - i,
        {
            if self.entries[i].id == id {
                proof {
                    if self.wf() {
                        lemma_position_unique(self.entries@, i as int);
                    }
                }
                return Some(i);
            }
            i += 1;
        }
        None
    }

    pub fn contains_key(&self, id: PeerId) -> (r: bool)
        ensures
            r == self.has(id),
    {
        self.index_of(id).is_some()
    }

    pub fn get(&self, id: PeerId) -> (r: Option<&V>)
        requires
            self.wf(),
        ensures
            r is Some <==> self.has(id),
            r matches Some(v) ==> *v == self.value_of(id),
    {
        match self.index_of(id) {
            Some(i) => Some(&self.entries[i].value),
            None => None,
        }
    }

    /// Keeps `value` for `id`, in place of what was kept for it before, or
    /// as the last entry.
    pub fn insert(&mut self, id: PeerId, value: V)
        requires
            old(self).wf(),
        ensures
            final(self).wf(),
            final(self).has(id),
            final(self).value_of(id) == value,
            old(self).has(id) ==> final(self).entries@ == old(self).entries@.update(
                position(old(self).entries@, id),
                Entry { id, value },
            ),
            !old(self).has(id) ==> final(self).entries@ == old(self).entries@.push(
                Entry { id, value },
            ),
            forall|other: PeerId|
                other != id ==> final(self).has(other) == old(self).has(other) && (old(self).has(
                    other,
                ) ==> final(self).value_of(other) == old(self).value_of(other)),
    {
        let found = self.index_of(id);
        match found {
            Some(i) => {
                self.entries[i] = Entry { id, value };
            },
            None => {
                self.entries.push(Entry { id, value });
            },
        }
        proof {
            let a = old(self).entries@;
            let b = self.entries@;
            let at: int = match found {
                Some(i) => i as int,
                None => a.len() as int,
            };
            assert(b[at].id == id);
            assert forall|i: int, j: int| 0 <= i < j < b.len() implies (#[trigger] b[i]).id != (
            #[trigger] b[j]).id by {
                if i < a.len() && i != at {
                    assert(b[i] == a[i]);
                }
                if j < a.len() && j != at {
                    assert(b[j] == a[j]);
                }
                if i == at && j < a.len() {
                    assert(a[i].id == id);
                }
                if j == at && j < a.len() {
                    assert(a[j].id == id);
                }
            }
            lemma_position_unique(b, at);
            assert forall|other: PeerId| other != id implies has_id(b, other) == has_id(a, other)
                && (has_id(a, other) ==> b[position(b, other)].value == a[position(
                a,
                other,
            )].value) by {
                if has_id(a, other) {
                    let p = position(a, other);
                    assert(b[p] == a[p]);
                    assert(b[p].id == other);
                    lemma_position_unique(b, p);
                }
                if has_id(b, other) {
                    let p = position(b, other);
                    assert(p != at);
                    assert(a[p] == b[p]);
                    assert(a[p].id == other);
                }
            }
        }
    }

    /// Drops the entry of `id`, where there is one.
    pub fn remove(&mut self, id: PeerId) -> (r: bool)
        requires
            old(self).wf(),
        ensures
            r == old(self).has(id),
            final(self).wf(),
            !final(self).has(id),
            r ==> final(self).entries@ == old(self).entries@.remove(
                position(old(self).entries@, id),
            ),
            !r ==> final(self).entries@ == old(self).entries@,
            forall|other: PeerId|
                other != id ==> final(self).has(other) == old(self).has(other) && (old(self).has(
                    other,
                ) ==> final(self).value_of(other) == old(self).value_of(other)),
    {
        let found = self.index_of(id);
        match found {
            Some(i) => {
                let _ = self.entries.remove(i);
                proof {
                    let a = old(self).entries@;
                    let b = self.entries@;
                    let at = i as int;
                    assert forall|k: int| 0 <= k < b.len() implies (#[trigger] b[k]) == a[if k
                        < at {
                        k
                    } else {
                        k + 1
                    }] by {}
                    assert forall|x: int, y: int| 0 <= x < y < b.len() implies (#[trigger] b[x]).id
                        != (#[trigger] b[y]).id by {
                        let x0 = if x < at { x } else { x + 1 };
                        let y0 = if y < at { y } else { y + 1 };
                        assert(b[x] == a[x0]);
                        assert(b[y] == a[y0]);
                        assert(a[x0].id != a[y0].id);
                    }
                    if has_id(b, id) {
                        let p = position(b, id);
                        let p0 = if p < at { p } else { p + 1 };
                        assert(b[p] == a[p0]);
                        if p0 < at {
                            assert(a[p0].id != a[at].id);
                        } else {
                            assert(a[at].id != a[p0].id);
                        }
                    }
                    assert forall|other: PeerId| other != id implies has_id(b, other) == has_id(
                        a,
                        other,
                    ) && (has_id(a, other) ==> b[position(b, other)].value == a[position(
                        a,
                        other,
                    )].value) by {
                        if has_id(a, other) {
                            let p = position(a, other);
                            let q = if p < at { p } else { p - 1 };
                            assert(b[q] == a[p]);
                            assert(b[q].id == other);
                            lemma_position_unique(b, q);
                        }
                        if has_id(b, other) {
                            let p = position(b, other);
                            let p0 = if p < at { p } else { p + 1 };
                            assert(b[p] == a[p0]);
                            assert(a[p0].id == other);
                        }
                    }
                }
                true
            },
            None => false,
        }
    }

    pub fn clear(&mut self)
        ensures
            final(self).entries@.len() == 0,
            final(self).wf(),
    {
        self.entries.clear();
    }

    /// Whether no id occurs twice.
    pub fn is_well_formed(&self) -> (r: bool)
        ensures
            r == self.wf(),
    {
        let mut j: usize = 0;
        while j < self.entries.len()
            invariant
                j <= self.entries@.len(),
                forall|x: int, y: int|
                    0 <= x < y < j ==> (#[trigger] self.entries@[x]).id != (
                    #[trigger] self.entries@[y]).id,
            decreases self.entries@.len() - j,
        {
            let mut i: usize = 0;
            while i < j
                invariant
                    i <= j,
                    j < self.entries@.len(),
                    forall|x: int| 0 <= x < i ==> (#[trigger] self.entries@[x]).id
                        != self.entries@[j as int].id,
                decreases j - i,
            {
                if self.entries[i].id == self.entries[j].id {
                    return false;
                }
                i += 1;
            }
            j += 1;
        }
        true
    }
}

} // verus!
