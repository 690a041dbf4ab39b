//! Transposition cache: a memo of previously evaluated grid snapshots.
//!
//! A lookup hit is valid only for a bit-identical grid, so the table is an
//! exact map from key sequences to scores: storing under a key and querying
//! the same key returns the stored score, and a key differing in even one
//! cell never hits that entry.
//!
//! The key is the raw grid, optionally extended with the side to move (see
//! `CacheKeying`); it encodes neither the remaining depth nor, in its
//! grid-only form, whose turn it is. Keeping an entry beyond the position
//! it was computed for is therefore a documented risk of this design, left
//! to the caller's keying choice rather than silently patched.

use vstd::prelude::*;

use crate::board::Cell;

verus! {

/// An exact score memo keyed by cell sequences.
pub struct TranspositionTable {
    pub entries: Vec<(Vec<Cell>, i64)>,
}

impl View for TranspositionTable {
    type V = Map<Seq<Cell>, i64>;

    open spec fn view(&self) -> Map<Seq<Cell>, i64> {
        Map::new(
            |k: Seq<Cell>|
                exists|i: int|
                    0 <= i < self.entries@.len() && (#[trigger] self.entries@[i]).0@ == k,
            |k: Seq<Cell>|
                self.entries@[choose|i: int|
                    0 <= i < self.entries@.len() && (#[trigger] self.entries@[i]).0@ == k].1,
        )
    }
}

impl TranspositionTable {
    /// No two stored entries share a key.
    pub open spec fn wf(self) -> bool {
        forall|i: int, j: int|
            0 <= i < j < self.entries@.len() ==> (#[trigger] self.entries@[i]).0@ != (
            #[trigger] self.entries@[j]).0@
    }

    /// An empty table.
    pub fn new() -> (r: TranspositionTable)
        ensures
            r.wf(),
            r@ == Map::<Seq<Cell>, i64>::empty(),
    {
        let r = TranspositionTable { entries: Vec::new() };
        proof {
            assert(r@ =~= Map::<Seq<Cell>, i64>::empty());
        }
        r
    }

    /// The number of stored entries.
    pub fn len(&self) -> (n: usize)
        ensures
            n == self.entries@.len(),
    {
        self.entries.len()
    }

    /// The stored entry at an index names its key and value in the view.
    proof fn lemma_view_index(self, i: int)
        requires
            self.wf(),
            0 <= i < self.entries@.len(),
        ensures
            self@.contains_key(self.entries@[i].0@),
            self@[self.entries@[i].0@] == self.entries@[i].1,
    {
        let k = self.entries@[i].0@;
        assert(0 <= i < self.entries@.len() && self.entries@[i].0@ == k);
        let j = choose|j: int|
            0 <= j < self.entries@.len() && (#[trigger] self.entries@[j]).0@ == k;
        if j != i {
            if j < i {
                assert(self.entries@[j].0@ != self.entries@[i].0@);
            } else {
                assert(self.entries@[i].0@ != self.entries@[j].0@);
            }
        }
    }

    /// A key no entry carries is not in the view.
    proof fn lemma_view_absent(self, k: Seq<Cell>)
        requires
            forall|i: int|
                0 <= i < self.entries@.len() ==> (#[trigger] self.entries@[i]).0@ != k,
        ensures
            !self@.contains_key(k),
    {
    }

    /// The score stored for a key, or nothing: a hit comes only from the
    /// bit-identical key.
    pub fn lookup(&self, key: &Vec<Cell>) -> (r: Option<i64>)
        requires
            self.wf(),
        ensures
            r == if self@.contains_key(key@) {
                Some(self@[key@])
            } else {
                None::<i64>
            },
    {
        let mut i: usize = 0;
        while i < self.entries.len()
            invariant
                self.wf(),
                i <= self.entries@.len(),
                forall|j: int| 0 <= j < i as int ==> (#[trigger] self.entries@[j]).0@ != key@,
            decreases self.entries@.len() - i as int,
        {
            if cells_equal(&self.entries[i].0, key) {
                proof {
                    self.lemma_view_index(i as int);
                }
                return Some(self.entries[i].1);
            }
            i = i + 1;
        }
        proof {
            self.lemma_view_absent(key@);
        }
        None
    }

    /// Replacing the entry of an existing key is a map insert.
    proof fn lemma_insert_replace(o: TranspositionTable, n: TranspositionTable, i: int, key: Seq<Cell>, value: i64)
        requires
            o.wf(),
            0 <= i < o.entries@.len(),
            o.entries@[i].0@ == key,
            n.entries@.len() == o.entries@.len(),
            n.entries@[i].0@ == key,
            n.entries@[i].1 == value,
            forall|j: int| 0 <= j < o.entries@.len() && j != i ==> n.entries@[j] == o.entries@[j],
        ensures
            n.wf(),
            n@ == o@.insert(key, value),
    {
        let m2 = o@.insert(key, value);
        assert forall|a: int, b: int| 0 <= a < b < n.entries@.len() implies (
        #[trigger] n.entries@[a]).0@ != (#[trigger] n.entries@[b]).0@ by {
            assert(o.entries@[a].0@ != o.entries@[b].0@);
        }
        assert forall|k: Seq<Cell>| true implies #[trigger] n@.dom().contains(k) == m2.dom().contains(
            k,
        ) && (m2.dom().contains(k) ==> m2[k] == n@[k]) by {
            if k == key {
                n.lemma_view_index(i);
            } else {
                if exists|j: int|
                    0 <= j < o.entries@.len() && (#[trigger] o.entries@[j]).0@ == k {
                    let j = choose|j: int|
                        0 <= j < o.entries@.len() && (#[trigger] o.entries@[j]).0@ == k;
                    assert(j != i);
                    assert(n.entries@[j].0@ == k);
                    n.lemma_view_index(j);
                    o.lemma_view_index(j);
                } else {
                    assert forall|j: int| 0 <= j < n.entries@.len() implies (
                    #[trigger] n.entries@[j]).0@ != k by {
                        if j != i {
                            assert(o.entries@[j].0@ != k);
                        }
                    }
                    n.lemma_view_absent(k);
                    o.lemma_view_absent(k);
                }
            }
        }
        assert(n@.dom() =~= m2.dom());
        assert(n@ =~= m2);
    }

    /// Appending an entry under a fresh key is a map insert.
    proof fn lemma_insert_push(o: TranspositionTable, n: TranspositionTable, key: Seq<Cell>, value: i64)
        requires
            o.wf(),
            forall|j: int| 0 <= j < o.entries@.len() ==> (#[trigger] o.entries@[j]).0@ != key,
            n.entries@.len() == o.entries@.len() + 1,
            n.entries@[o.entries@.len() as int].0@ == key,
            n.entries@[o.entries@.len() as int].1 == value,
            forall|j: int| 0 <= j < o.entries@.len() ==> n.entries@[j] == o.entries@[j],
        ensures
            n.wf(),
            n@ == o@.insert(key, value),
    {
        let m2 = o@.insert(key, value);
        let last = o.entries@.len() as int;
        assert forall|a: int, b: int| 0 <= a < b < n.entries@.len() implies (
        #[trigger] n.entries@[a]).0@ != (#[trigger] n.entries@[b]).0@ by {
            if b < last {
                assert(o.entries@[a].0@ != o.entries@[b].0@);
            } else {
                assert(o.entries@[a].0@ != key);
            }
        }
        assert forall|k: Seq<Cell>| true implies #[trigger] n@.dom().contains(k) == m2.dom().contains(
            k,
        ) && (m2.dom().contains(k) ==> m2[k] == n@[k]) by {
            if k == key {
                n.lemma_view_index(last);
            } else {
                if exists|j: int|
                    0 <= j < o.entries@.len() && (#[trigger] o.entries@[j]).0@ == k {
                    let j = choose|j: int|
                        0 <= j < o.entries@.len() && (#[trigger] o.entries@[j]).0@ == k;
                    assert(n.entries@[j].0@ == k);
                    n.lemma_view_index(j);
                    o.lemma_view_index(j);
                } else {
                    assert forall|j: int| 0 <= j < n.entries@.len() implies (
                    #[trigger] n.entries@[j]).0@ != k by {
                        if j < last {
                            assert(o.entries@[j].0@ != k);
                        }
                    }
                    n.lemma_view_absent(k);
                    o.lemma_view_absent(k);
                }
            }
        }
        assert(n@.dom() =~= m2.dom());
        assert(n@ =~= m2);
    }

    /// Store a score under a key, replacing any previous score of the
    /// exact same key and touching no other entry.
    pub fn insert(&mut self, key: Vec<Cell>, value: i64)
        requires
            old(self).wf(),
        ensures
            final(self).wf(),
            final(self)@ == old(self)@.insert(key@, value),
    {
        let ghost old_t = *old(self);
        let mut i: usize = 0;
        while i < self.entries.len()
            invariant
                old_t == *old(self),
                *self == old_t,
                self.wf(),
                i <= self.entries@.len(),
                forall|j: int| 0 <= j < i as int ==> (#[trigger] self.entries@[j]).0@ != key@,
            decreases self.entries@.len() - i as int,
        {
            if cells_equal(&self.entries[i].0, &key) {
                let ghost kv = key@;
                self.entries.set(i, (key, value));
                proof {
                    Self::lemma_insert_replace(old_t, *self, i as int, kv, value);
                    assert(self@ == old_t@.insert(kv, value));
                }
                return ;
            }
            i = i + 1;
        }
        self.entries.push((key, value));
        proof {
            Self::lemma_insert_push(old_t, *self, key@, value);
        }
    }
}

/// Whether two cell vectors are bit-identical.
pub fn cells_equal(a: &Vec<Cell>, b: &Vec<Cell>) -> (r: bool)
    ensures
        r <==> a@ == b@,
{
    if a.len() != b.len() {
        return false;
    }
    let mut i: usize = 0;
    while i < a.len()
        invariant
            a@.len() == b@.len(),
            i <= a@.len(),
            forall|j: int| 0 <= j < i as int ==> a@[j] == b@[j],
        decreases a@.len() - i as int,
    {
        if a[i] != b[i] {
            return false;
        }
        i = i + 1;
    }
    proof {
        assert(a@ =~= b@);
    }
    true
}

/// Storing a score for a key and re-querying the bit-identical key yields
/// the stored score; a key differing anywhere never hits that entry.
pub proof fn lemma_store_then_query(m: Map<Seq<Cell>, i64>, g: Seq<Cell>, g2: Seq<Cell>, v: i64)
    requires
        g2 != g,
    ensures
        m.insert(g, v)[g] == v,
        m.insert(g, v).contains_key(g),
        m.insert(g, v).contains_key(g2) == m.contains_key(g2),
        m.contains_key(g2) ==> m.insert(g, v)[g2] == m[g2],
{
}

} // verus!
