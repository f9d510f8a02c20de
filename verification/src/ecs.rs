//! Minimal entity/component store.
//!
//! An entity is an opaque integer identifier; each component type owns an
//! independent table from entities to values. Which components an entity
//! has is implicit in which tables contain its id. Iteration over a table
//! visits entries in insertion order.

use vstd::prelude::*;

verus! {

/// An entity: a stable, opaque integer identifier with no payload of its
/// own.
#[derive(Clone, Copy, PartialEq, Eq, Structural, Hash, Debug)]
pub struct Entity {
    pub id: i32,
}

/// One component table: an association from entity ids to values of one
/// component type, kept in insertion order.
pub struct ComponentTable<T> {
    pub ids: Vec<i32>,
    pub vals: Vec<T>,
}

impl<T> ComponentTable<T> {
    /// Well-formedness: one value per id, and ids are unique.
    pub open spec fn wf(self) -> bool {
        &&& self.ids@.len() == self.vals@.len()
        &&& forall|i: int, j: int|
            0 <= i < j < self.ids@.len() ==> self.ids@[i] != self.ids@[j]
    }

    /// Whether the table has an entry for `id`.
    pub open spec fn contains_id(self, id: i32) -> bool {
        self.ids@.contains(id)
    }

    /// The position of `id`'s entry in insertion order.
    pub open spec fn idx_of(self, id: i32) -> int {
        self.ids@.index_of(id)
    }

    /// The value stored for `id`.
    pub open spec fn value_of(self, id: i32) -> T {
        self.vals@[self.idx_of(id)]
    }

    /// An empty table.
    pub fn new() -> (r: Self)
        ensures
            r.wf(),
            r.ids@.len() == 0,
    {
        ComponentTable { ids: Vec::new(), vals: Vec::new() }
    }

    /// The number of entries.
    pub fn len(&self) -> (n: usize)
        ensures
            n == self.ids@.len(),
    {
        self.ids.len()
    }

    /// The id of the `i`-th entry in insertion order.
    pub fn id_at(&self, i: usize) -> (id: i32)
        requires
            i < self.ids@.len(),
        ensures
            id == self.ids@[i as int],
            self.wf() ==> self.contains_id(id),
    {
        let id = self.ids[i];
        proof {
            if self.wf() {
                assert(self.ids@.contains(id));
            }
        }
        id
    }

    /// The position of `id`'s entry, if the table has one.
    fn find(&self, id: i32) -> (r: Option<usize>)
        requires
            self.wf(),
        ensures
            match r {
                Some(i) => i < self.ids@.len() && self.ids@[i as int] == id && i as int
                    == self.idx_of(id),
                None => !self.contains_id(id),
            },
    {
        let n = self.ids.len();
        let mut i: usize = 0;
        while i < n
            invariant
                self.wf(),
                i <= n,
                n == self.ids@.len(),
                forall|j: int| 0 <= j < i ==> self.ids@[j] != id,
            decreases n - i,
        {
            if self.ids[i] == id {
                proof {
                    lemma_unique_index(self.ids@, id, i as int);
                }
                return Some(i);
            }
            i = i + 1;
        }
        proof {
            assert(forall|j: int| 0 <= j < self.ids@.len() ==> self.ids@[j] != id);
        }
        None
    }

    /// Whether the table has an entry for `id`.
    pub fn contains(&self, id: i32) -> (r: bool)
        requires
            self.wf(),
        ensures
            r == self.contains_id(id),
    {
        match self.find(id) {
            Some(_) => true,
            None => false,
        }
    }

    /// Stores `val` for `id`: replaces the existing entry in place, or
    /// appends a new one at the end of the insertion order.
    pub fn set(&mut self, id: i32, val: T)
        requires
            old(self).wf(),
        ensures
            final(self).wf(),
            final(self).contains_id(id),
            final(self).value_of(id) == val,
            final(self).ids@ == if old(self).contains_id(id) {
                old(self).ids@
            } else {
                old(self).ids@.push(id)
            },
            forall|o: i32|
                o != id ==> #[trigger] final(self).contains_id(o) == old(self).contains_id(o),
            forall|o: i32|
                o != id && old(self).contains_id(o) ==> #[trigger] final(self).value_of(o) == old(self).value_of(o),
    {
        let found = self.find(id);
        match found {
            Some(i) => {
                self.vals.set(i, val);
                proof {
                    assert(final(self).ids@ == old(self).ids@);
                    lemma_unique_index(final(self).ids@, id, i as int);
                    assert forall|o: i32| o != id && old(self).contains_id(o) implies #[trigger]
                        final(self).value_of(o) == old(self).value_of(o) by {
                        let k = old(self).ids@.index_of(o);
                        assert(0 <= k < old(self).ids@.len() && old(self).ids@[k] == o);
                        assert(k != i as int);
                    }
                }
            },
            None => {
                self.ids.push(id);
                self.vals.push(val);
                proof {
                    let newids = final(self).ids@;
                    let oldids = old(self).ids@;
                    assert(newids == oldids.push(id));
                    assert forall|i: int, j: int|
                        0 <= i < j < newids.len() implies newids[i] != newids[j] by {
                        if j == newids.len() - 1 {
                            assert(newids[j] == id);
                            assert(oldids[i] == newids[i]);
                            if oldids[i] == id {
                                assert(oldids.contains(id));
                            }
                        }
                    }
                    assert(newids[newids.len() - 1] == id);
                    assert(newids.contains(id));
                    lemma_unique_index(newids, id, newids.len() - 1);
                    assert(final(self).value_of(id) == val);
                    assert forall|o: i32| o != id implies #[trigger] final(self).contains_id(o)
                        == old(self).contains_id(o) by {
                        if newids.contains(o) {
                            let k = choose|k: int| 0 <= k < newids.len() && newids[k] == o;
                            assert(k < newids.len() - 1);
                            assert(oldids[k] == o);
                            assert(oldids.contains(o));
                        }
                        if oldids.contains(o) {
                            let k = choose|k: int| 0 <= k < oldids.len() && oldids[k] == o;
                            assert(newids[k] == o);
                            assert(newids.contains(o));
                        }
                    }
                    assert forall|o: i32| o != id && old(self).contains_id(o) implies #[trigger]
                        final(self).value_of(o) == old(self).value_of(o) by {
                        let k = oldids.index_of(o);
                        assert(0 <= k < oldids.len() && oldids[k] == o);
                        assert(newids[k] == o);
                        assert(newids.contains(o));
                        lemma_unique_index(newids, o, k);
                        assert(final(self).vals@[k] == old(self).vals@[k]);
                    }
                }
            },
        }
    }

    /// Removes and returns the entry for `id`, closing the gap in the
    /// insertion order.
    pub fn remove(&mut self, id: i32) -> (r: Option<T>)
        requires
            old(self).wf(),
        ensures
            final(self).wf(),
            !final(self).contains_id(id),
            match r {
                Some(v) => old(self).contains_id(id) && v == old(self).value_of(id) && final(self).ids@ == old(self).ids@.remove(old(self).idx_of(id)),
                None => !old(self).contains_id(id) && *final(self) == *old(self),
            },
            forall|o: i32|
                o != id ==> #[trigger] final(self).contains_id(o) == old(self).contains_id(o),
            forall|o: i32|
                o != id && old(self).contains_id(o) ==> #[trigger] final(self).value_of(o) == old(self).value_of(o),
    {
        let found = self.find(id);
        match found {
            Some(i) => {
                let removed_id = self.ids.remove(i);
                let removed_val = self.vals.remove(i);
                proof {
                    let newids = final(self).ids@;
                    let oldids = old(self).ids@;
                    let ii = i as int;
                    assert(newids == oldids.remove(ii));
                    assert forall|a: int, b: int|
                        0 <= a < b < newids.len() implies newids[a] != newids[b] by {
                        let a0 = if a < ii { a } else { a + 1 };
                        let b0 = if b < ii { b } else { b + 1 };
                        assert(newids[a] == oldids[a0]);
                        assert(newids[b] == oldids[b0]);
                    }
                    assert forall|o: i32| o != id implies #[trigger] final(self).contains_id(o)
                        == old(self).contains_id(o) by {
                        if newids.contains(o) {
                            let k = choose|k: int| 0 <= k < newids.len() && newids[k] == o;
                            let k0 = if k < ii { k } else { k + 1 };
                            assert(oldids[k0] == o);
                            assert(oldids.contains(o));
                        }
                        if oldids.contains(o) {
                            let k = choose|k: int| 0 <= k < oldids.len() && oldids[k] == o;
                            assert(k != ii);
                            let k1 = if k < ii { k } else { k - 1 };
                            assert(newids[k1] == o);
                            assert(newids.contains(o));
                        }
                    }
                    if newids.contains(id) {
                        let k = choose|k: int| 0 <= k < newids.len() && newids[k] == id;
                        let k0 = if k < ii { k } else { k + 1 };
                        assert(oldids[k0] == id);
                        assert(oldids[ii] == id);
                        assert(false);
                    }
                    assert forall|o: i32| o != id && old(self).contains_id(o) implies #[trigger]
                        final(self).value_of(o) == old(self).value_of(o) by {
                        let k = oldids.index_of(o);
                        assert(0 <= k < oldids.len() && oldids[k] == o);
                        assert(k != ii);
                        let k1 = if k < ii { k } else { k - 1 };
                        assert(newids[k1] == o);
                        assert(newids.contains(o));
                        lemma_unique_index(newids, o, k1);
                        assert(final(self).vals@[k1] == old(self).vals@[k]);
                    }
                }
                Some(removed_val)
            },
            None => None,
        }
    }
}

impl<T: Copy> ComponentTable<T> {
    /// The value stored for `id`, if the table has an entry for it.
    pub fn get(&self, id: i32) -> (r: Option<T>)
        requires
            self.wf(),
        ensures
            match r {
                Some(v) => self.contains_id(id) && v == self.value_of(id),
                None => !self.contains_id(id),
            },
    {
        match self.find(id) {
            Some(i) => Some(self.vals[i]),
            None => None,
        }
    }

    /// The value of the `i`-th entry in insertion order.
    pub fn value_at(&self, i: usize) -> (v: T)
        requires
            self.wf(),
            i < self.ids@.len(),
        ensures
            v == self.vals@[i as int],
            v == self.value_of(self.ids@[i as int]),
    {
        proof {
            lemma_unique_index(self.ids@, self.ids@[i as int], i as int);
            assert(self.ids@.contains(self.ids@[i as int]));
        }
        self.vals[i]
    }
}

/// In a duplicate-free sequence, the chosen index of a contained element
/// is the only index holding it.
pub proof fn lemma_unique_index(s: Seq<i32>, id: i32, i: int)
    requires
        forall|a: int, b: int| 0 <= a < b < s.len() ==> s[a] != s[b],
        0 <= i < s.len(),
        s[i] == id,
    ensures
        s.contains(id),
        s.index_of(id) == i,
{
    assert(s.contains(id));
    let k = s.index_of(id);
    assert(0 <= k < s.len() && s[k] == id);
    if k < i {
        assert(s[k] != s[i]);
    } else if k > i {
        assert(s[i] != s[k]);
    }
}

} // verus!
