//! Column storage: three-field components kept as three separate dense
//! arrays (one per field), for bulk per-field processing.
//!
//! The bookkeeping is that of the dense storage: a map from entity key to
//! dense index and the dense array of entities; removal moves the last row
//! into the hole it leaves.

use crate::ecs::component::{dense_view, lemma_dense_view_update};
use crate::ecs::entity::Entity;
use std::collections::HashMap;
use vstd::prelude::*;

verus! {

broadcast use vstd::std_specs::hash::group_hash_axioms;

/// The rows described by three parallel columns.
pub open spec fn zip_columns<F>(xs: Seq<F>, ys: Seq<F>, zs: Seq<F>) -> Seq<(F, F, F)> {
    Seq::new(xs.len(), |i: int| (xs[i], ys[i], zs[i]))
}

/// Storage of three-field components as three dense columns
pub struct ColumnStorage<F: Copy> {
    entity_to_index: HashMap<u128, usize>,
    index_to_entity: Vec<Entity>,
    xs: Vec<F>,
    ys: Vec<F>,
    zs: Vec<F>,
}

impl<F: Copy> View for ColumnStorage<F> {
    type V = Map<Entity, (F, F, F)>;

    closed spec fn view(&self) -> Map<Entity, (F, F, F)> {
        dense_view(self.entity_to_index@, self.rows())
    }
}

impl<F: Copy> ColumnStorage<F> {
    /// The entities in dense order.
    pub closed spec fn dense_entities(&self) -> Seq<Entity> {
        self.index_to_entity@
    }

    /// The rows (one value per column) in dense order.
    pub closed spec fn rows(&self) -> Seq<(F, F, F)> {
        zip_columns(self.xs@, self.ys@, self.zs@)
    }

    /// The three columns.
    pub closed spec fn spec_columns(&self) -> (Seq<F>, Seq<F>, Seq<F>) {
        (self.xs@, self.ys@, self.zs@)
    }

    /// The dense index of each stored entity, by entity key.
    pub closed spec fn index_map(&self) -> Map<u128, usize> {
        self.entity_to_index@
    }

    /// Internal consistency: the columns and the entity array have one
    /// length, and the index map is the inverse of the entity array.
    pub closed spec fn wf(&self) -> bool {
        &&& self.xs@.len() == self.index_to_entity@.len()
        &&& self.ys@.len() == self.index_to_entity@.len()
        &&& self.zs@.len() == self.index_to_entity@.len()
        &&& self.entity_to_index@.dom().finite()
        &&& self.entity_to_index@.len() == self.index_to_entity@.len()
        &&& forall|i: int|
            0 <= i < self.index_to_entity@.len() ==> {
                &&& self.entity_to_index@.contains_key(
                    (#[trigger] self.index_to_entity@[i]).spec_key(),
                )
                &&& self.entity_to_index@[self.index_to_entity@[i].spec_key()] == i
            }
        &&& forall|k: u128| #[trigger]
            self.entity_to_index@.contains_key(k) ==> {
                &&& self.entity_to_index@[k] < self.index_to_entity@.len()
                &&& self.index_to_entity@[self.entity_to_index@[k] as int].spec_key() == k
            }
    }

    /// The columns of a well-formed storage are the columns of its rows.
    pub proof fn lemma_columns_are_rows(&self)
        requires
            self.wf(),
        ensures
            self.rows().len() == self.dense_entities().len(),
            forall|i: int|
                0 <= i < self.rows().len() ==> #[trigger] self.rows()[i] == (
                    self.spec_columns().0[i],
                    self.spec_columns().1[i],
                    self.spec_columns().2[i],
                ),
            forall|i: int|
                0 <= i < self.dense_entities().len() ==> self@[#[trigger] self.dense_entities()[i]]
                    == self.rows()[i],
    {
    }

    /// Create a new empty storage
    pub fn new() -> (s: Self)
        ensures
            s.wf(),
            s@ == Map::<Entity, (F, F, F)>::empty(),
            s.dense_entities() == Seq::<Entity>::empty(),
            s.rows() == Seq::<(F, F, F)>::empty(),
    {
        Self::with_capacity(0)
    }

    /// Create a new storage with room for `capacity` rows
    pub fn with_capacity(capacity: usize) -> (s: Self)
        ensures
            s.wf(),
            s@ == Map::<Entity, (F, F, F)>::empty(),
            s.dense_entities() == Seq::<Entity>::empty(),
            s.rows() == Seq::<(F, F, F)>::empty(),
    {
        let s = ColumnStorage {
            entity_to_index: HashMap::with_capacity(capacity),
            index_to_entity: Vec::with_capacity(capacity),
            xs: Vec::with_capacity(capacity),
            ys: Vec::with_capacity(capacity),
            zs: Vec::with_capacity(capacity),
        };
        assert(s@ =~= Map::<Entity, (F, F, F)>::empty());
        assert(s.rows() =~= Seq::<(F, F, F)>::empty());
        s
    }

    /// Get the number of rows stored
    pub fn len(&self) -> (n: usize)
        requires
            self.wf(),
        ensures
            n == self.rows().len(),
            n == self.dense_entities().len(),
    {
        self.xs.len()
    }

    /// Check if the storage is empty
    pub fn is_empty(&self) -> (b: bool)
        requires
            self.wf(),
        ensures
            b == (self.rows().len() == 0),
    {
        self.xs.len() == 0
    }

    /// Get all entities that have rows here, in dense order
    pub fn entities(&self) -> (v: Vec<Entity>)
        ensures
            v@ == self.dense_entities(),
    {
        let mut v: Vec<Entity> = Vec::with_capacity(self.index_to_entity.len());
        let n = self.index_to_entity.len();
        let mut i: usize = 0;
        while i < n
            invariant
                n == self.index_to_entity@.len(),
                i <= n,
                v@ == self.index_to_entity@.subrange(0, i as int),
            decreases n - i,
        {
            v.push(self.index_to_entity[i]);
            i = i + 1;
            assert(v@ =~= self.index_to_entity@.subrange(0, i as int));
        }
        assert(v@ =~= self.index_to_entity@);
        v
    }

    /// The three dense columns
    pub fn columns(&self) -> (r: (&[F], &[F], &[F]))
        ensures
            r.0@ == self.spec_columns().0,
            r.1@ == self.spec_columns().1,
            r.2@ == self.spec_columns().2,
    {
        (self.xs.as_slice(), self.ys.as_slice(), self.zs.as_slice())
    }

    /// The three dense columns for in-place updates
    ///
    /// The slices write through to the storage; entities and their indices
    /// are left as they were.
    pub fn columns_mut(&mut self) -> (r: (&mut [F], &mut [F], &mut [F]))
        requires
            old(self).wf(),
        ensures
            r.0@ == old(self).spec_columns().0,
            r.1@ == old(self).spec_columns().1,
            r.2@ == old(self).spec_columns().2,
            final(self).spec_columns() == (final(r.0)@, final(r.1)@, final(r.2)@),
            final(self).dense_entities() == old(self).dense_entities(),
            final(self).index_map() == old(self).index_map(),
            final(r.0)@.len() == r.0@.len() && final(r.1)@.len() == r.1@.len() && final(r.2)@.len()
                == r.2@.len() ==> final(self).wf(),
    {
        (self.xs.as_mut_slice(), self.ys.as_mut_slice(), self.zs.as_mut_slice())
    }

    /// Get the dense index of an entity, if it has a row here
    pub fn get_index(&self, entity: Entity) -> (r: Option<usize>)
        requires
            self.wf(),
        ensures
            r == (if self.index_map().contains_key(entity.spec_key()) {
                Some(self.index_map()[entity.spec_key()])
            } else {
                None
            }),
            r matches Some(i) ==> i < self.dense_entities().len() && self.dense_entities()[i as int]
                == entity,
    {
        let key = entity.key();
        match self.entity_to_index.get(&key) {
            Some(i) => {
                let i = *i;
                proof {
                    Entity::lemma_key_injective(self.index_to_entity@[i as int], entity);
                }
                Some(i)
            },
            None => None,
        }
    }

    /// Get the row of an entity
    pub fn get(&self, entity: Entity) -> (r: Option<(F, F, F)>)
        requires
            self.wf(),
        ensures
            r == (if self@.contains_key(entity) {
                Some(self@[entity])
            } else {
                None
            }),
    {
        let key = entity.key();
        match self.entity_to_index.get(&key) {
            Some(index) => {
                let i = *index;
                Some((self.xs[i], self.ys[i], self.zs[i]))
            },
            None => None,
        }
    }

    /// Check if an entity has a row here
    pub fn contains(&self, entity: Entity) -> (r: bool)
        requires
            self.wf(),
        ensures
            r == self@.contains_key(entity),
    {
        let key = entity.key();
        self.entity_to_index.contains_key(&key)
    }

    /// Insert a row for the given entity
    ///
    /// An entity already present keeps its dense index and has its row
    /// replaced; a new entity is appended at the end of the columns.
    pub fn insert(&mut self, entity: Entity, row: (F, F, F))
        requires
            old(self).wf(),
            old(self).dense_entities().len() < usize::MAX,
        ensures
            final(self).wf(),
            final(self)@ == old(self)@.insert(entity, row),
            old(self)@.contains_key(entity) ==> {
                let i = old(self).index_map()[entity.spec_key()] as int;
                &&& final(self).dense_entities() == old(self).dense_entities()
                &&& final(self).rows() == old(self).rows().update(i, row)
            },
            !old(self)@.contains_key(entity) ==> {
                &&& final(self).dense_entities() == old(self).dense_entities().push(entity)
                &&& final(self).rows() == old(self).rows().push(row)
            },
    {
        let key = entity.key();
        match self.entity_to_index.get(&key) {
            Some(index) => {
                let index = *index;
                proof {
                    assert forall|k: u128| #[trigger]
                        self.entity_to_index@.contains_key(k) && self.entity_to_index@[k]
                            == self.entity_to_index@[key] implies k == key by {
                        assert(self.index_to_entity@[index as int].spec_key() == key);
                    }
                    lemma_dense_view_update(self.entity_to_index@, self.rows(), entity);
                }
                self.xs.set(index, row.0);
                self.ys.set(index, row.1);
                self.zs.set(index, row.2);
                assert(self.rows() =~= old(self).rows().update(index as int, row));
            },
            None => {
                let new_index = self.xs.len();
                self.xs.push(row.0);
                self.ys.push(row.1);
                self.zs.push(row.2);
                self.entity_to_index.insert(key, new_index);
                self.index_to_entity.push(entity);
                proof {
                    assert(self.rows() =~= old(self).rows().push(row));
                    assert(!old(self).entity_to_index@.dom().contains(key));
                    assert forall|i: int|
                        0 <= i < self.index_to_entity@.len() implies {
                        &&& self.entity_to_index@.contains_key(
                            (#[trigger] self.index_to_entity@[i]).spec_key(),
                        )
                        &&& self.entity_to_index@[self.index_to_entity@[i].spec_key()] == i
                    } by {
                        if i < new_index {
                            assert(old(self).entity_to_index@.contains_key(
                                old(self).index_to_entity@[i].spec_key(),
                            ));
                        }
                    }
                    assert forall|k: u128| #[trigger]
                        self.entity_to_index@.contains_key(k) implies {
                        &&& self.entity_to_index@[k] < self.index_to_entity@.len()
                        &&& self.index_to_entity@[self.entity_to_index@[k] as int].spec_key()
                            == k
                    } by {
                        if k != key {
                            assert(old(self).entity_to_index@.contains_key(k));
                        }
                    }
                    assert forall|e: Entity| #[trigger]
                        self@.contains_key(e) implies self@[e] == old(self)@.insert(entity, row)[e] by {
                        Entity::lemma_key_injective(e, entity);
                    }
                    assert forall|e: Entity| #[trigger]
                        self@.contains_key(e) == old(self)@.insert(entity, row).contains_key(e) by {
                        Entity::lemma_key_injective(e, entity);
                    }
                    assert(self@ =~= old(self)@.insert(entity, row));
                }
            },
        }
    }

    /// Remove the row of the given entity
    ///
    /// The last row (and its entity) moves into the freed dense slot.
    pub fn remove(&mut self, entity: Entity) -> (r: Option<(F, F, F)>)
        requires
            old(self).wf(),
        ensures
            final(self).wf(),
            final(self)@ == old(self)@.remove(entity),
            r == (if old(self)@.contains_key(entity) {
                Some(old(self)@[entity])
            } else {
                None
            }),
            old(self)@.contains_key(entity) ==> {
                let i = old(self).index_map()[entity.spec_key()] as int;
                &&& final(self).dense_entities() == old(self).dense_entities().update(
                    i,
                    old(self).dense_entities().last(),
                ).drop_last()
                &&& final(self).rows() == old(self).rows().update(i, old(self).rows().last()).drop_last()
            },
            old(self)@.contains_key(entity) ==> {
                &&& final(self).dense_entities().len() == old(self).dense_entities().len() - 1
                &&& final(self).rows().len() == old(self).rows().len() - 1
            },
            !old(self)@.contains_key(entity) ==> {
                &&& final(self).dense_entities() == old(self).dense_entities()
                &&& final(self).rows() == old(self).rows()
            },
    {
        let key = entity.key();
        match self.entity_to_index.remove(&key) {
            Some(index) => {
                let row = (self.xs[index], self.ys[index], self.zs[index]);
                let last_index = self.xs.len() - 1;
                if index != last_index {
                    let swapped_entity = self.index_to_entity[last_index];
                    let swapped_key = swapped_entity.key();
                    proof {
                        assert(old(self).entity_to_index@.contains_key(swapped_key));
                    }
                    self.entity_to_index.insert(swapped_key, index);
                }
                self.xs.swap_remove(index);
                self.ys.swap_remove(index);
                self.zs.swap_remove(index);
                self.index_to_entity.swap_remove(index);
                proof {
                    let n = old(self).index_to_entity@.len();
                    let old_idx = old(self).index_to_entity@;
                    let old_map = old(self).entity_to_index@;
                    let old_rows = old(self).rows();
                    let key_l = old_idx[n - 1].spec_key();
                    assert(self.rows() =~= old_rows.update(index as int, old_rows.last()).drop_last());
                    assert(old_idx[index as int].spec_key() == key);
                    assert forall|i: int|
                        0 <= i < self.index_to_entity@.len() implies {
                        &&& self.entity_to_index@.contains_key(
                            (#[trigger] self.index_to_entity@[i]).spec_key(),
                        )
                        &&& self.entity_to_index@[self.index_to_entity@[i].spec_key()] == i
                    } by {
                        if i != index {
                            assert(old_map.contains_key(old_idx[i].spec_key()));
                            assert(old_map[old_idx[i].spec_key()] == i);
                            assert(old_map.contains_key(key_l));
                            assert(old_map[key_l] == n - 1);
                        }
                    }
                    assert forall|k: u128| #[trigger]
                        self.entity_to_index@.contains_key(k) implies {
                        &&& self.entity_to_index@[k] < self.index_to_entity@.len()
                        &&& self.index_to_entity@[self.entity_to_index@[k] as int].spec_key()
                            == k
                    } by {
                        assert(old_map.contains_key(k));
                        if k != key_l {
                            let j = old_map[k];
                            assert(old_idx[j as int].spec_key() == k);
                            assert(j != index);
                            assert(j != n - 1);
                        }
                    }
                    assert(self.entity_to_index@.dom().len() == n - 1);
                    assert forall|e: Entity| #[trigger]
                        self@.contains_key(e) == old(self)@.remove(entity).contains_key(e) by {
                        Entity::lemma_key_injective(e, entity);
                    }
                    assert forall|e: Entity| #[trigger]
                        self@.contains_key(e) implies self@[e] == old(self)@.remove(entity)[e] by {
                        Entity::lemma_key_injective(e, entity);
                        let k = e.spec_key();
                        assert(old_map.contains_key(k));
                        let j = old_map[k];
                        assert(old_idx[j as int].spec_key() == k);
                        if k == key_l && index != n - 1 {
                            assert(j == n - 1);
                        } else {
                            assert(j != index);
                            assert(j != n - 1);
                        }
                    }
                    assert(self@ =~= old(self)@.remove(entity));
                }
                Some(row)
            },
            None => {
                assert(self@ =~= old(self)@.remove(entity));
                None
            },
        }
    }

    /// Clear all rows
    pub fn clear(&mut self)
        requires
            old(self).wf(),
        ensures
            final(self).wf(),
            final(self)@ == Map::<Entity, (F, F, F)>::empty(),
            final(self).dense_entities() == Seq::<Entity>::empty(),
            final(self).rows() == Seq::<(F, F, F)>::empty(),
    {
        self.entity_to_index.clear();
        self.index_to_entity.clear();
        self.xs.clear();
        self.ys.clear();
        self.zs.clear();
        assert(self@ =~= Map::<Entity, (F, F, F)>::empty());
        assert(self.rows() =~= Seq::<(F, F, F)>::empty());
    }
}

/// In a well-formed column storage the index map and the contents agree:
/// an entity is stored exactly when its key has a dense index; that index
/// holds the entity and its row; the entity at each dense index is mapped
/// back to that index; no entity appears twice; and there are as many
/// stored entities as rows.
pub proof fn law_column_index_layout<F: Copy>(s: ColumnStorage<F>)
    requires
        s.wf(),
    ensures
        forall|e: Entity| #[trigger] s@.contains_key(e) <==> s.index_map().contains_key(e.spec_key()),
        forall|e: Entity|
            #[trigger] s@.contains_key(e) ==> {
                &&& s.index_map()[e.spec_key()] < s.dense_entities().len()
                &&& s.dense_entities()[s.index_map()[e.spec_key()] as int] == e
                &&& s@[e] == s.rows()[s.index_map()[e.spec_key()] as int]
            },
        forall|i: int|
            0 <= i < s.dense_entities().len() ==> {
                &&& s.index_map().contains_key((#[trigger] s.dense_entities()[i]).spec_key())
                &&& s.index_map()[s.dense_entities()[i].spec_key()] == i
            },
        s.dense_entities().no_duplicates(),
        s.rows().len() == s.dense_entities().len(),
        s.dense_entities().to_set() == s@.dom(),
        s@.dom().len() == s.dense_entities().len(),
{
    let ents = s.dense_entities();
    assert forall|e: Entity| #[trigger] s@.contains_key(e) implies {
        &&& s.index_map()[e.spec_key()] < s.dense_entities().len()
        &&& s.dense_entities()[s.index_map()[e.spec_key()] as int] == e
        &&& s@[e] == s.rows()[s.index_map()[e.spec_key()] as int]
    } by {
        let j = s.index_map()[e.spec_key()] as int;
        Entity::lemma_key_injective(ents[j], e);
    }
    assert forall|a: int, b: int| 0 <= a < ents.len() && 0 <= b < ents.len() && a != b implies ents[a]
        != ents[b] by {
        assert(s.index_map()[ents[a].spec_key()] == a);
        assert(s.index_map()[ents[b].spec_key()] == b);
    }
    assert forall|e: Entity| #[trigger] ents.to_set().contains(e) <==> s@.dom().contains(e) by {
        if ents.to_set().contains(e) {
            let i = choose|i: int| 0 <= i < ents.len() && ents[i] == e;
            assert(s.index_map().contains_key(ents[i].spec_key()));
        }
        if s@.dom().contains(e) {
            let i = s.index_map()[e.spec_key()] as int;
            assert(ents[i] == e);
            assert(ents.contains(e));
        }
    }
    assert(ents.to_set() =~= s@.dom());
    ents.unique_seq_to_set();
}

impl<F: Copy> Default for ColumnStorage<F> {
    fn default() -> (s: Self)
        ensures
            s.wf(),
            s@ == Map::<Entity, (F, F, F)>::empty(),
            s.dense_entities() == Seq::<Entity>::empty(),
            s.rows() == Seq::<(F, F, F)>::empty(),
    {
        Self::new()
    }
}

} // verus!
