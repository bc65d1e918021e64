//! Component storage and management
//!
//! Components are data containers that can be attached to entities. Two
//! storages are provided: a hash-map storage, and a dense storage that keeps
//! components contiguous and removes by swapping the last element into the
//! hole.

use crate::ecs::entity::Entity;
use std::any::TypeId;
use std::collections::hash_map::Entry;
use std::collections::HashMap;
use vstd::prelude::*;

verus! {

broadcast use vstd::std_specs::hash::group_hash_axioms;

/// The identifier of a type, as handed out by `std::any::TypeId`.
#[verifier::external_type_specification]
#[verifier::external_body]
pub struct ExTypeId(TypeId);

/// `std::any::TypeId::of::<T>()`; nothing is stated of the identifier.
#[verifier::external_body]
fn type_id_of<T: ?Sized + 'static>() -> TypeId {
    TypeId::of::<T>()
}

/// Trait that all components must implement
///
/// Components should be plain data structures without behavior.
pub trait Component: 'static + Send + Sync {
    /// Get the type ID of this component
    fn type_id(&self) -> TypeId {
        type_id_of::<Self>()
    }
}

/// The map from entities to components that a key-indexed map describes.
pub open spec fn entity_map<T>(by_key: Map<u128, T>) -> Map<Entity, T> {
    Map::new(|e: Entity| by_key.contains_key(e.spec_key()), |e: Entity| by_key[e.spec_key()])
}

/// Inserting under an entity's key inserts the entity.
pub proof fn lemma_entity_map_insert<T>(by_key: Map<u128, T>, e: Entity, v: T)
    ensures
        entity_map(by_key.insert(e.spec_key(), v)) == entity_map(by_key).insert(e, v),
{
    assert forall|x: Entity| #[trigger]
        entity_map(by_key.insert(e.spec_key(), v)).contains_key(x) == entity_map(
            by_key,
        ).insert(e, v).contains_key(x) by {
        Entity::lemma_key_injective(x, e);
    }
    assert forall|x: Entity| #[trigger]
        entity_map(by_key.insert(e.spec_key(), v)).contains_key(x) implies entity_map(
            by_key.insert(e.spec_key(), v),
        )[x] == entity_map(by_key).insert(e, v)[x] by {
        Entity::lemma_key_injective(x, e);
    }
    assert(entity_map(by_key.insert(e.spec_key(), v)) =~= entity_map(by_key).insert(e, v));
}

/// Removing an entity's key removes the entity.
pub proof fn lemma_entity_map_remove<T>(by_key: Map<u128, T>, e: Entity)
    ensures
        entity_map(by_key.remove(e.spec_key())) == entity_map(by_key).remove(e),
{
    assert forall|x: Entity| #[trigger]
        entity_map(by_key.remove(e.spec_key())).contains_key(x) == entity_map(
            by_key,
        ).remove(e).contains_key(x) by {
        Entity::lemma_key_injective(x, e);
    }
    assert(entity_map(by_key.remove(e.spec_key())) =~= entity_map(by_key).remove(e));
}

/// Simple HashMap-based component storage
pub struct HashMapStorage<T: Component> {
    components: HashMap<u128, T>,
}

impl<T: Component> View for HashMapStorage<T> {
    type V = Map<Entity, T>;

    closed spec fn view(&self) -> Map<Entity, T> {
        entity_map(self.components@)
    }
}

impl<T: Component> HashMapStorage<T> {
    /// Create a new empty storage
    pub fn new() -> (s: Self)
        ensures
            s@ == Map::<Entity, T>::empty(),
    {
        let s = HashMapStorage { components: HashMap::new() };
        assert(s@ =~= Map::<Entity, T>::empty());
        s
    }

    /// Insert a component for the given entity, replacing any earlier one
    pub fn insert(&mut self, entity: Entity, component: T)
        ensures
            final(self)@ == old(self)@.insert(entity, component),
    {
        let key = entity.key();
        self.components.insert(key, component);
        proof {
            lemma_entity_map_insert(old(self).components@, entity, component);
        }
    }

    /// Remove the component of the given entity
    pub fn remove(&mut self, entity: Entity) -> (r: Option<T>)
        ensures
            final(self)@ == old(self)@.remove(entity),
            r == (if old(self)@.contains_key(entity) {
                Some(old(self)@[entity])
            } else {
                None
            }),
    {
        let key = entity.key();
        let r = self.components.remove(&key);
        proof {
            lemma_entity_map_remove(old(self).components@, entity);
        }
        r
    }

    /// Get a reference to the component of the given entity
    pub fn get(&self, entity: Entity) -> (r: Option<&T>)
        ensures
            r == (if self@.contains_key(entity) {
                Some(&self@[entity])
            } else {
                None
            }),
    {
        let key = entity.key();
        self.components.get(&key)
    }

    /// Get a mutable reference to the component of the given entity
    pub fn get_mut(&mut self, entity: Entity) -> (r: Option<&mut T>)
        ensures
            match r {
                Some(v) => {
                    &&& old(self)@.contains_key(entity)
                    &&& *v == old(self)@[entity]
                    &&& final(self)@ == old(self)@.insert(entity, *final(v))
                },
                None => {
                    &&& !old(self)@.contains_key(entity)
                    &&& final(self)@ == old(self)@
                },
            },
    {
        let key = entity.key();
        proof {
            lemma_entity_map_remove(old(self).components@, entity);
        }
        match self.components.entry(key) {
            Entry::Occupied(o) => {
                let v = o.into_mut();
                proof {
                    lemma_entity_map_insert(old(self).components@, entity, *final(v));
                }
                Some(v)
            },
            Entry::Vacant(_) => None,
        }
    }

    /// Check if an entity has a component here
    pub fn contains(&self, entity: Entity) -> (r: bool)
        ensures
            r == self@.contains_key(entity),
    {
        let key = entity.key();
        self.components.contains_key(&key)
    }

    /// Clear all components
    pub fn clear(&mut self)
        ensures
            final(self)@ == Map::<Entity, T>::empty(),
    {
        self.components.clear();
        assert(self@ =~= Map::<Entity, T>::empty());
    }
}

/// Dense component storage with a cache-friendly layout
///
/// Components are kept contiguously in insertion order; removing an entity
/// moves the last component into the hole it leaves (swap-remove), so the
/// arrays never have gaps. A map from entity key to dense index, and the
/// dense array of entities, let lookups and removals run in constant time.
pub struct SoAStorage<T: Component + Copy> {
    /// Mapping from entity key to dense array index
    entity_to_index: HashMap<u128, usize>,
    /// Mapping from dense array index back to Entity
    index_to_entity: Vec<Entity>,
    /// The component data, stored densely
    components: Vec<T>,
}

impl<T: Component + Copy> View for SoAStorage<T> {
    type V = Map<Entity, T>;

    closed spec fn view(&self) -> Map<Entity, T> {
        dense_view(self.entity_to_index@, self.components@)
    }
}

/// The entity map described by an index map and a dense component array.
pub open spec fn dense_view<T>(index: Map<u128, usize>, comps: Seq<T>) -> Map<Entity, T> {
    Map::new(
        |e: Entity| index.contains_key(e.spec_key()),
        |e: Entity| comps[index[e.spec_key()] as int],
    )
}

/// Overwriting the dense slot of an entity whose index no other key shares
/// overwrites that entity's component.
pub(crate) proof fn lemma_dense_view_update<T>(index: Map<u128, usize>, comps: Seq<T>, entity: Entity)
    requires
        index.contains_key(entity.spec_key()),
        forall|k: u128| #[trigger] index.contains_key(k) ==> index[k] < comps.len(),
        forall|k: u128| #[trigger]
            index.contains_key(k) && index[k] == index[entity.spec_key()] ==> k
                == entity.spec_key(),
    ensures
        forall|x: T|
            #[trigger] dense_view(index, comps.update(index[entity.spec_key()] as int, x))
                == dense_view(index, comps).insert(entity, x),
{
    assert forall|x: T|
        #[trigger] dense_view(index, comps.update(index[entity.spec_key()] as int, x))
            == dense_view(index, comps).insert(entity, x) by {
        let i = index[entity.spec_key()] as int;
        assert forall|e: Entity| #[trigger]
            dense_view(index, comps.update(i, x)).contains_key(e) == dense_view(
                index,
                comps,
            ).insert(entity, x).contains_key(e) by {
            Entity::lemma_key_injective(e, entity);
        }
        assert forall|e: Entity| #[trigger]
            dense_view(index, comps.update(i, x)).contains_key(e) implies dense_view(
                index,
                comps.update(i, x),
            )[e] == dense_view(index, comps).insert(entity, x)[e] by {
            Entity::lemma_key_injective(e, entity);
        }
        assert(dense_view(index, comps.update(i, x)) =~= dense_view(index, comps).insert(
            entity,
            x,
        ));
    }
}

impl<T: Component + Copy> SoAStorage<T> {
    /// The entities in dense order.
    pub closed spec fn dense_entities(&self) -> Seq<Entity> {
        self.index_to_entity@
    }

    /// The components in dense order.
    pub closed spec fn dense_components(&self) -> Seq<T> {
        self.components@
    }

    /// The dense index of each stored entity, by entity key.
    pub closed spec fn index_map(&self) -> Map<u128, usize> {
        self.entity_to_index@
    }

    /// Internal consistency: the three structures describe one bijection
    /// between the stored entities and the dense indices.
    pub closed spec fn wf(&self) -> bool {
        &&& self.components@.len() == self.index_to_entity@.len()
        &&& self.entity_to_index@.dom().finite()
        &&& self.entity_to_index@.len() == self.index_to_entity@.len()
        &&& forall|i: int|
            0 <= i < self.index_to_entity@.len() ==> {
                &&& self.entity_to_index@.contains_key(
                    (#[trigger] self.index_to_entity@[i]).spec_key(),
                )
                &&& self.entity_to_index@[self.index_to_entity@[i].spec_key()] == i
            }
        &&& forall|k: u128| #[trigger]
            self.entity_to_index@.contains_key(k) ==> {
                &&& self.entity_to_index@[k] < self.index_to_entity@.len()
                &&& self.index_to_entity@[self.entity_to_index@[k] as int].spec_key() == k
            }
    }

    /// The dense layout of a well-formed storage (see `law_soa_dense_layout`).
    proof fn lemma_dense_layout(&self)
        requires
            self.wf(),
        ensures
            self.dense_entities().no_duplicates(),
            self.dense_entities().len() == self.dense_components().len(),
            self.dense_entities().to_set() == self@.dom(),
            forall|i: int|
                0 <= i < self.dense_entities().len() ==> self@[#[trigger] self.dense_entities()[i]]
                    == self.dense_components()[i],
    {
        let ents = self.index_to_entity@;
        assert forall|i: int, j: int|
            0 <= i < ents.len() && 0 <= j < ents.len() && i != j implies ents[i] != ents[j] by {
            assert(self.entity_to_index@[ents[i].spec_key()] == i);
            assert(self.entity_to_index@[ents[j].spec_key()] == j);
        }
        assert forall|e: Entity| #[trigger] ents.to_set().contains(e) <==> self@.dom().contains(e) by {
            if ents.to_set().contains(e) {
                let i = choose|i: int| 0 <= i < ents.len() && ents[i] == e;
                assert(self.entity_to_index@.contains_key(ents[i].spec_key()));
            }
            if self@.dom().contains(e) {
                let k = e.spec_key();
                assert(self.entity_to_index@.contains_key(k));
                let i = self.entity_to_index@[k] as int;
                Entity::lemma_key_injective(ents[i], e);
                assert(ents[i] == e);
                assert(ents.contains(e));
            }
        }
        assert(ents.to_set() =~= self@.dom());
    }

    /// Create a new empty storage
    pub fn new() -> (s: Self)
        ensures
            s.wf(),
            s@ == Map::<Entity, T>::empty(),
            s.dense_entities() == Seq::<Entity>::empty(),
            s.dense_components() == Seq::<T>::empty(),
    {
        Self::with_capacity(0)
    }

    /// Create a new storage with room for `capacity` components
    pub fn with_capacity(capacity: usize) -> (s: Self)
        ensures
            s.wf(),
            s@ == Map::<Entity, T>::empty(),
            s.dense_entities() == Seq::<Entity>::empty(),
            s.dense_components() == Seq::<T>::empty(),
    {
        let s = SoAStorage {
            entity_to_index: HashMap::with_capacity(capacity),
            index_to_entity: Vec::with_capacity(capacity),
            components: Vec::with_capacity(capacity),
        };
        assert(s@ =~= Map::<Entity, T>::empty());
        s
    }

    /// Get the number of components stored
    pub fn len(&self) -> (n: usize)
        requires
            self.wf(),
        ensures
            n == self.dense_components().len(),
            n == self.dense_entities().len(),
    {
        self.components.len()
    }

    /// Check if the storage is empty
    pub fn is_empty(&self) -> (b: bool)
        requires
            self.wf(),
        ensures
            b == (self.dense_components().len() == 0),
    {
        self.components.is_empty()
    }

    /// Reserve space for at least `additional` more components
    pub fn reserve(&mut self, additional: usize)
        requires
            old(self).wf(),
        ensures
            final(self).wf(),
            final(self)@ == old(self)@,
            final(self).dense_entities() == old(self).dense_entities(),
            final(self).dense_components() == old(self).dense_components(),
    {
        self.entity_to_index.reserve(additional);
        self.index_to_entity.reserve(additional);
        self.components.reserve(additional);
        assert(self@ =~= old(self)@);
    }

    /// Get all entities that have components here, in dense order
    pub fn entities(&self) -> (v: Vec<Entity>)
        ensures
            v@ == self.dense_entities(),
    {
        let mut v: Vec<Entity> = Vec::with_capacity(self.index_to_entity.len());
        let n = self.index_to_entity.len();
        let mut i: usize = 0;
        while i < n
            invariant
                n == self.index_to_entity@.len(),
                i <= n,
                v@ == self.index_to_entity@.subrange(0, i as int),
            decreases n - i,
        {
            v.push(self.index_to_entity[i]);
            i = i + 1;
            assert(v@ =~= self.index_to_entity@.subrange(0, i as int));
        }
        assert(v@ =~= self.index_to_entity@);
        v
    }

    /// Get the dense component array
    pub fn components(&self) -> (r: &[T])
        ensures
            r@ == self.dense_components(),
    {
        self.components.as_slice()
    }

    /// Get the dense component array for in-place updates
    ///
    /// The slice writes through to the storage; entities and their indices
    /// are left as they were.
    pub fn components_mut(&mut self) -> (r: &mut [T])
        requires
            old(self).wf(),
        ensures
            r@ == old(self).dense_components(),
            final(self).dense_components() == final(r)@,
            final(self).dense_entities() == old(self).dense_entities(),
            final(self).index_map() == old(self).index_map(),
            final(r)@.len() == r@.len() ==> final(self).wf(),
    {
        self.components.as_mut_slice()
    }

    /// Get the dense index of an entity, if it has a component here
    pub fn get_index(&self, entity: Entity) -> (r: Option<usize>)
        requires
            self.wf(),
        ensures
            r == (if self.index_map().contains_key(entity.spec_key()) {
                Some(self.index_map()[entity.spec_key()])
            } else {
                None
            }),
            r matches Some(i) ==> i < self.dense_entities().len() && self.dense_entities()[i as int]
                == entity,
    {
        let key = entity.key();
        match self.entity_to_index.get(&key) {
            Some(i) => {
                let i = *i;
                proof {
                    Entity::lemma_key_injective(self.index_to_entity@[i as int], entity);
                }
                Some(i)
            },
            None => None,
        }
    }

    /// Check the internal invariants
    ///
    /// Returns `Ok(())` exactly when the three structures agree: equal
    /// lengths, and an entity-to-index mapping that is the inverse of the
    /// dense entity array (so no entity appears twice).
    pub fn check_invariants(&self) -> (r: Result<(), String>)
        ensures
            r is Ok <==> self.wf(),
    {
        if self.entity_to_index.len() != self.index_to_entity.len() {
            return Err(String::from_str("Length mismatch: entity_to_index and index_to_entity"));
        }
        if self.entity_to_index.len() != self.components.len() {
            return Err(String::from_str("Length mismatch: entity_to_index and components"));
        }
        let n = self.index_to_entity.len();
        let mut i: usize = 0;
        while i < n
            invariant
                n == self.index_to_entity@.len(),
                i <= n,
                forall|j: int|
                    0 <= j < i ==> {
                        &&& self.entity_to_index@.contains_key(
                            (#[trigger] self.index_to_entity@[j]).spec_key(),
                        )
                        &&& self.entity_to_index@[self.index_to_entity@[j].spec_key()] == j
                    },
            decreases n - i,
        {
            let key = self.index_to_entity[i].key();
            match self.entity_to_index.get(&key) {
                Some(j) => {
                    if *j != i {
                        return Err(String::from_str("Mapping inconsistency between entity and index"));
                    }
                },
                None => {
                    return Err(String::from_str("Entity in dense array has no index"));
                },
            }
            i = i + 1;
        }
        proof {
            let idx = self.index_to_entity@;
            let map = self.entity_to_index@;
            let ks = idx.map_values(|e: Entity| e.spec_key());
            assert forall|a: int, b: int| 0 <= a < ks.len() && 0 <= b < ks.len() && a != b implies ks[a]
                != ks[b] by {
                assert(map[idx[a].spec_key()] == a);
                assert(map[idx[b].spec_key()] == b);
            }
            assert(ks.no_duplicates());
            ks.unique_seq_to_set();
            assert forall|k: u128| ks.to_set().contains(k) implies map.dom().contains(k) by {
                let j = choose|j: int| 0 <= j < ks.len() && ks[j] == k;
                assert(map.contains_key(idx[j].spec_key()));
            }
            vstd::set_lib::lemma_subset_equality(ks.to_set(), map.dom());
            assert forall|k: u128| #[trigger] map.contains_key(k) implies {
                &&& map[k] < idx.len()
                &&& idx[map[k] as int].spec_key() == k
            } by {
                assert(ks.to_set().contains(k));
                let j = choose|j: int| 0 <= j < ks.len() && ks[j] == k;
                assert(idx[j].spec_key() == k);
                assert(map[idx[j].spec_key()] == j);
            }
        }
        Ok(())
    }

    /// Insert a component for the given entity
    ///
    /// An entity already present keeps its dense index and has its component
    /// replaced; a new entity is appended at the end of the dense arrays.
    pub fn insert(&mut self, entity: Entity, component: T)
        requires
            old(self).wf(),
            old(self).dense_entities().len() < usize::MAX,
        ensures
            final(self).wf(),
            final(self)@ == old(self)@.insert(entity, component),
            old(self)@.contains_key(entity) ==> {
                let i = old(self).index_map()[entity.spec_key()] as int;
                &&& final(self).dense_entities() == old(self).dense_entities()
                &&& final(self).dense_components() == old(self).dense_components().update(
                    i,
                    component,
                )
            },
            !old(self)@.contains_key(entity) ==> {
                &&& final(self).dense_entities() == old(self).dense_entities().push(entity)
                &&& final(self).dense_components() == old(self).dense_components().push(
                    component,
                )
            },
    {
        let key = entity.key();
        match self.entity_to_index.get(&key) {
            Some(index) => {
                let index = *index;
                proof {
                    assert forall|k: u128| #[trigger]
                        self.entity_to_index@.contains_key(k) && self.entity_to_index@[k]
                            == self.entity_to_index@[key] implies k == key by {
                        assert(self.index_to_entity@[index as int].spec_key() == key);
                    }
                    lemma_dense_view_update(self.entity_to_index@, self.components@, entity);
                }
                self.components.set(index, component);
            },
            None => {
                let new_index = self.components.len();
                self.components.push(component);
                self.entity_to_index.insert(key, new_index);
                self.index_to_entity.push(entity);
                proof {
                    assert(!old(self).entity_to_index@.dom().contains(key));
                    assert forall|i: int|
                        0 <= i < self.index_to_entity@.len() implies {
                        &&& self.entity_to_index@.contains_key(
                            (#[trigger] self.index_to_entity@[i]).spec_key(),
                        )
                        &&& self.entity_to_index@[self.index_to_entity@[i].spec_key()] == i
                    } by {
                        if i < new_index {
                            assert(old(self).entity_to_index@.contains_key(
                                old(self).index_to_entity@[i].spec_key(),
                            ));
                        }
                    }
                    assert forall|k: u128| #[trigger]
                        self.entity_to_index@.contains_key(k) implies {
                        &&& self.entity_to_index@[k] < self.index_to_entity@.len()
                        &&& self.index_to_entity@[self.entity_to_index@[k] as int].spec_key()
                            == k
                    } by {
                        if k != key {
                            assert(old(self).entity_to_index@.contains_key(k));
                        }
                    }
                    assert forall|e: Entity| #[trigger]
                        self@.contains_key(e) implies self@[e] == old(self)@.insert(
                            entity,
                            component,
                        )[e] by {
                        Entity::lemma_key_injective(e, entity);
                    }
                    assert forall|e: Entity| #[trigger]
                        self@.contains_key(e) == old(self)@.insert(entity, component).contains_key(
                            e,
                        ) by {
                        Entity::lemma_key_injective(e, entity);
                    }
                    assert(self@ =~= old(self)@.insert(entity, component));
                }
            },
        }
    }

    /// Remove the component of the given entity
    ///
    /// The last component (and its entity) moves into the freed dense slot.
    pub fn remove(&mut self, entity: Entity) -> (r: Option<T>)
        requires
            old(self).wf(),
        ensures
            final(self).wf(),
            final(self)@ == old(self)@.remove(entity),
            r == (if old(self)@.contains_key(entity) {
                Some(old(self)@[entity])
            } else {
                None
            }),
            old(self)@.contains_key(entity) ==> {
                let i = old(self).index_map()[entity.spec_key()] as int;
                &&& final(self).dense_entities() == old(self).dense_entities().update(
                    i,
                    old(self).dense_entities().last(),
                ).drop_last()
                &&& final(self).dense_components() == old(self).dense_components().update(
                    i,
                    old(self).dense_components().last(),
                ).drop_last()
            },
            old(self)@.contains_key(entity) ==> {
                &&& final(self).dense_entities().len() == old(self).dense_entities().len() - 1
                &&& final(self).dense_components().len() == old(self).dense_components().len() - 1
            },
            !old(self)@.contains_key(entity) ==> {
                &&& final(self).dense_entities() == old(self).dense_entities()
                &&& final(self).dense_components() == old(self).dense_components()
            },
    {
        let key = entity.key();
        match self.entity_to_index.remove(&key) {
            Some(index) => {
                let ghost map1 = self.entity_to_index@;
                let component = self.components[index];
                let last_index = self.components.len() - 1;
                if index != last_index {
                    let swapped_entity = self.index_to_entity[last_index];
                    let swapped_key = swapped_entity.key();
                    proof {
                        assert(old(self).entity_to_index@.contains_key(swapped_key));
                    }
                    self.entity_to_index.insert(swapped_key, index);
                }
                self.components.swap_remove(index);
                self.index_to_entity.swap_remove(index);
                proof {
                    let n = old(self).index_to_entity@.len();
                    let old_idx = old(self).index_to_entity@;
                    let old_map = old(self).entity_to_index@;
                    let key_l = old_idx[n - 1].spec_key();
                    assert(old_idx[index as int].spec_key() == key);
                    assert forall|i: int|
                        0 <= i < self.index_to_entity@.len() implies {
                        &&& self.entity_to_index@.contains_key(
                            (#[trigger] self.index_to_entity@[i]).spec_key(),
                        )
                        &&& self.entity_to_index@[self.index_to_entity@[i].spec_key()] == i
                    } by {
                        if i != index {
                            assert(old_map.contains_key(old_idx[i].spec_key()));
                            assert(old_map[old_idx[i].spec_key()] == i);
                            assert(old_map.contains_key(key_l));
                            assert(old_map[key_l] == n - 1);
                        }
                    }
                    assert forall|k: u128| #[trigger]
                        self.entity_to_index@.contains_key(k) implies {
                        &&& self.entity_to_index@[k] < self.index_to_entity@.len()
                        &&& self.index_to_entity@[self.entity_to_index@[k] as int].spec_key()
                            == k
                    } by {
                        assert(old_map.contains_key(k));
                        if k != key_l {
                            let j = old_map[k];
                            assert(old_idx[j as int].spec_key() == k);
                            assert(j != index);
                            assert(j != n - 1);
                        }
                    }
                    assert(self.entity_to_index@.dom().len() == n - 1);
                    assert forall|e: Entity| #[trigger]
                        self@.contains_key(e) == old(self)@.remove(entity).contains_key(e) by {
                        Entity::lemma_key_injective(e, entity);
                    }
                    assert forall|e: Entity| #[trigger]
                        self@.contains_key(e) implies self@[e] == old(self)@.remove(entity)[e] by {
                        Entity::lemma_key_injective(e, entity);
                        let k = e.spec_key();
                        assert(old_map.contains_key(k));
                        let j = old_map[k];
                        assert(old_idx[j as int].spec_key() == k);
                        if k == key_l && index != n - 1 {
                            assert(j == n - 1);
                        } else {
                            assert(j != index);
                            assert(j != n - 1);
                        }
                    }
                    assert(self@ =~= old(self)@.remove(entity));
                }
                Some(component)
            },
            None => {
                assert(self@ =~= old(self)@.remove(entity));
                None
            },
        }
    }

    /// Get a reference to the component of the given entity
    pub fn get(&self, entity: Entity) -> (r: Option<&T>)
        requires
            self.wf(),
        ensures
            r == (if self@.contains_key(entity) {
                Some(&self@[entity])
            } else {
                None
            }),
    {
        let key = entity.key();
        match self.entity_to_index.get(&key) {
            Some(index) => Some(&self.components[*index]),
            None => None,
        }
    }

    /// Get a mutable reference to the component of the given entity
    pub fn get_mut(&mut self, entity: Entity) -> (r: Option<&mut T>)
        requires
            old(self).wf(),
        ensures
            final(self).wf(),
            final(self).dense_entities() == old(self).dense_entities(),
            match r {
                Some(v) => {
                    &&& old(self)@.contains_key(entity)
                    &&& *v == old(self)@[entity]
                    &&& final(self)@ == old(self)@.insert(entity, *final(v))
                    &&& final(self).dense_components() == old(self).dense_components().update(
                        old(self).index_map()[entity.spec_key()] as int,
                        *final(v),
                    )
                },
                None => {
                    &&& !old(self)@.contains_key(entity)
                    &&& final(self)@ == old(self)@
                    &&& final(self).dense_components() == old(self).dense_components()
                },
            },
    {
        let key = entity.key();
        match self.entity_to_index.get(&key) {
            Some(index) => {
                let index = *index;
                proof {
                    assert forall|k: u128| #[trigger]
                        self.entity_to_index@.contains_key(k) && self.entity_to_index@[k]
                            == self.entity_to_index@[key] implies k == key by {
                        assert(self.index_to_entity@[index as int].spec_key() == key);
                    }
                    lemma_dense_view_update(self.entity_to_index@, self.components@, entity);
                }
                let v = &mut self.components[index];
                Some(v)
            },
            None => {
                assert(self@ =~= old(self)@);
                None
            },
        }
    }

    /// Check if an entity has a component here
    pub fn contains(&self, entity: Entity) -> (r: bool)
        requires
            self.wf(),
        ensures
            r == self@.contains_key(entity),
    {
        let key = entity.key();
        self.entity_to_index.contains_key(&key)
    }

    /// Clear all components
    pub fn clear(&mut self)
        requires
            old(self).wf(),
        ensures
            final(self).wf(),
            final(self)@ == Map::<Entity, T>::empty(),
            final(self).dense_entities() == Seq::<Entity>::empty(),
            final(self).dense_components() == Seq::<T>::empty(),
    {
        self.entity_to_index.clear();
        self.index_to_entity.clear();
        self.components.clear();
        assert(self@ =~= Map::<Entity, T>::empty());
    }
}


/// The dense layout of a well-formed storage: no entity appears twice in
/// the dense entity array, the array holds exactly the stored entities, the
/// two dense arrays have one length, and the component at each dense index
/// is the component of the entity at that index.
pub proof fn law_soa_dense_layout<T: Component + Copy>(s: SoAStorage<T>)
    requires
        s.wf(),
    ensures
        s.dense_entities().no_duplicates(),
        s.dense_entities().len() == s.dense_components().len(),
        s.dense_entities().to_set() == s@.dom(),
        forall|i: int|
            0 <= i < s.dense_entities().len() ==> s@[#[trigger] s.dense_entities()[i]]
                == s.dense_components()[i],
{
    s.lemma_dense_layout();
}

/// In a well-formed storage the index map and the contents agree: an
/// entity is stored exactly when its key has a dense index; that index
/// holds the entity and its component; the entity at each dense index is
/// mapped back to that index; and there are as many stored entities as
/// dense slots.
pub proof fn law_soa_index_layout<T: Component + Copy>(s: SoAStorage<T>)
    requires
        s.wf(),
    ensures
        forall|e: Entity| #[trigger] s@.contains_key(e) <==> s.index_map().contains_key(e.spec_key()),
        forall|e: Entity|
            #[trigger] s@.contains_key(e) ==> {
                &&& s.index_map()[e.spec_key()] < s.dense_entities().len()
                &&& s.dense_entities()[s.index_map()[e.spec_key()] as int] == e
                &&& s@[e] == s.dense_components()[s.index_map()[e.spec_key()] as int]
            },
        forall|i: int|
            0 <= i < s.dense_entities().len() ==> {
                &&& s.index_map().contains_key((#[trigger] s.dense_entities()[i]).spec_key())
                &&& s.index_map()[s.dense_entities()[i].spec_key()] == i
            },
        s@.dom().finite(),
        s@.dom().len() == s.dense_entities().len(),
{
    assert forall|e: Entity| #[trigger] s@.contains_key(e) implies {
        &&& s.index_map()[e.spec_key()] < s.dense_entities().len()
        &&& s.dense_entities()[s.index_map()[e.spec_key()] as int] == e
        &&& s@[e] == s.dense_components()[s.index_map()[e.spec_key()] as int]
    } by {
        let k = e.spec_key();
        let j = s.index_map()[k] as int;
        Entity::lemma_key_injective(s.dense_entities()[j], e);
    }
    s.lemma_dense_layout();
    s.dense_entities().unique_seq_to_set();
}

/// Inserting a component for an entity that has none, then removing it,
/// gives back the storage's contents unchanged; while inserted, it is what
/// a lookup finds. (Both storages state insertion and removal over their
/// view in these terms.)
pub proof fn law_remove_undoes_insert<T>(before: Map<Entity, T>, e: Entity, c: T)
    requires
        !before.contains_key(e),
    ensures
        before.insert(e, c).contains_key(e),
        before.insert(e, c)[e] == c,
        before.insert(e, c).remove(e) == before,
{
    assert(before.insert(e, c).remove(e) =~= before);
}


impl<T: Component> Default for HashMapStorage<T> {
    fn default() -> (s: Self)
        ensures
            s@ == Map::<Entity, T>::empty(),
    {
        Self::new()
    }
}

impl<T: Component + Copy> Default for SoAStorage<T> {
    fn default() -> (s: Self)
        ensures
            s.wf(),
            s@ == Map::<Entity, T>::empty(),
            s.dense_entities() == Seq::<Entity>::empty(),
            s.dense_components() == Seq::<T>::empty(),
    {
        Self::new()
    }
}

} // verus!
