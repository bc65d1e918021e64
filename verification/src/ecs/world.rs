//! World management
//!
//! The World is the central container for all ECS data, managing entity
//! lifecycles. Identifiers are handed out in increasing order; destroying an
//! entity bumps the generation recorded for its identifier.

use crate::ecs::entity::{lemma_key_parts, spec_entity_key, Entity};
use std::collections::HashSet;
use vstd::prelude::*;

verus! {

broadcast use vstd::std_specs::hash::group_hash_axioms;

/// The main ECS world container
///
/// World manages entity lifecycles and serves as the central access point
/// for all ECS operations.
pub struct World {
    next_entity_id: u64,
    entity_generations: Vec<u32>,
    alive_entities: HashSet<u128>,
}

/// The generation that follows `g`, wrapping around after `u32::MAX`.
pub open spec fn next_generation(g: u32) -> u32 {
    if g == u32::MAX {
        0
    } else {
        (g + 1) as u32
    }
}

/// `after` is `before` with `e` created in it: `e` takes the next identifier
/// with generation zero and becomes alive; nothing else changes.
pub open spec fn create_step(before: World, after: World, e: Entity) -> bool {
    &&& after.wf()
    &&& e.spec_id() == before.next_id()
    &&& e.spec_generation() == 0
    &&& after.next_id() == before.next_id() + 1
    &&& after.generations() == before.generations().push(0)
    &&& !before.alive_keys().contains(e.spec_key())
    &&& after.alive_keys() == before.alive_keys().insert(e.spec_key())
}

/// `after` is `before` with `e` destroyed; `r` tells whether `e` was alive.
/// Destroying a live entity bumps the generation of its identifier.
pub open spec fn destroy_step(before: World, after: World, e: Entity, r: bool) -> bool {
    &&& after.wf()
    &&& r == before.alive_keys().contains(e.spec_key())
    &&& after.next_id() == before.next_id()
    &&& after.alive_keys() == before.alive_keys().remove(e.spec_key())
    &&& r ==> after.generations() == before.generations().update(
        e.spec_id() as int,
        next_generation(before.generations()[e.spec_id() as int]),
    ) && e.spec_id() < before.next_id()
    &&& !r ==> after.generations() == before.generations()
}

/// `e` was handed out by the world and is no longer alive.
pub open spec fn is_stale(w: World, e: Entity) -> bool {
    e.spec_id() < w.next_id() && !w.alive().contains(e)
}


impl World {
    /// The identifier the next created entity receives.
    pub closed spec fn next_id(&self) -> nat {
        self.next_entity_id as nat
    }

    /// The generation recorded for each identifier handed out so far.
    pub closed spec fn generations(&self) -> Seq<u32> {
        self.entity_generations@
    }

    /// The keys of the entities that are alive.
    pub closed spec fn alive_keys(&self) -> Set<u128> {
        self.alive_entities@
    }

    /// The entities that are alive.
    pub open spec fn alive(&self) -> Set<Entity> {
        Set::new(|e: Entity| self.alive_keys().contains(e.spec_key()))
    }

    /// Internal consistency: one generation per identifier handed out, and
    /// every live entity is the current generation of such an identifier.
    pub closed spec fn wf(&self) -> bool {
        &&& self.entity_generations@.len() == self.next_entity_id
        &&& self.alive_entities@.finite()
        &&& forall|k: u128| #[trigger]
            self.alive_entities@.contains(k) ==> {
                &&& k / 0x1_0000_0000 < self.next_entity_id
                &&& k % 0x1_0000_0000 == self.entity_generations@[(k / 0x1_0000_0000) as int]
            }
    }

    /// Create a new empty world
    pub fn new() -> (w: Self)
        ensures
            w.wf(),
            w.next_id() == 0,
            w.generations() == Seq::<u32>::empty(),
            w.alive_keys() == Set::<u128>::empty(),
    {
        World {
            next_entity_id: 0,
            entity_generations: Vec::new(),
            alive_entities: HashSet::new(),
        }
    }

    /// Create a new entity
    ///
    /// The entity takes the next identifier and the generation recorded for
    /// it (zero, as identifiers are never handed out twice between clears).
    pub fn create_entity(&mut self) -> (e: Entity)
        requires
            old(self).wf(),
            old(self).next_id() < u64::MAX,
            old(self).next_id() < usize::MAX,
        ensures
            create_step(*old(self), *final(self), e),
            final(self).alive_keys().len() == old(self).alive_keys().len() + 1,
    {
        let id = self.next_entity_id;
        self.next_entity_id = self.next_entity_id + 1;

        if id as usize >= self.entity_generations.len() {
            self.entity_generations.resize(id as usize + 1, 0);
        }
        let generation = self.entity_generations[id as usize];
        proof {
            assert(self.entity_generations@ =~= old(self).entity_generations@.push(0));
        }
        let entity = Entity::new(id, generation);
        let key = entity.key();
        proof {
            lemma_key_parts(id, generation);
        }
        self.alive_entities.insert(key);
        proof {
            assert forall|k: u128| #[trigger] self.alive_entities@.contains(k) implies {
                &&& k / 0x1_0000_0000 < self.next_entity_id
                &&& k % 0x1_0000_0000 == self.entity_generations@[(k / 0x1_0000_0000) as int]
            } by {
                if k != key {
                    assert(old(self).alive_entities@.contains(k));
                }
            }
        }
        entity
    }

    /// Destroy an entity
    ///
    /// This increments the generation counter to invalidate old references.
    /// Returns whether the entity was alive.
    pub fn destroy_entity(&mut self, entity: Entity) -> (r: bool)
        requires
            old(self).wf(),
        ensures
            destroy_step(*old(self), *final(self), entity, r),
            r ==> final(self).alive_keys().len() == old(self).alive_keys().len() - 1,
            !r ==> final(self).alive_keys().len() == old(self).alive_keys().len(),
    {
        let key = entity.key();
        if self.alive_entities.remove(&key) {
            proof {
                lemma_key_parts(entity.spec_id(), entity.spec_generation());
                assert(old(self).alive_entities@.contains(key));
            }
            assert(entity.spec_id() < self.entity_generations@.len());
            let id = entity.id().raw() as usize;
            if id < self.entity_generations.len() {
                let g = self.entity_generations[id].wrapping_add(1);
                self.entity_generations.set(id, g);
            }
            proof {
                assert forall|k: u128| #[trigger] self.alive_entities@.contains(k) implies {
                    &&& k / 0x1_0000_0000 < self.next_entity_id
                    &&& k % 0x1_0000_0000 == self.entity_generations@[(k / 0x1_0000_0000) as int]
                } by {
                    assert(old(self).alive_entities@.contains(k));
                    if k / 0x1_0000_0000 == entity.spec_id() {
                        // only one live key per identifier
                        assert(k % 0x1_0000_0000 == entity.spec_generation());
                        vstd::arithmetic::div_mod::lemma_fundamental_div_mod(
                            k as int,
                            0x1_0000_0000,
                        );
                        assert(k == key);
                    }
                }
            }
            true
        } else {
            false
        }
    }

    /// Check if an entity is alive
    pub fn is_entity_alive(&self, entity: Entity) -> (r: bool)
        requires
            self.wf(),
        ensures
            r == self.alive().contains(entity),
    {
        let key = entity.key();
        self.alive_entities.contains(&key)
    }

    /// Get the number of alive entities
    pub fn entity_count(&self) -> (n: usize)
        requires
            self.wf(),
        ensures
            n == self.alive_keys().len(),
    {
        self.alive_entities.len()
    }

    /// Get all alive entities, each once, in an unspecified order.
    pub fn entities(&self) -> (v: Vec<Entity>)
        requires
            self.wf(),
        ensures
            v@.no_duplicates(),
            v@.to_set() == self.alive(),
            v@.len() == self.alive_keys().len(),
    {
        let mut out: Vec<Entity> = Vec::new();
        let ghost keys = self.alive_entities@;
        let ghost mut seen: Seq<u128> = Seq::empty();
        for k in it: self.alive_entities.iter()
            invariant
                self.wf(),
                keys == self.alive_entities@,
                it.seq().unref().to_set() == keys,
                it.seq().no_duplicates(),
                out@.len() == it.index(),
                seen == it.seq().unref().take(it.index() as int),
                it.index() == it.seq().len() ==> seen.to_set() == keys,
                forall|j: int| 0 <= j < it.index() ==> (#[trigger] out@[j]).spec_key() == seen[j],
        {
            let key = *k;
            assert(keys.contains(key));
            proof {
                lemma_key_parts((key / 0x1_0000_0000) as u64, (key % 0x1_0000_0000) as u32);
            }
            let e = Entity::from_key(key);
            out.push(e);
            proof {
                seen = seen.push(key);
                assert(seen =~= it.seq().unref().take(seen.len() as int));
                assert(seen.len() == it.seq().len() ==> seen =~= it.seq().unref());
            }
        }
        proof {
            let ks = seen;
            assert forall|e: Entity| #[trigger] out@.to_set().contains(e) <==> self.alive().contains(e) by {
                if out@.to_set().contains(e) {
                    let j = choose|j: int| 0 <= j < out@.len() && out@[j] == e;
                    assert(ks[j] == e.spec_key());
                    assert(ks.to_set().contains(ks[j]));
                }
                if self.alive().contains(e) {
                    assert(ks.to_set().contains(e.spec_key()));
                    assert(ks.contains(e.spec_key()));
                    let j = choose|j: int| 0 <= j < ks.len() && ks[j] == e.spec_key();
                    Entity::lemma_key_injective(out@[j], e);
                    assert(out@.contains(e));
                }
            }
            assert(out@.to_set() =~= self.alive());
        }
        out
    }

    /// Clear all entities
    pub fn clear(&mut self)
        requires
            old(self).wf(),
        ensures
            final(self).wf(),
            final(self).next_id() == 0,
            final(self).generations() == Seq::<u32>::empty(),
            final(self).alive_keys() == Set::<u128>::empty(),
    {
        self.alive_entities.clear();
        self.entity_generations.clear();
        self.next_entity_id = 0;
    }
}


/// Every live entity was handed out by the world: its identifier lies below
/// the next identifier to hand out.
pub proof fn law_alive_were_handed_out(w: World, e: Entity)
    requires
        w.wf(),
        w.alive().contains(e),
    ensures
        e.spec_id() < w.next_id(),
{
    lemma_key_parts(e.spec_id(), e.spec_generation());
}

/// Two entities created one after the other are different, and both are
/// alive afterwards.
pub proof fn law_created_entities_distinct(w0: World, w1: World, w2: World, e1: Entity, e2: Entity)
    requires
        w0.wf(),
        create_step(w0, w1, e1),
        create_step(w1, w2, e2),
    ensures
        e1 != e2,
        w2.alive().contains(e1),
        w2.alive().contains(e2),
{
}

/// Destroying a live entity makes it stale.
pub proof fn law_destroy_makes_stale(before: World, after: World, e: Entity)
    requires
        before.wf(),
        destroy_step(before, after, e, true),
    ensures
        is_stale(after, e),
{
    lemma_key_parts(e.spec_id(), e.spec_generation());
}

/// Creating an entity never revives a stale one, and never hands the stale
/// handle out again.
pub proof fn law_create_keeps_stale(before: World, after: World, e: Entity, created: Entity)
    requires
        before.wf(),
        is_stale(before, e),
        create_step(before, after, created),
    ensures
        is_stale(after, e),
        created != e,
{
    Entity::lemma_key_injective(e, created);
}

/// Destroying any entity keeps a stale entity stale.
pub proof fn law_destroy_keeps_stale(before: World, after: World, e: Entity, other: Entity, r: bool)
    requires
        before.wf(),
        is_stale(before, e),
        destroy_step(before, after, other, r),
    ensures
        is_stale(after, e),
{
}

/// Destroying an entity a second time reports that it was not alive and
/// changes nothing.
pub proof fn law_double_destroy(w0: World, w1: World, w2: World, e: Entity, r: bool)
    requires
        w0.wf(),
        destroy_step(w0, w1, e, true),
        destroy_step(w1, w2, e, r),
    ensures
        !r,
        w2.next_id() == w1.next_id(),
        w2.generations() == w1.generations(),
        w2.alive_keys() == w1.alive_keys(),
{
    assert(w2.alive_keys() =~= w1.alive_keys());
}


impl Default for World {
    fn default() -> (w: Self)
        ensures
            w.wf(),
            w.next_id() == 0,
            w.generations() == Seq::<u32>::empty(),
            w.alive_keys() == Set::<u128>::empty(),
    {
        Self::new()
    }
}


/// One call that changes a world: creating an entity (the one returned),
/// or destroying an entity (with whether it was alive).
pub enum WorldStep {
    Create(Entity),
    Destroy(Entity, bool),
}

/// `after` is `before` changed by `step`.
pub open spec fn world_step(before: World, after: World, step: WorldStep) -> bool {
    match step {
        WorldStep::Create(e) => create_step(before, after, e),
        WorldStep::Destroy(e, r) => destroy_step(before, after, e, r),
    }
}

/// `worlds` is a history of `steps`: step `k` takes world `k` to world
/// `k + 1`.
pub open spec fn is_history(worlds: Seq<World>, steps: Seq<WorldStep>) -> bool {
    &&& worlds.len() == steps.len() + 1
    &&& forall|k: int| 0 <= k < steps.len() ==> #[trigger] world_step(worlds[k], worlds[k + 1], steps[k])
}

/// Within a history, an entity created before world `k` has an identifier
/// below that world's next identifier, and at least the first world's.
proof fn lemma_created_below_next(worlds: Seq<World>, steps: Seq<WorldStep>, k: int)
    requires
        is_history(worlds, steps),
        0 <= k <= steps.len(),
    ensures
        worlds[0].next_id() <= worlds[k].next_id(),
        forall|j: int|
            0 <= j < k ==> (#[trigger] steps[j] matches WorldStep::Create(e) ==> worlds[0].next_id()
                <= e.spec_id() < worlds[k].next_id()),
    decreases k,
{
    if k > 0 {
        let m = k - 1;
        lemma_created_below_next(worlds, steps, m);
        assert(world_step(worlds[m], worlds[m + 1], steps[m]));
        assert(worlds[m + 1] == worlds[k]);
    }
}

/// Over any history of creations and destructions, the world never hands
/// out a handle twice: every created entity differs from every entity
/// created before it in the history, and from every handle handed out
/// before the history began (whose identifier lies below the first world's
/// next identifier). Each created entity is alive right after its creation.
pub proof fn law_handles_never_reissued(worlds: Seq<World>, steps: Seq<WorldStep>)
    requires
        is_history(worlds, steps),
    ensures
        forall|j: int, k: int|
            0 <= j < k < steps.len() ==> (#[trigger] steps[j] matches WorldStep::Create(a) ==> (
            #[trigger] steps[k] matches WorldStep::Create(b) ==> a != b)),
        forall|k: int, old_handle: Entity|
            #![trigger steps[k], old_handle.spec_id()]
            0 <= k < steps.len() && old_handle.spec_id() < worlds[0].next_id() ==> (steps[k] matches WorldStep::Create(
                b,
            ) ==> b != old_handle),
        forall|k: int|
            0 <= k < steps.len() ==> (#[trigger] steps[k] matches WorldStep::Create(b) ==> worlds[k
                + 1].alive().contains(b)),
{
    assert forall|j: int, k: int|
        0 <= j < k < steps.len() implies (#[trigger] steps[j] matches WorldStep::Create(a) ==> (
        #[trigger] steps[k] matches WorldStep::Create(b) ==> a != b)) by {
        lemma_created_below_next(worlds, steps, k);
        assert(world_step(worlds[k], worlds[k + 1], steps[k]));
    }
    assert forall|k: int, old_handle: Entity|
        #![trigger steps[k], old_handle.spec_id()]
        0 <= k < steps.len() && old_handle.spec_id() < worlds[0].next_id() implies (steps[k] matches WorldStep::Create(
            b,
        ) ==> b != old_handle) by {
        lemma_created_below_next(worlds, steps, k);
        assert(world_step(worlds[k], worlds[k + 1], steps[k]));
    }
    assert forall|k: int| 0 <= k < steps.len() implies (#[trigger] steps[k] matches WorldStep::Create(
        b,
    ) ==> worlds[k + 1].alive().contains(b)) by {
        assert(world_step(worlds[k], worlds[k + 1], steps[k]));
    }
}

} // verus!
