//! System execution framework
//!
//! Systems contain the logic that operates on entities and components.

use crate::ecs::world::World;
use vstd::prelude::*;

verus! {

/// Trait for systems that operate on the ECS world
///
/// Systems are implemented by users of the library. What one run of a
/// system does to the world and to the system itself is the
/// implementation's own business. An implementation may describe its own
/// state with `state` (by default it shows nothing) and a run with
/// `run_effect` (by default anything is allowed); `run` is held to that
/// description. Likewise an implementation may describe its name with
/// `spec_name`, claiming so with `describes_name` (by default it claims
/// nothing).
pub trait System: Send + Sync {
    /// An abstraction of the system's own state.
    open spec fn state(&self) -> Seq<int> {
        Seq::empty()
    }

    /// Running the system, in state `self`, on `world_before` can leave the
    /// system in a state shown as `state_after` and the world as
    /// `world_after`.
    open spec fn run_effect(&self, state_after: Seq<int>, world_before: World, world_after: World) -> bool {
        true
    }

    /// Whether `spec_name` is the name `name` returns.
    open spec fn describes_name(&self) -> bool {
        false
    }

    /// The name of the system, where `describes_name` holds.
    open spec fn spec_name(&self) -> Seq<char> {
        Seq::empty()
    }

    /// Execute the system on the world
    fn run(&mut self, world: &mut World)
        ensures
            old(self).run_effect(final(self).state(), *old(world), *final(world)),
    ;

    /// Get the name of this system for debugging
    fn name(&self) -> (r: &str)
        ensures
            self.describes_name() ==> r@ == self.spec_name(),
    ;
}

/// A boxed system is a system, so one executor or scheduler can hold
/// systems of different types.
impl System for Box<dyn System> {
    open spec fn state(&self) -> Seq<int> {
        (**self).state()
    }

    open spec fn run_effect(&self, state_after: Seq<int>, world_before: World, world_after: World) -> bool {
        (**self).run_effect(state_after, world_before, world_after)
    }

    open spec fn describes_name(&self) -> bool {
        (**self).describes_name()
    }

    open spec fn spec_name(&self) -> Seq<char> {
        (**self).spec_name()
    }

    fn run(&mut self, world: &mut World) {
        (**self).run(world)
    }

    fn name(&self) -> &str {
        (**self).name()
    }
}

/// Running `systems` one after the other, each once and in order, can go
/// through `worlds` and leave the systems in `states`: system `j` takes
/// world `j` to world `j + 1` and is left in state `j`.
pub open spec fn runs_in_order<S: System>(systems: Seq<S>, states: Seq<Seq<int>>, worlds: Seq<World>) -> bool {
    &&& worlds.len() == systems.len() + 1
    &&& states.len() == systems.len()
    &&& forall|j: int|
        0 <= j < systems.len() ==> #[trigger] systems[j].run_effect(states[j], worlds[j], worlds[j + 1])
}

/// The states of a sequence of systems.
pub open spec fn states_of<S: System>(systems: Seq<S>) -> Seq<Seq<int>> {
    systems.map_values(|s: S| s.state())
}

/// A registered system with the position at which it was added.
struct Registered<S> {
    system: S,
    ticket: Ghost<nat>,
}

/// Executor for running systems in the order they were added
pub struct SystemExecutor<S: System> {
    systems: Vec<Registered<S>>,
}

impl<S: System> SystemExecutor<S> {
    /// The registered systems, in their stored order.
    pub closed spec fn entries(&self) -> Seq<S> {
        self.systems@.map_values(|e: Registered<S>| e.system)
    }

    /// For each stored system, the position at which it was added.
    pub closed spec fn tickets(&self) -> Seq<nat> {
        self.systems@.map_values(|e: Registered<S>| e.ticket@)
    }

    /// The number of registered systems.
    pub open spec fn count(&self) -> nat {
        self.entries().len()
    }

    /// Create a new system executor
    pub fn new() -> (e: Self)
        ensures
            e.entries() == Seq::<S>::empty(),
            e.tickets() == Seq::<nat>::empty(),
    {
        let e = SystemExecutor { systems: Vec::new() };
        assert(e.entries() =~= Seq::<S>::empty());
        assert(e.tickets() =~= Seq::<nat>::empty());
        e
    }

    /// Add a system to the executor
    pub fn add_system(&mut self, system: S)
        ensures
            final(self).entries() == old(self).entries().push(system),
            final(self).tickets() == old(self).tickets().push(old(self).count()),
    {
        let ghost ticket = self.systems@.len();
        self.systems.push(Registered { system, ticket: Ghost(ticket) });
        assert(self.entries() =~= old(self).entries().push(system));
        assert(self.tickets() =~= old(self).tickets().push(old(self).count()));
    }

    /// Run all systems sequentially, in the order they were added
    ///
    /// Each system runs once, on the world the previous one left, and stays
    /// where it was stored, in the state its run left it in.
    pub fn run_sequential(&mut self, world: &mut World)
        ensures
            final(self).count() == old(self).count(),
            final(self).tickets() == old(self).tickets(),
            exists|states: Seq<Seq<int>>, worlds: Seq<World>|
                #[trigger] runs_in_order(old(self).entries(), states, worlds) && worlds[0] == *old(world)
                    && worlds.last() == *final(world) && states_of(final(self).entries()) == states,
    {
        let n = self.systems.len();
        let mut i: usize = 0;
        let ghost mut worlds: Seq<World> = seq![*world];
        let ghost mut states: Seq<Seq<int>> = Seq::empty();
        while i < n
            invariant
                n == self.systems@.len(),
                n == old(self).systems@.len(),
                i <= n,
                worlds.len() == i + 1,
                states.len() == i,
                worlds[0] == *old(world),
                worlds[i as int] == *world,
                forall|j: int|
                    0 <= j < i ==> #[trigger] old(self).systems@[j].system.run_effect(
                        states[j],
                        worlds[j],
                        worlds[j + 1],
                    ),
                forall|j: int| 0 <= j < i ==> #[trigger] self.systems@[j].system.state() == states[j],
                forall|j: int| i <= j < n ==> #[trigger] self.systems@[j] == old(self).systems@[j],
                forall|j: int| 0 <= j < n ==> #[trigger] self.systems@[j].ticket == old(self).systems@[j].ticket,
            decreases n - i,
        {
            let ghost before = *world;
            self.systems[i].system.run(world);
            proof {
                assert(old(self).systems@[i as int].system.run_effect(
                    self.systems@[i as int].system.state(),
                    before,
                    *world,
                ));
                worlds = worlds.push(*world);
                states = states.push(self.systems@[i as int].system.state());
            }
            i = i + 1;
        }
        proof {
            assert(self.tickets() =~= old(self).tickets());
            assert forall|j: int| 0 <= j < old(self).entries().len() implies #[trigger] old(self).entries()[j].run_effect(
                states[j],
                worlds[j],
                worlds[j + 1],
            ) by {
                assert(old(self).entries()[j] == old(self).systems@[j].system);
            }
            assert(runs_in_order(old(self).entries(), states, worlds));
            assert(states_of(self.entries()) =~= states);
        }
    }

    /// Run all systems; independent systems are not yet run concurrently, so
    /// this runs them sequentially in the order they were added
    pub fn run_parallel(&mut self, world: &mut World)
        ensures
            final(self).count() == old(self).count(),
            final(self).tickets() == old(self).tickets(),
            exists|states: Seq<Seq<int>>, worlds: Seq<World>|
                #[trigger] runs_in_order(old(self).entries(), states, worlds) && worlds[0] == *old(world)
                    && worlds.last() == *final(world) && states_of(final(self).entries()) == states,
    {
        self.run_sequential(world);
    }

    /// Get the number of registered systems
    pub fn system_count(&self) -> (n: usize)
        ensures
            n == self.count(),
    {
        self.systems.len()
    }
}


impl<S: System> Default for SystemExecutor<S> {
    fn default() -> (e: Self)
        ensures
            e.entries() == Seq::<S>::empty(),
            e.tickets() == Seq::<nat>::empty(),
    {
        Self::new()
    }
}

} // verus!
