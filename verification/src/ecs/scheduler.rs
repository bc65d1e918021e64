//! System scheduler with staged execution
//!
//! Systems are organized into stages that execute in increasing order;
//! within a stage, systems run in the order they were added.

use crate::ecs::system::{runs_in_order, states_of, System};
use crate::ecs::world::World;
use vstd::prelude::*;

/// Pre-defined standard stages
pub mod stages;

verus! {

/// Stage identifier for grouping systems
///
/// Systems in the same stage may run together, while stages execute in
/// increasing order.
#[derive(Debug, Clone, Copy, PartialEq, Eq, PartialOrd, Ord, Hash, Structural)]
pub struct StageId(pub usize);

impl StageId {
    /// Create a new stage ID
    pub fn new(id: usize) -> (s: Self)
        ensures
            s.0 == id,
    {
        StageId(id)
    }
}

/// A system with the stage it is scheduled in and the position at which it
/// was added
struct ScheduledSystem<S> {
    system: S,
    stage: StageId,
    ticket: Ghost<nat>,
}

/// The stage number of a scheduled entry.
pub open spec fn stage_of<S>(e: (S, usize)) -> usize {
    e.1
}

/// The entries scheduled in stage `k`, in their relative order.
pub open spec fn in_stage<S>(s: Seq<(S, usize)>, k: usize) -> Seq<(S, usize)> {
    s.filter(stage_pred(k))
}

/// Whether an entry is scheduled in stage `k`.
pub open spec fn stage_pred<S>(k: usize) -> spec_fn((S, usize)) -> bool {
    |e: (S, usize)| e.1 == k
}

/// Stages never decrease along `s`.
pub open spec fn stages_ascending<S>(s: Seq<(S, usize)>) -> bool {
    forall|i: int, j: int| 0 <= i <= j < s.len() ==> s[i].1 <= s[j].1
}

/// `after` is `before` stably sorted by stage: stages ascend, and within
/// every stage the entries keep their relative order (so `after` is a
/// permutation of `before`).
pub open spec fn stable_stage_sort<S>(before: Seq<(S, usize)>, after: Seq<(S, usize)>) -> bool {
    &&& stages_ascending(after)
    &&& after.len() == before.len()
    &&& forall|k: usize| #[trigger] in_stage(after, k) == in_stage(before, k)
}

/// The number of stages in use: one more than the largest stage number, or
/// zero when nothing is scheduled.
pub open spec fn stages_in_use<S>(s: Seq<(S, usize)>) -> nat
    decreases s.len(),
{
    if s.len() == 0 {
        0
    } else {
        let rest = stages_in_use(s.drop_last());
        if s.last().1 + 1 > rest {
            (s.last().1 + 1) as nat
        } else {
            rest
        }
    }
}

/// The stage numbers along `s`.
pub open spec fn stage_numbers<S>(s: Seq<(S, usize)>) -> Seq<usize> {
    s.map_values(|e: (S, usize)| e.1)
}

/// A stage present in an ascending sequence is at most the stage of its
/// last entry.
proof fn lemma_stage_at_most_last<S>(a: Seq<(S, usize)>, k: usize)
    requires
        stages_ascending(a),
        in_stage(a, k).len() > 0,
    ensures
        a.len() > 0,
        k <= a.last().1,
{
    a.lemma_filter_len(stage_pred(k));
    a.lemma_filter_pred(stage_pred(k), 0);
    let e = in_stage(a, k)[0];
    assert(in_stage(a, k).contains(e));
    a.lemma_filter_contains_rev(stage_pred(k), e);
    let j = choose|j: int| 0 <= j < a.len() && a[j] == e;
    assert(a[j].1 <= a[a.len() - 1].1);
}

/// The last entry of a non-empty sequence closes the list of its stage.
proof fn lemma_last_closes_its_stage<S>(a: Seq<(S, usize)>)
    requires
        a.len() > 0,
    ensures
        in_stage(a, a.last().1) == in_stage(a.drop_last(), a.last().1).push(a.last()),
        forall|k: usize| k != a.last().1 ==> #[trigger] in_stage(a, k) == in_stage(a.drop_last(), k),
{
    assert(a =~= a.drop_last().push(a.last()));
    a.drop_last().lemma_filter_push(a.last(), stage_pred(a.last().1));
    assert forall|k: usize| k != a.last().1 implies #[trigger] in_stage(a, k) == in_stage(a.drop_last(), k) by {
        a.drop_last().lemma_filter_push(a.last(), stage_pred(k));
    }
}

/// Two sequences with ascending stages that agree stage by stage are equal.
proof fn lemma_stagewise_equal<S>(a: Seq<(S, usize)>, b: Seq<(S, usize)>)
    requires
        stages_ascending(a),
        stages_ascending(b),
        a.len() == b.len(),
        forall|k: usize| #[trigger] in_stage(a, k) == in_stage(b, k),
    ensures
        a == b,
    decreases a.len(),
{
    if a.len() == 0 {
        assert(a =~= b);
    } else {
        let m = a.last().1;
        let mb = b.last().1;
        lemma_last_closes_its_stage(a);
        lemma_last_closes_its_stage(b);
        assert(in_stage(b, mb) == in_stage(a, mb));
        lemma_stage_at_most_last(a, mb);
        assert(in_stage(a, m) == in_stage(b, m));
        lemma_stage_at_most_last(b, m);
        assert(m == mb);
        let x = a.last();
        assert(in_stage(a, m).last() == x);
        assert(in_stage(b, m).last() == b.last());
        assert(b.last() == x);
        let a1 = a.drop_last();
        let b1 = b.drop_last();
        assert forall|k: usize| #[trigger] in_stage(a1, k) == in_stage(b1, k) by {
            if k == m {
                assert(in_stage(a1, k) =~= in_stage(a, k).drop_last());
                assert(in_stage(b1, k) =~= in_stage(b, k).drop_last());
            } else {
                assert(in_stage(a, k) == in_stage(a1, k));
                assert(in_stage(b, k) == in_stage(b1, k));
                assert(in_stage(a, k) == in_stage(b, k));
            }
        }
        lemma_stagewise_equal(a1, b1);
        assert(a =~= a1.push(x));
        assert(b =~= b1.push(x));
    }
}

/// The stable sort by stage of a schedule is unique: the order in which a
/// scheduler runs its systems is fully determined by the order in which
/// they were added and their stages.
pub proof fn law_stable_stage_sort_unique<S>(
    before: Seq<(S, usize)>,
    a: Seq<(S, usize)>,
    b: Seq<(S, usize)>,
)
    requires
        stable_stage_sort(before, a),
        stable_stage_sort(before, b),
    ensures
        a == b,
{
    lemma_stagewise_equal(a, b);
}

/// The systems of a schedule, in its order.
pub open spec fn systems_of<S>(s: Seq<((S, nat), usize)>) -> Seq<S> {
    s.map_values(|e: ((S, nat), usize)| e.0.0)
}

/// The insertion tickets of a schedule, in its order.
pub open spec fn tickets_of<S>(s: Seq<((S, nat), usize)>) -> Seq<nat> {
    s.map_values(|e: ((S, nat), usize)| e.0.1)
}

/// The scheduled entries of a list of scheduled systems.
spec fn scheduled_view<S>(v: Seq<ScheduledSystem<S>>) -> Seq<((S, nat), usize)> {
    v.map_values(|e: ScheduledSystem<S>| ((e.system, e.ticket@), e.stage.0))
}

/// Inserting `x` just before the first entry of a later stage keeps the
/// stages ascending and appends `x` to its own stage.
proof fn lemma_insert_in_stage_order<S>(s: Seq<(S, usize)>, p: int, x: (S, usize))
    requires
        stages_ascending(s),
        0 <= p <= s.len(),
        forall|i: int| 0 <= i < p ==> (#[trigger] s[i]).1 <= x.1,
        forall|i: int| p <= i < s.len() ==> (#[trigger] s[i]).1 > x.1,
    ensures
        stages_ascending(s.insert(p, x)),
        forall|k: usize|
            #[trigger] in_stage(s.insert(p, x), k) == if k == x.1 {
                in_stage(s, k).push(x)
            } else {
                in_stage(s, k)
            },
{
    broadcast use vstd::seq_lib::group_seq_properties;

    let a = s.take(p);
    let b = s.skip(p);
    assert(s.insert(p, x) =~= a + seq![x] + b);
    assert(s =~= a + b);
    assert forall|k: usize|
        #[trigger] in_stage(s.insert(p, x), k) == if k == x.1 {
            in_stage(s, k).push(x)
        } else {
            in_stage(s, k)
        } by {
        let pred = stage_pred(k);
        Seq::filter_distributes_over_add(a + seq![x], b, pred);
        Seq::filter_distributes_over_add(a, seq![x], pred);
        Seq::filter_distributes_over_add(a, b, pred);
        assert(seq![x] =~= Seq::<(S, usize)>::empty().push(x));
        Seq::<(S, usize)>::empty().lemma_filter_push(x, pred);
        assert(Seq::<(S, usize)>::empty().filter(pred) =~= Seq::<(S, usize)>::empty());
        if k == x.1 {
            if b.filter(pred).len() > 0 {
                b.lemma_filter_pred(pred, 0);
                let e = b.filter(pred)[0];
                assert(pred(e));
                assert(b.contains(e)) by {
                    b.lemma_filter_contains_rev(pred, e);
                }
                let j = choose|j: int| 0 <= j < b.len() && b[j] == e;
                assert(s[p + j] == b[j]);
            }
            assert(b.filter(pred) =~= Seq::<(S, usize)>::empty());
            assert((a.filter(pred) + seq![x]) + Seq::<(S, usize)>::empty() =~= a.filter(pred).push(x));
            assert(a.filter(pred) + Seq::<(S, usize)>::empty() =~= a.filter(pred));
        } else {
            assert(a.filter(pred) + Seq::<(S, usize)>::empty() =~= a.filter(pred));
        }
    }
}

/// System scheduler with support for staged execution
pub struct Scheduler<S: System> {
    systems: Vec<ScheduledSystem<S>>,
}

impl<S: System> Scheduler<S> {
    /// The scheduled systems, each with the position at which it was added
    /// (its ticket) and its stage number, in current order.
    pub closed spec fn entries(&self) -> Seq<((S, nat), usize)> {
        scheduled_view(self.systems@)
    }

    /// Create a new scheduler
    pub fn new() -> (s: Self)
        ensures
            s.entries() == Seq::<((S, nat), usize)>::empty(),
    {
        let s = Scheduler { systems: Vec::new() };
        assert(s.entries() =~= Seq::<((S, nat), usize)>::empty());
        s
    }

    /// Create a scheduler with room for systems of `stage_count` stages
    /// (an estimated four systems per stage)
    pub fn with_stages(stage_count: usize) -> (s: Self)
        requires
            stage_count * 4 <= usize::MAX,
        ensures
            s.entries() == Seq::<((S, nat), usize)>::empty(),
    {
        let s = Scheduler { systems: Vec::with_capacity(stage_count * 4) };
        assert(s.entries() =~= Seq::<((S, nat), usize)>::empty());
        s
    }

    /// Add a system to a specific stage
    pub fn add_system(&mut self, system: S, stage: StageId)
        ensures
            final(self).entries() == old(self).entries().push(((system, old(self).entries().len()), stage.0)),
    {
        let ghost ticket = self.systems@.len();
        self.systems.push(ScheduledSystem { system, stage, ticket: Ghost(ticket) });
        assert(self.entries() =~= old(self).entries().push(((system, old(self).entries().len()), stage.0)));
    }

    /// Add a system to the default integration stage
    pub fn add_system_default(&mut self, system: S)
        ensures
            final(self).entries() == old(self).entries().push(((system, old(self).entries().len()), 2)),
    {
        self.add_system(system, stages::INTEGRATION());
    }

    /// Get the number of registered systems
    pub fn system_count(&self) -> (n: usize)
        ensures
            n == self.entries().len(),
    {
        self.systems.len()
    }

    /// Get the number of stages in use
    pub fn stage_count(&self) -> (n: usize)
        requires
            forall|i: int| 0 <= i < self.entries().len() ==> (#[trigger] self.entries()[i]).1 < usize::MAX,
        ensures
            n == stages_in_use(self.entries()),
    {
        let n = self.systems.len();
        let mut count: usize = 0;
        let mut i: usize = 0;
        while i < n
            invariant
                n == self.systems@.len(),
                i <= n,
                count == stages_in_use(self.entries().take(i as int)),
                forall|j: int| 0 <= j < self.entries().len() ==> (#[trigger] self.entries()[j]).1 < usize::MAX,
            decreases n - i,
        {
            proof {
                assert(self.entries().take(i + 1).drop_last() =~= self.entries().take(i as int));
            }
            let stage = self.systems[i].stage.0;
            assert(self.entries()[i as int].1 == stage);
            if stage >= count {
                count = stage + 1;
            }
            i = i + 1;
        }
        assert(self.entries().take(n as int) =~= self.entries());
        count
    }

    /// Reorder the systems by stage, keeping the order in which systems of
    /// one stage were added
    pub fn sort_by_stage(&mut self)
        ensures
            stable_stage_sort(old(self).entries(), final(self).entries()),
    {
        let mut remaining: Vec<ScheduledSystem<S>> = Vec::new();
        std::mem::swap(&mut remaining, &mut self.systems);
        let ghost orig = scheduled_view(remaining@);
        assert(orig == old(self).entries());
        let mut sorted: Vec<ScheduledSystem<S>> = Vec::new();
        let ghost mut done: int = 0;
        while remaining.len() > 0
            invariant
                0 <= done <= orig.len(),
                scheduled_view(remaining@) == orig.skip(done),
                stages_ascending(scheduled_view(sorted@)),
                scheduled_view(sorted@).len() == done,
                forall|k: usize| #[trigger] in_stage(scheduled_view(sorted@), k) == in_stage(orig.take(done), k),
            decreases remaining@.len(),
        {
            let ghost rv = scheduled_view(remaining@);
            let ghost raw = remaining@;
            let item = remaining.remove(0);
            let ghost x = ((item.system, item.ticket@), item.stage.0);
            assert(x == rv[0]);
            let st = item.stage.0;
            let mut p: usize = 0;
            let ghost sv = scheduled_view(sorted@);
            while p < sorted.len() && sorted[p].stage.0 <= st
                invariant
                    sv == scheduled_view(sorted@),
                    stages_ascending(sv),
                    p <= sorted@.len(),
                    forall|i: int| 0 <= i < p ==> (#[trigger] sv[i]).1 <= st,
                decreases sorted@.len() - p,
            {
                assert(sv[p as int].1 == sorted@[p as int].stage.0);
                p = p + 1;
            }
            proof {
                assert forall|i: int| p <= i < sv.len() implies (#[trigger] sv[i]).1 > x.1 by {
                    assert(sv[p as int].1 == sorted@[p as int].stage.0);
                    assert(sv[p as int].1 > st);
                }
                lemma_insert_in_stage_order(sv, p as int, x);
            }
            sorted.insert(p, item);
            proof {
                assert(scheduled_view(sorted@) =~= sv.insert(p as int, x));
                assert(rv == orig.skip(done));
                assert(rv.len() > 0);
                assert(done < orig.len());
                assert(x == orig[done]) by {
                    assert(orig.skip(done)[0] == orig[done]);
                }
                assert(orig.take(done + 1) =~= orig.take(done).push(x));
                assert(remaining@ =~= raw.skip(1));
                assert(scheduled_view(remaining@) =~= rv.skip(1));
                assert(scheduled_view(remaining@) =~= orig.skip(done + 1));
                assert forall|k: usize| #[trigger] in_stage(scheduled_view(sorted@), k) == in_stage(orig.take(done + 1), k) by {
                    orig.take(done).lemma_filter_push(x, stage_pred(k));
                }
                done = done + 1;
            }
        }
        proof {
            assert(orig.take(done) =~= orig);
        }
        self.systems = sorted;
    }

    /// Execute all systems sequentially in stage order
    ///
    /// Systems are first sorted by stage (stably), then run one after the
    /// other in that order.
    pub fn run_sequential(&mut self, world: &mut World)
        ensures
            exists|sorted: Seq<((S, nat), usize)>, states: Seq<Seq<int>>, worlds: Seq<World>|
                #![trigger stable_stage_sort(old(self).entries(), sorted), runs_in_order(systems_of(sorted), states, worlds)]
                {
                    &&& stable_stage_sort(old(self).entries(), sorted)
                    &&& stage_numbers(sorted) == stage_numbers(final(self).entries())
                    &&& tickets_of(sorted) == tickets_of(final(self).entries())
                    &&& runs_in_order(systems_of(sorted), states, worlds)
                    &&& states_of(systems_of(final(self).entries())) == states
                    &&& worlds[0] == *old(world)
                    &&& worlds.last() == *final(world)
                },
    {
        self.sort_by_stage();
        let ghost sorted = self.entries();
        let n = self.systems.len();
        let mut i: usize = 0;
        let ghost mut worlds: Seq<World> = seq![*world];
        let ghost mut states: Seq<Seq<int>> = Seq::empty();
        while i < n
            invariant
                n == self.systems@.len(),
                n == sorted.len(),
                i <= n,
                stage_numbers(self.entries()) == stage_numbers(sorted),
                tickets_of(self.entries()) == tickets_of(sorted),
                worlds.len() == i + 1,
                states.len() == i,
                worlds[0] == *old(world),
                worlds[i as int] == *world,
                forall|j: int|
                    0 <= j < i ==> #[trigger] systems_of(sorted)[j].run_effect(states[j], worlds[j], worlds[j + 1]),
                forall|j: int| 0 <= j < i ==> #[trigger] self.systems@[j].system.state() == states[j],
                forall|j: int| i <= j < n ==> #[trigger] self.systems@[j].system == sorted[j].0.0,
            decreases n - i,
        {
            let ghost before = self.entries();
            let ghost world_before = *world;
            self.systems[i].system.run(world);
            proof {
                assert(stage_numbers(self.entries()) =~= stage_numbers(before));
                assert(tickets_of(self.entries()) =~= tickets_of(before));
                assert(systems_of(sorted)[i as int] == sorted[i as int].0.0);
                assert(systems_of(sorted)[i as int].run_effect(
                    self.systems@[i as int].system.state(),
                    world_before,
                    *world,
                ));
                worlds = worlds.push(*world);
                states = states.push(self.systems@[i as int].system.state());
            }
            i = i + 1;
        }
        proof {
            assert(runs_in_order(systems_of(sorted), states, worlds));
            assert forall|j: int| 0 <= j < n implies #[trigger] states_of(systems_of(self.entries()))[j]
                == states[j] by {
                assert(systems_of(self.entries())[j] == self.systems@[j].system);
            }
            assert(states_of(systems_of(self.entries())) =~= states);
        }
    }

    /// Execute all systems stage by stage
    ///
    /// Systems of one stage are not yet run concurrently, so this runs them
    /// in the same order as `run_sequential`.
    pub fn run_parallel(&mut self, world: &mut World)
        ensures
            exists|sorted: Seq<((S, nat), usize)>, states: Seq<Seq<int>>, worlds: Seq<World>|
                #![trigger stable_stage_sort(old(self).entries(), sorted), runs_in_order(systems_of(sorted), states, worlds)]
                {
                    &&& stable_stage_sort(old(self).entries(), sorted)
                    &&& stage_numbers(sorted) == stage_numbers(final(self).entries())
                    &&& tickets_of(sorted) == tickets_of(final(self).entries())
                    &&& runs_in_order(systems_of(sorted), states, worlds)
                    &&& states_of(systems_of(final(self).entries())) == states
                    &&& worlds[0] == *old(world)
                    &&& worlds.last() == *final(world)
                },
    {
        self.run_sequential(world);
    }

    /// Clear all systems from the scheduler
    pub fn clear(&mut self)
        ensures
            final(self).entries() == Seq::<((S, nat), usize)>::empty(),
    {
        self.systems.clear();
        assert(self.entries() =~= Seq::<((S, nat), usize)>::empty());
    }
}


impl<S: System> Default for Scheduler<S> {
    fn default() -> (s: Self)
        ensures
            s.entries() == Seq::<((S, nat), usize)>::empty(),
    {
        Self::new()
    }
}


/// The number of stages in use is zero for an empty schedule, and otherwise
/// one more than the largest stage number: every scheduled stage lies below
/// it, and some scheduled stage is exactly one below it.
pub proof fn law_stage_count<S>(s: Seq<(S, usize)>)
    ensures
        s.len() == 0 ==> stages_in_use(s) == 0,
        forall|i: int| 0 <= i < s.len() ==> #[trigger] s[i].1 < stages_in_use(s),
        s.len() > 0 ==> exists|i: int| 0 <= i < s.len() && #[trigger] s[i].1 + 1 == stages_in_use(s),
    decreases s.len(),
{
    if s.len() > 0 {
        let rest = s.drop_last();
        law_stage_count(rest);
        let n = s.len() as int;
        assert forall|i: int| 0 <= i < s.len() implies #[trigger] s[i].1 < stages_in_use(s) by {
            if i < n - 1 {
                assert(s[i] == rest[i]);
            }
        }
        if s.last().1 + 1 > stages_in_use(rest) {
            assert(s[n - 1].1 + 1 == stages_in_use(s));
        } else {
            let i = choose|i: int| 0 <= i < rest.len() && #[trigger] rest[i].1 + 1 == stages_in_use(rest);
            assert(s[i] == rest[i]);
            assert(s[i].1 + 1 == stages_in_use(s));
        }
    }
}

} // verus!
