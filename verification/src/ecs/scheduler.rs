//! Systems and the order in which they run.

use crate::chunk::Chunk;
use crate::ecs::systems::{health_checked, Ecs, HealthSystem};
use vstd::prelude::*;

verus! {

/// A unit of the per-tick update. `C` is whatever else the host hands to
/// its systems each tick: the input snapshot, the text sink, the length of
/// the tick.
pub trait System<C>: Sized {
    /// What one run of the system does: whether it can take the system from
    /// `self` to `after`, and the world from `ecs`, `chunk` and `context` to
    /// the three that follow `after`. A system that does not say what it
    /// does may do anything that leaves the world well formed.
    open spec fn updated(
        &self,
        ecs: &Ecs,
        chunk: &Chunk,
        context: &C,
        after: &Self,
        ecs_after: &Ecs,
        chunk_after: &Chunk,
        context_after: &C,
    ) -> bool {
        true
    }

    /// Runs the system once. It may change components, blocks, column sets
    /// and the removal queue, and must leave the world well formed.
    fn update(&mut self, ecs: &mut Ecs, chunk: &mut Chunk, context: &mut C)
        requires
            old(ecs).manager.wf(),
            old(chunk).wf(),
        ensures
            final(ecs).manager.wf(),
            final(chunk).wf(),
            old(self).updated(
                old(ecs),
                old(chunk),
                old(context),
                final(self),
                final(ecs),
                final(chunk),
                final(context),
            ),
    ;
}

impl<C> System<C> for HealthSystem {
    /// The entities whose health is used up are queued, and nothing else
    /// changes.
    open spec fn updated(
        &self,
        ecs: &Ecs,
        chunk: &Chunk,
        context: &C,
        after: &Self,
        ecs_after: &Ecs,
        chunk_after: &Chunk,
        context_after: &C,
    ) -> bool {
        health_checked(ecs, ecs_after) && *chunk_after == *chunk && *context_after == *context
    }

    /// Queues the entities whose health is used up, and touches nothing
    /// else.
    fn update(&mut self, ecs: &mut Ecs, chunk: &mut Chunk, context: &mut C) {
        self.queue_dead(ecs);
    }
}

/// Whether the first `n` of the systems `before` can have run one after the
/// other, in their order, each once and each on what the one before it
/// left, and have taken the world (components, chunk and context) from
/// `start` to `end`, themselves becoming the first `n` of `after`.
pub open spec fn ran_in_order<S: System<C>, C>(
    before: Seq<S>,
    after: Seq<S>,
    start: (Ecs, Chunk, C),
    end: (Ecs, Chunk, C),
    n: int,
) -> bool
    decreases n,
{
    if n <= 0 {
        end == start
    } else {
        exists|mid: (Ecs, Chunk, C)|
            ran_in_order(before, after, start, mid, n - 1) && #[trigger] before[n - 1].updated(
                &mid.0,
                &mid.1,
                &mid.2,
                &after[n - 1],
                &end.0,
                &end.1,
                &end.2,
            )
    }
}

/// Whether the first `n` systems have run depends on the first `n` systems
/// alone.
pub proof fn lemma_ran_in_order_prefix<S: System<C>, C>(
    before: Seq<S>,
    after: Seq<S>,
    later: Seq<S>,
    start: (Ecs, Chunk, C),
    end: (Ecs, Chunk, C),
    n: int,
)
    requires
        ran_in_order(before, after, start, end, n),
        n <= before.len() && n <= after.len() && n <= later.len(),
        forall|i: int| 0 <= i < n ==> #[trigger] later[i] == after[i],
    ensures
        ran_in_order(before, later, start, end, n),
    decreases n,
{
    if n > 0 {
        let mid = choose|mid: (Ecs, Chunk, C)|
            ran_in_order(before, after, start, mid, n - 1) && #[trigger] before[n - 1].updated(
                &mid.0,
                &mid.1,
                &mid.2,
                &after[n - 1],
                &end.0,
                &end.1,
                &end.2,
            );
        lemma_ran_in_order_prefix(before, after, later, start, mid, n - 1);
        assert(later[n - 1] == after[n - 1]);
        assert(ran_in_order(before, later, start, mid, n - 1) && before[n - 1].updated(
            &mid.0,
            &mid.1,
            &mid.2,
            &later[n - 1],
            &end.0,
            &end.1,
            &end.2,
        ));
    }
}

/// The systems of a simulation, in the order in which they were registered,
/// which is the order in which they run.
pub struct SystemManager<S> {
    system_stores: Vec<S>,
}

impl<S> SystemManager<S> {
    /// The registered systems, first registered first.
    pub closed spec fn view(&self) -> Seq<S> {
        self.system_stores@
    }

    /// A manager without systems.
    pub fn new() -> (manager: Self)
        ensures
            manager@ == Seq::<S>::empty(),
    {
        Self { system_stores: Vec::new() }
    }

    /// Registers a system behind those registered before.
    pub fn add_system(&mut self, system: S)
        ensures
            final(self)@ == old(self)@.push(system),
    {
        self.system_stores.push(system);
    }

    /// How many systems are registered.
    pub fn len(&self) -> (n: usize)
        ensures
            n == self@.len(),
    {
        self.system_stores.len()
    }

    /// The system registered as number `index`, counted from zero.
    pub fn get(&self, index: usize) -> (system: Option<&S>)
        ensures
            index < self@.len() ==> system == Some(&self@[index as int]),
            index >= self@.len() ==> system is None,
    {
        if index < self.system_stores.len() {
            Some(&self.system_stores[index])
        } else {
            None
        }
    }

    /// Takes system number `index` out; those behind it move up. An index
    /// past the end changes nothing.
    pub fn remove(&mut self, index: usize)
        ensures
            index < old(self)@.len() ==> final(self)@ == old(self)@.remove(index as int),
            index >= old(self)@.len() ==> final(self)@ == old(self)@,
    {
        if index < self.system_stores.len() {
            self.system_stores.remove(index);
        }
    }

    /// Runs every system once, in the order of registration, each on what
    /// the one before it left.
    pub fn update<C>(&mut self, ecs: &mut Ecs, chunk: &mut Chunk, context: &mut C) where
        S: System<C>,

        requires
            old(ecs).manager.wf(),
            old(chunk).wf(),
        ensures
            final(ecs).manager.wf(),
            final(chunk).wf(),
            final(self)@.len() == old(self)@.len(),
            ran_in_order(
                old(self)@,
                final(self)@,
                (*old(ecs), *old(chunk), *old(context)),
                (*final(ecs), *final(chunk), *final(context)),
                old(self)@.len() as int,
            ),
    {
        let mut i: usize = 0;
        while i < self.system_stores.len()
            invariant
                ecs.manager.wf(),
                chunk.wf(),
                i <= self@.len(),
                self@.len() == old(self)@.len(),
                forall|j: int| i <= j < self@.len() ==> self@[j] == old(self)@[j],
                ran_in_order(
                    old(self)@,
                    self@,
                    (*old(ecs), *old(chunk), *old(context)),
                    (*ecs, *chunk, *context),
                    i as int,
                ),
            decreases self.system_stores.len() - i,
        {
            let ghost systems = self@;
            let ghost start = (*old(ecs), *old(chunk), *old(context));
            let ghost mid = (*ecs, *chunk, *context);
            self.system_stores[i].update(ecs, chunk, context);
            proof {
                assert(forall|j: int| 0 <= j < i ==> self@[j] == systems[j]);
                lemma_ran_in_order_prefix(old(self)@, systems, self@, start, mid, i as int);
                assert(old(self)@[i as int] == systems[i as int]);
                let end = (*ecs, *chunk, *context);
                let n = i + 1;
                assert(ran_in_order(old(self)@, self@, start, mid, n - 1) && old(self)@[n - 1].updated(
                    &mid.0,
                    &mid.1,
                    &mid.2,
                    &self@[n - 1],
                    &end.0,
                    &end.1,
                    &end.2,
                ));
                assert(ran_in_order(old(self)@, self@, start, end, n));
            }
            i += 1;
        }
    }
}

} // verus!
