//! The state-chart model the ability templates build: states, substates,
//! transition edges and the components that diesel attaches to them.

use vstd::prelude::*;

use crate::component::ComponentMap;
use crate::repeater::Repeater;
use crate::relation::{
    bounded, lemma_bounded_relate, lemma_fresh_not_ancestor, Entity, EntitySet, Relation,
};

verus! {

/// What fires a transition edge.
#[derive(Clone, Copy, Debug, PartialEq, Eq, Structural)]
pub enum Trigger {
    /// `MessageEdge<StartInvoke>`.
    StartInvoke,
    /// `MessageEdge<StopInvoke>`.
    StopInvoke,
    /// `MessageEdge<OnRepeat>`.
    OnRepeat,
    /// `MessageEdge<Done>`.
    Done,
    /// `MessageEdge<PAETryApply>`.
    PaeTryApply,
    /// `MessageEdge<PAESuspend>`.
    PaeSuspend,
    /// `MessageEdge<PAEUnapplyApproved>`.
    PaeUnapplyApproved,
    /// `AlwaysEdge`: taken as soon as its source is active (and guards pass).
    Always,
}

/// A transition edge: `Source`, `Target`, its trigger, and whether it
/// carries `Guards`.
#[derive(Clone, Copy, Debug, PartialEq, Eq, Structural)]
pub struct Transition {
    pub source: Entity,
    pub target: Entity,
    pub trigger: Trigger,
    pub guarded: bool,
}

/// The `StateComponent` a persistent-attribute-effect state carries.
#[derive(Clone, Copy, Debug, PartialEq, Eq, Structural)]
pub enum StateTag {
    Unapplied,
    Applied,
    Active,
}

/// Entities with their state-chart components.
pub struct StateChart {
    /// The next entity handle to hand out.
    pub next: Entity,
    /// `Name`.
    pub names: ComponentMap<&'static str>,
    /// `ChildOf` (entity hierarchy).
    pub child_of: Relation,
    /// `SubstateOf` (state hierarchy).
    pub substate_of: Relation,
    /// `InvokedBy`.
    pub invoked_by: Relation,
    /// `SubEffectOf`.
    pub sub_effect_of: Relation,
    /// `RequiresStatsOf` (on guarded edges).
    pub requires_stats_of: Relation,
    /// Transition edges, keyed by edge entity.
    pub transitions: ComponentMap<Transition>,
    /// `Delay` on edges, in milliseconds.
    pub delays: ComponentMap<u64>,
    /// `InitialState`.
    pub initial_state: ComponentMap<Entity>,
    /// `StateComponent` of PAE states.
    pub state_tag: ComponentMap<StateTag>,
    /// `StateMachine` (chart roots).
    pub state_machine: EntitySet,
    /// `PersistentAttributeEffect`.
    pub pae: EntitySet,
    /// `EffectTarget` of PAE containers: the entity whose attributes the
    /// PAE's modifiers go to.
    pub effect_target: ComponentMap<Entity>,
    /// `Ability`.
    pub ability: EntitySet,
    /// `TerminalState`.
    pub terminal: EntitySet,
    /// `GoOffConfig` (fire the effect pipeline on entry).
    pub go_off_config: EntitySet,
    /// `TargetMutator::invoker()`.
    pub invoker_mutator: EntitySet,
    /// `Repeater` components.
    pub repeaters: ComponentMap<Repeater>,
    /// The `"RepeatCount"` attribute expression of repeaters.
    pub repeat_count: ComponentMap<&'static str>,
    /// The `"Delay"` attribute expression of edges whose delay is derived.
    pub delay_expr: ComponentMap<&'static str>,
}

impl StateChart {
    /// The chart's invariant: every column well formed, every relation well
    /// formed and naming only handed-out entities.
    pub open spec fn wf(&self) -> bool {
        &&& self.names.wf()
        &&& self.transitions.wf()
        &&& self.delays.wf()
        &&& self.initial_state.wf()
        &&& self.state_tag.wf()
        &&& self.repeaters.wf()
        &&& self.repeat_count.wf()
        &&& self.delay_expr.wf()
        &&& self.effect_target.wf()
        &&& self.child_of.wf()
        &&& self.substate_of.wf()
        &&& self.invoked_by.wf()
        &&& self.sub_effect_of.wf()
        &&& self.requires_stats_of.wf()
        &&& bounded(self.child_of@, self.next)
        &&& bounded(self.substate_of@, self.next)
        &&& bounded(self.invoked_by@, self.next)
        &&& bounded(self.sub_effect_of@, self.next)
        &&& bounded(self.requires_stats_of@, self.next)
    }

    /// An empty chart.
    pub fn new() -> (c: Self)
        ensures
            c.wf(),
            c.next == 0,
            c.names@ == Map::<Entity, &'static str>::empty(),
            c.child_of.parents() == Map::<Entity, Entity>::empty(),
            c.substate_of.parents() == Map::<Entity, Entity>::empty(),
            c.invoked_by.parents() == Map::<Entity, Entity>::empty(),
            c.sub_effect_of.parents() == Map::<Entity, Entity>::empty(),
            c.requires_stats_of.parents() == Map::<Entity, Entity>::empty(),
            c.transitions@ == Map::<Entity, Transition>::empty(),
            c.delays@ == Map::<Entity, u64>::empty(),
            c.initial_state@ == Map::<Entity, Entity>::empty(),
            c.state_tag@ == Map::<Entity, StateTag>::empty(),
            c.state_machine@ == Set::<Entity>::empty(),
            c.pae@ == Set::<Entity>::empty(),
            c.effect_target@ == Map::<Entity, Entity>::empty(),
            c.ability@ == Set::<Entity>::empty(),
            c.terminal@ == Set::<Entity>::empty(),
            c.go_off_config@ == Set::<Entity>::empty(),
            c.invoker_mutator@ == Set::<Entity>::empty(),
            c.repeaters@ == Map::<Entity, Repeater>::empty(),
            c.repeat_count@ == Map::<Entity, &'static str>::empty(),
            c.delay_expr@ == Map::<Entity, &'static str>::empty(),
    {
        StateChart {
            next: 0,
            names: ComponentMap::new(),
            child_of: Relation::new(),
            substate_of: Relation::new(),
            invoked_by: Relation::new(),
            sub_effect_of: Relation::new(),
            requires_stats_of: Relation::new(),
            transitions: ComponentMap::new(),
            delays: ComponentMap::new(),
            initial_state: ComponentMap::new(),
            state_tag: ComponentMap::new(),
            state_machine: EntitySet::new(),
            pae: EntitySet::new(),
            effect_target: ComponentMap::new(),
            ability: EntitySet::new(),
            terminal: EntitySet::new(),
            go_off_config: EntitySet::new(),
            invoker_mutator: EntitySet::new(),
            repeaters: ComponentMap::new(),
            repeat_count: ComponentMap::new(),
            delay_expr: ComponentMap::new(),
        }
    }

    /// Hand out a new entity with a `Name`.
    pub fn spawn(&mut self, name: &'static str) -> (e: Entity)
        requires
            old(self).wf(),
            old(self).next < u64::MAX,
        ensures
            final(self).wf(),
            e == old(self).next,
            *final(self) == (StateChart {
                next: (old(self).next + 1) as Entity,
                names: final(self).names,
                ..*old(self)
            }),
            final(self).names@ == old(self).names@.insert(e, name),
    {
        let e = self.next;
        self.next = self.next + 1;
        self.names.insert(e, name);
        e
    }

    /// Hand out a new entity named `name` as a `ChildOf(parent)`.
    pub fn spawn_child(&mut self, parent: Entity, name: &'static str) -> (e: Entity)
        requires
            old(self).wf(),
            old(self).next < u64::MAX,
            parent < old(self).next,
        ensures
            final(self).wf(),
            e == old(self).next,
            *final(self) == (StateChart {
                next: (old(self).next + 1) as Entity,
                names: final(self).names,
                child_of: final(self).child_of,
                ..*old(self)
            }),
            final(self).names@ == old(self).names@.insert(e, name),
            final(self).child_of.parents() == old(self).child_of.parents().insert(e, parent),
    {
        let e = self.spawn(name);
        proof {
            lemma_fresh_not_ancestor(self.child_of@, e, parent, e);
            lemma_bounded_relate(self.child_of@, e, e, parent, self.next);
        }
        let ok = self.child_of.relate(e, parent);
        assert(ok);
        e
    }

    /// Hand out a new entity with no components.
    pub fn spawn_empty(&mut self) -> (e: Entity)
        requires
            old(self).wf(),
            old(self).next < u64::MAX,
        ensures
            final(self).wf(),
            e == old(self).next,
            *final(self) == (StateChart { next: (old(self).next + 1) as Entity, ..*old(self) }),
    {
        let e = self.next;
        self.next = self.next + 1;
        e
    }

    /// Hand out a new entity with no components but `ChildOf(parent)`.
    pub fn spawn_empty_child(&mut self, parent: Entity) -> (e: Entity)
        requires
            old(self).wf(),
            old(self).next < u64::MAX,
            parent < old(self).next,
        ensures
            final(self).wf(),
            e == old(self).next,
            *final(self) == (StateChart {
                next: (old(self).next + 1) as Entity,
                child_of: final(self).child_of,
                ..*old(self)
            }),
            final(self).child_of.parents() == old(self).child_of.parents().insert(e, parent),
    {
        let e = self.spawn_empty();
        proof {
            lemma_fresh_not_ancestor(self.child_of@, e, parent, e);
            lemma_bounded_relate(self.child_of@, e, e, parent, self.next);
        }
        let ok = self.child_of.relate(e, parent);
        assert(ok);
        e
    }

    /// Spawn a substate of `parent` among the children of `owner`, invoked
    /// by `owner` (the entity the states are spawned under is their
    /// invoker): `ChildOf(owner)`, `SubstateOf(parent)`, `InvokedBy(owner)`
    /// and `Name(name)`.
    pub fn spawn_diesel_substate(&mut self, owner: Entity, parent: Entity, name: &'static str) -> (e:
        Entity)
        requires
            old(self).wf(),
            old(self).next < u64::MAX,
            owner < old(self).next,
            parent < old(self).next,
        ensures
            final(self).wf(),
            e == old(self).next,
            *final(self) == (StateChart {
                next: (old(self).next + 1) as Entity,
                names: final(self).names,
                child_of: final(self).child_of,
                substate_of: final(self).substate_of,
                invoked_by: final(self).invoked_by,
                ..*old(self)
            }),
            final(self).names@ == old(self).names@.insert(e, name),
            final(self).child_of.parents() == old(self).child_of.parents().insert(e, owner),
            final(self).substate_of.parents() == old(self).substate_of.parents().insert(e, parent),
            final(self).invoked_by.parents() == old(self).invoked_by.parents().insert(e, owner),
    {
        let n = self.next;
        let e = self.spawn_child(owner, name);
        self.attach_substate(e, parent, n);
        self.attach_invoked_by(e, owner, n);
        e
    }

    /// Spawn a transition edge from `source` to `target` among the children
    /// of `owner`.
    pub fn spawn_transition(
        &mut self,
        owner: Entity,
        source: Entity,
        target: Entity,
        trigger: Trigger,
    ) -> (e: Entity)
        requires
            old(self).wf(),
            old(self).next < u64::MAX,
            owner < old(self).next,
        ensures
            final(self).wf(),
            e == old(self).next,
            *final(self) == (StateChart {
                next: (old(self).next + 1) as Entity,
                child_of: final(self).child_of,
                transitions: final(self).transitions,
                ..*old(self)
            }),
            final(self).child_of.parents() == old(self).child_of.parents().insert(e, owner),
            final(self).transitions@ == old(self).transitions@.insert(
                e,
                Transition { source, target, trigger, guarded: false },
            ),
    {
        let e = self.spawn_empty_child(owner);
        self.transitions.insert(e, Transition { source, target, trigger, guarded: false });
        e
    }

    /// Make `parent` the superstate of `child` (`SubstateOf`). Refused
    /// (`false`, chart unchanged) when it would close a cycle.
    pub fn set_substate_of(&mut self, child: Entity, parent: Entity) -> (ok: bool)
        requires
            old(self).wf(),
            child < old(self).next,
            parent < old(self).next,
        ensures
            final(self).wf(),
            *final(self) == (StateChart { substate_of: final(self).substate_of, ..*old(self) }),
            ok == !crate::relation::is_ancestor_or_self(old(self).substate_of.parents(), child, parent),
            ok ==> final(self).substate_of.parents() == old(self).substate_of.parents().insert(
                child,
                parent,
            ),
            ok ==> final(self).substate_of@ == old(self).substate_of@.filter(
                crate::relation::other_than(child),
            ).push((child, parent)),
            !ok ==> final(self).substate_of@ == old(self).substate_of@,
    {
        proof {
            lemma_bounded_relate(self.substate_of@, self.next, child, parent, self.next);
        }
        self.substate_of.relate(child, parent)
    }

    /// Insert `SubstateOf(parent)` on a state spawned after `parent`'s
    /// relations were laid (always succeeds).
    pub(crate) fn attach_substate(&mut self, child: Entity, parent: Entity, n: Entity)
        requires
            old(self).wf(),
            bounded(old(self).substate_of@, n),
            n <= child < old(self).next,
            parent < n,
        ensures
            final(self).wf(),
            *final(self) == (StateChart { substate_of: final(self).substate_of, ..*old(self) }),
            final(self).substate_of.parents() == old(self).substate_of.parents().insert(
                child,
                parent,
            ),
            bounded(final(self).substate_of@, (child + 1) as Entity),
    {
        proof {
            lemma_fresh_not_ancestor(self.substate_of@, n, parent, child);
            lemma_bounded_relate(self.substate_of@, self.next, child, parent, self.next);
            lemma_bounded_relate(self.substate_of@, n, child, parent, (child + 1) as Entity);
        }
        let ok = self.substate_of.relate(child, parent);
        assert(ok);
    }

    /// Insert `InvokedBy(invoker)` on an entity spawned after the invoker
    /// relation was laid (always succeeds).
    pub(crate) fn attach_invoked_by(&mut self, child: Entity, invoker: Entity, n: Entity)
        requires
            old(self).wf(),
            bounded(old(self).invoked_by@, n),
            n <= child < old(self).next,
            invoker < n,
        ensures
            final(self).wf(),
            *final(self) == (StateChart { invoked_by: final(self).invoked_by, ..*old(self) }),
            final(self).invoked_by.parents() == old(self).invoked_by.parents().insert(
                child,
                invoker,
            ),
            bounded(final(self).invoked_by@, (child + 1) as Entity),
    {
        proof {
            lemma_fresh_not_ancestor(self.invoked_by@, n, invoker, child);
            lemma_bounded_relate(self.invoked_by@, self.next, child, invoker, self.next);
            lemma_bounded_relate(self.invoked_by@, n, child, invoker, (child + 1) as Entity);
        }
        let ok = self.invoked_by.relate(child, invoker);
        assert(ok);
    }

    /// Insert `SubEffectOf(parent)` on an entity spawned after the relation
    /// was laid (always succeeds).
    pub(crate) fn attach_sub_effect(&mut self, child: Entity, parent: Entity, n: Entity)
        requires
            old(self).wf(),
            bounded(old(self).sub_effect_of@, n),
            n <= child < old(self).next,
            parent < n,
        ensures
            final(self).wf(),
            *final(self) == (StateChart { sub_effect_of: final(self).sub_effect_of, ..*old(self) }),
            final(self).sub_effect_of.parents() == old(self).sub_effect_of.parents().insert(
                child,
                parent,
            ),
            bounded(final(self).sub_effect_of@, (child + 1) as Entity),
    {
        proof {
            lemma_fresh_not_ancestor(self.sub_effect_of@, n, parent, child);
            lemma_bounded_relate(self.sub_effect_of@, self.next, child, parent, self.next);
            lemma_bounded_relate(self.sub_effect_of@, n, child, parent, (child + 1) as Entity);
        }
        let ok = self.sub_effect_of.relate(child, parent);
        assert(ok);
    }

    /// Insert `RequiresStatsOf(stats)` on an edge spawned after the relation
    /// was laid (always succeeds).
    pub(crate) fn attach_requires_stats(&mut self, edge: Entity, stats: Entity, n: Entity)
        requires
            old(self).wf(),
            bounded(old(self).requires_stats_of@, n),
            n <= edge < old(self).next,
            stats < n,
        ensures
            final(self).wf(),
            *final(self) == (StateChart {
                requires_stats_of: final(self).requires_stats_of,
                ..*old(self)
            }),
            final(self).requires_stats_of.parents() == old(
                self,
            ).requires_stats_of.parents().insert(edge, stats),
            bounded(final(self).requires_stats_of@, (edge + 1) as Entity),
    {
        proof {
            lemma_fresh_not_ancestor(self.requires_stats_of@, n, stats, edge);
            lemma_bounded_relate(self.requires_stats_of@, self.next, edge, stats, self.next);
            lemma_bounded_relate(self.requires_stats_of@, n, edge, stats, (edge + 1) as Entity);
        }
        let ok = self.requires_stats_of.relate(edge, stats);
        assert(ok);
    }
}

} // verus!
