//! Persistent attribute effects (PAE): a three-state chart
//! (Unapplied / Applied / Active) whose Applied -> Active edge is guarded by
//! the effect target's stats.

use vstd::prelude::*;

use crate::chart::{StateChart, StateTag, Transition, Trigger};
use crate::component::ComponentMap;
use crate::relation::{bounded, Entity, EntitySet, Relation};

verus! {

/// Trigger to apply a PAE: Unapplied -> Applied.
#[derive(Clone, Copy, Debug)]
pub struct PAETryApply {
    pub target: Entity,
}

/// Trigger to suspend a PAE: Active -> Applied.
#[derive(Clone, Copy, Debug)]
pub struct PAESuspend {
    pub target: Entity,
}

/// Trigger to unapply a PAE: Applied/Active -> Unapplied.
#[derive(Clone, Copy, Debug)]
pub struct PAEUnapplyApproved {
    pub target: Entity,
}

/// Which entity a PAE applies its modifiers to.
#[derive(Clone, Copy, Debug)]
pub struct EffectTarget(pub Entity);

/// Entity handles of a PAE region.
///
/// `container` owns the PAE components; for a standalone chart it is also the
/// chart root (`root` is an alias of `container`).
#[derive(Clone, Copy, Debug, PartialEq, Eq, Structural)]
pub struct PaeEntities {
    pub root: Entity,
    pub container: Entity,
    pub unapplied: Entity,
    pub applied: Entity,
    pub active: Entity,
}

/// The five standard PAE edges, keyed by edge entity (`first` is the first
/// edge's entity; the states are `s`, `s + 1`, `s + 2`).
pub open spec fn pae_edges(
    m: Map<Entity, Transition>,
    s: Entity,
    first: Entity,
) -> Map<Entity, Transition> {
    let u = s;
    let a = (s + 1) as Entity;
    let act = (s + 2) as Entity;
    m.insert(first, Transition { source: u, target: a, trigger: Trigger::PaeTryApply, guarded: false })
        .insert(
        (first + 1) as Entity,
        Transition { source: a, target: act, trigger: Trigger::Always, guarded: true },
    ).insert(
        (first + 2) as Entity,
        Transition { source: act, target: a, trigger: Trigger::PaeSuspend, guarded: false },
    ).insert(
        (first + 3) as Entity,
        Transition { source: a, target: u, trigger: Trigger::PaeUnapplyApproved, guarded: false },
    ).insert(
        (first + 4) as Entity,
        Transition { source: act, target: u, trigger: Trigger::PaeUnapplyApproved, guarded: false },
    )
}

/// What [`pae_state`] lays down in `o` to give `f`: three substates of
/// `container`, five edges (all `ChildOf(container)`), the guard edge
/// requiring `effect_target`'s stats, the PAE marker and `EffectTarget(effect_target)`
/// on `container`.
pub open spec fn pae_state_laid(
    o: StateChart,
    f: StateChart,
    container: Entity,
    effect_target: Entity,
    r: PaeEntities,
) -> bool {
    let n = o.next;
    let u = n;
    let a = (n + 1) as Entity;
    let act = (n + 2) as Entity;
    &&& r == PaeEntities { root: container, container, unapplied: u, applied: a, active: act }
    &&& f.next == n + 8
    &&& f.names@ == o.names@.insert(u, "Unapplied").insert(a, "Applied").insert(
        act,
        "Active",
    ).insert((n + 3) as Entity, "Edge Unapplied->Applied").insert(
        (n + 4) as Entity,
        "Edge Applied->Active",
    ).insert((n + 5) as Entity, "Edge Active->Applied").insert(
        (n + 6) as Entity,
        "Edge Applied->Unapplied",
    ).insert((n + 7) as Entity, "Edge Active->Unapplied")
    &&& f.child_of.parents() == o.child_of.parents().insert(u, container).insert(
        a,
        container,
    ).insert(act, container).insert((n + 3) as Entity, container).insert(
        (n + 4) as Entity,
        container,
    ).insert((n + 5) as Entity, container).insert((n + 6) as Entity, container).insert(
        (n + 7) as Entity,
        container,
    )
    &&& f.substate_of.parents() == o.substate_of.parents().insert(u, container).insert(
        a,
        container,
    ).insert(act, container)
    &&& f.state_tag@ == o.state_tag@.insert(u, StateTag::Unapplied).insert(
        a,
        StateTag::Applied,
    ).insert(act, StateTag::Active)
    &&& f.transitions@ == pae_edges(o.transitions@, n, (n + 3) as Entity)
    &&& f.requires_stats_of.parents() == o.requires_stats_of.parents().insert(
        (n + 4) as Entity,
        effect_target,
    )
    &&& f.pae@ == o.pae@.insert(container)
    &&& f.effect_target@ == o.effect_target@.insert(container, effect_target)
    &&& f.invoked_by == o.invoked_by
    &&& f.sub_effect_of == o.sub_effect_of
    &&& f.delays == o.delays
    &&& f.initial_state == o.initial_state
    &&& f.state_machine == o.state_machine
    &&& f.ability == o.ability
    &&& f.terminal == o.terminal
    &&& f.go_off_config == o.go_off_config
    &&& f.invoker_mutator == o.invoker_mutator
    &&& f.repeaters == o.repeaters
    &&& f.repeat_count == o.repeat_count
    &&& f.delay_expr == o.delay_expr
}

/// Lay persistent-attribute-effect infrastructure under an existing state.
///
/// Spawns the Unapplied / Applied / Active substates of `pae_container` and
/// the five standard edges:
/// Unapplied -> Applied on `PAETryApply`; Applied -> Active always, guarded
/// by `RequiresStatsOf(effect_target)`; Active -> Applied on `PAESuspend`;
/// Applied -> Unapplied and Active -> Unapplied on `PAEUnapplyApproved`.
/// Marks `pae_container` as a PAE whose effect target is `effect_target`.
/// Placing the container in the wider chart
/// (root or substate) is left to the caller.
pub fn pae_state(chart: &mut StateChart, pae_container: Entity, effect_target: Entity) -> (r:
    PaeEntities)
    requires
        old(chart).wf(),
        pae_container < old(chart).next,
        effect_target < old(chart).next,
        old(chart).next + 8 <= u64::MAX,
    ensures
        final(chart).wf(),
        pae_state_laid(*old(chart), *final(chart), pae_container, effect_target, r),
{
    let n = chart.next;
    let unapplied = chart.spawn_child(pae_container, "Unapplied");
    let applied = chart.spawn_child(pae_container, "Applied");
    let active = chart.spawn_child(pae_container, "Active");
    let edge_unapplied_to_applied = chart.spawn_child(pae_container, "Edge Unapplied->Applied");
    let edge_applied_to_active = chart.spawn_child(pae_container, "Edge Applied->Active");
    let edge_active_to_applied = chart.spawn_child(pae_container, "Edge Active->Applied");
    let edge_to_unapplied = chart.spawn_child(pae_container, "Edge Applied->Unapplied");
    let edge_active_to_unapplied = chart.spawn_child(pae_container, "Edge Active->Unapplied");

    chart.attach_substate(unapplied, pae_container, n);
    chart.state_tag.insert(unapplied, StateTag::Unapplied);
    chart.attach_substate(applied, pae_container, n + 1);
    chart.state_tag.insert(applied, StateTag::Applied);
    chart.attach_substate(active, pae_container, n + 2);
    chart.state_tag.insert(active, StateTag::Active);

    chart.transitions.insert(
        edge_unapplied_to_applied,
        Transition {
            source: unapplied,
            target: applied,
            trigger: Trigger::PaeTryApply,
            guarded: false,
        },
    );
    chart.transitions.insert(
        edge_applied_to_active,
        Transition { source: applied, target: active, trigger: Trigger::Always, guarded: true },
    );
    chart.attach_requires_stats(edge_applied_to_active, effect_target, n);
    chart.transitions.insert(
        edge_active_to_applied,
        Transition {
            source: active,
            target: applied,
            trigger: Trigger::PaeSuspend,
            guarded: false,
        },
    );
    chart.transitions.insert(
        edge_to_unapplied,
        Transition {
            source: applied,
            target: unapplied,
            trigger: Trigger::PaeUnapplyApproved,
            guarded: false,
        },
    );
    chart.transitions.insert(
        edge_active_to_unapplied,
        Transition {
            source: active,
            target: unapplied,
            trigger: Trigger::PaeUnapplyApproved,
            guarded: false,
        },
    );
    chart.pae.insert(pae_container);
    chart.effect_target.insert(pae_container, effect_target);
    PaeEntities {
        root: pae_container,
        container: pae_container,
        unapplied,
        applied,
        active,
    }
}

/// What [`pae_state_machine`] builds: the machine entity (given, or a new
/// one) becomes a self-targeted PAE container and a chart root named
/// "PAE Machine" whose initial state is Unapplied.
pub open spec fn pae_machine_built(
    o: StateChart,
    f: StateChart,
    entity: Option<Entity>,
    r: PaeEntities,
) -> bool {
    let m = match entity {
        Some(e) => e,
        None => o.next,
    };
    let n: Entity = match entity {
        Some(_) => o.next,
        None => (o.next + 1) as Entity,
    };
    let names0 = match entity {
        Some(_) => o.names@,
        None => o.names@.insert(m, "PAE Machine"),
    };
    let u = n;
    let a = (n + 1) as Entity;
    let act = (n + 2) as Entity;
    &&& r == PaeEntities { root: m, container: m, unapplied: u, applied: a, active: act }
    &&& f.next == n + 8
    &&& f.names@ == names0.insert(u, "Unapplied").insert(a, "Applied").insert(
        act,
        "Active",
    ).insert((n + 3) as Entity, "Edge Unapplied->Applied").insert(
        (n + 4) as Entity,
        "Edge Applied->Active",
    ).insert((n + 5) as Entity, "Edge Active->Applied").insert(
        (n + 6) as Entity,
        "Edge Applied->Unapplied",
    ).insert((n + 7) as Entity, "Edge Active->Unapplied").insert(m, "PAE Machine")
    &&& f.child_of.parents() == o.child_of.parents().insert(u, m).insert(a, m).insert(
        act,
        m,
    ).insert((n + 3) as Entity, m).insert((n + 4) as Entity, m).insert(
        (n + 5) as Entity,
        m,
    ).insert((n + 6) as Entity, m).insert((n + 7) as Entity, m)
    &&& f.substate_of.parents() == o.substate_of.parents().insert(u, m).insert(a, m).insert(
        act,
        m,
    )
    &&& f.state_tag@ == o.state_tag@.insert(u, StateTag::Unapplied).insert(
        a,
        StateTag::Applied,
    ).insert(act, StateTag::Active)
    &&& f.transitions@ == pae_edges(o.transitions@, n, (n + 3) as Entity)
    &&& f.requires_stats_of.parents() == o.requires_stats_of.parents().insert(
        (n + 4) as Entity,
        m,
    )
    &&& f.pae@ == o.pae@.insert(m)
    &&& f.effect_target@ == o.effect_target@.insert(m, m)
    &&& f.state_machine@ == o.state_machine@.insert(m)
    &&& f.initial_state@ == o.initial_state@.insert(m, u)
    &&& f.invoked_by == o.invoked_by
    &&& f.sub_effect_of == o.sub_effect_of
    &&& f.delays == o.delays
    &&& f.ability == o.ability
    &&& f.terminal == o.terminal
    &&& f.go_off_config == o.go_off_config
    &&& f.invoker_mutator == o.invoker_mutator
    &&& f.repeaters == o.repeaters
    &&& f.repeat_count == o.repeat_count
    &&& f.delay_expr == o.delay_expr
}

/// Build a standalone, self-targeted persistent-attribute-effect chart on
/// `entity` (or on a new entity): [`pae_state`] with the machine as both
/// container and effect target, plus `Name("PAE Machine")`, `StateMachine`
/// and `InitialState(unapplied)`.
pub fn pae_state_machine(chart: &mut StateChart, entity: Option<Entity>) -> (r: PaeEntities)
    requires
        old(chart).wf(),
        old(chart).next + 9 <= u64::MAX,
        entity matches Some(e) ==> e < old(chart).next,
    ensures
        final(chart).wf(),
        pae_machine_built(*old(chart), *final(chart), entity, r),
{
    let machine_entity = match entity {
        Some(e) => e,
        None => chart.spawn("PAE Machine"),
    };
    let pae = pae_state(chart, machine_entity, machine_entity);
    chart.names.insert(machine_entity, "PAE Machine");
    chart.state_machine.insert(machine_entity);
    chart.initial_state.insert(machine_entity, pae.unapplied);
    proof {
        if entity is None {
            assert(chart.names@ =~= old(chart).names@.insert(machine_entity, "PAE Machine").insert(
                pae.unapplied,
                "Unapplied",
            ).insert(pae.applied, "Applied").insert(pae.active, "Active").insert(
                (pae.unapplied + 3) as Entity,
                "Edge Unapplied->Applied",
            ).insert((pae.unapplied + 4) as Entity, "Edge Applied->Active").insert(
                (pae.unapplied + 5) as Entity,
                "Edge Active->Applied",
            ).insert((pae.unapplied + 6) as Entity, "Edge Applied->Unapplied").insert(
                (pae.unapplied + 7) as Entity,
                "Edge Active->Unapplied",
            ).insert(machine_entity, "PAE Machine"));
        }
    }
    pae
}

// ---------------------------------------------------------------------------
// Runtime decisions
// ---------------------------------------------------------------------------

/// When a state stops or starts being active: if it is a PAE `Active` state,
/// its superstate is the PAE container; when that container has both an
/// [`EffectTarget`] and activated modifiers, those modifiers are removed from
/// (on exit) or applied to (on entry) the effect target. Returns the
/// container and the effect target.
pub fn pae_active_change_target(
    state: Entity,
    state_tag: &ComponentMap<StateTag>,
    substate_of: &Relation,
    effect_target: &ComponentMap<Entity>,
    has_activated_modifiers: &EntitySet,
) -> (r: Option<(Entity, Entity)>)
    requires
        state_tag.wf(),
        substate_of.wf(),
        effect_target.wf(),
    ensures
        r == (if state_tag@.contains_key(state) && state_tag@[state] == StateTag::Active
            && substate_of.parents().contains_key(state) && effect_target@.contains_key(
            substate_of.parents()[state],
        ) && has_activated_modifiers@.contains(substate_of.parents()[state]) {
            Some((substate_of.parents()[state], effect_target@[substate_of.parents()[state]]))
        } else {
            None::<(Entity, Entity)>
        }),
{
    match state_tag.get(state) {
        Some(StateTag::Active) => {},
        _ => {
            return None;
        },
    }
    let container = match substate_of.parent_of(state) {
        Some(c) => c,
        None => {
            return None;
        },
    };
    let target = match effect_target.get(container) {
        Some(t) => t,
        None => {
            return None;
        },
    };
    if has_activated_modifiers.contains(container) {
        Some((container, target))
    } else {
        None
    }
}

/// Whether the PAE blocker blocks a transition: a message already blocked
/// stays blocked; one without an edge, or whose edge has no attribute
/// requirements with `RequiresStatsOf`, passes; otherwise it is blocked when
/// the stats entity has no attributes (`requirements_met` is `None`) or the
/// requirements are not met.
pub fn requirements_block(
    already_blocked: bool,
    edge: Option<Entity>,
    edge_has_requirements: bool,
    requirements_met: Option<bool>,
) -> (blocked: bool)
    ensures
        blocked == (already_blocked || (edge is Some && edge_has_requirements && !(
        requirements_met == Some(true)))),
{
    if already_blocked {
        return true;
    }
    if edge.is_none() || !edge_has_requirements {
        return false;
    }
    match requirements_met {
        Some(met) => !met,
        None => true,
    }
}

/// Whether a PAE whose activated modifiers changed must be suspended: it
/// has lost its activated modifiers while active.
pub fn should_suspend(has_activated_modifiers: bool, is_active: bool) -> (b: bool)
    ensures
        b == (!has_activated_modifiers && is_active),
{
    !has_activated_modifiers && is_active
}

/// On `EffectTarget` insertion: the container requires the target's stats.
pub fn on_add_effect_target(
    requires_stats_of: &mut Relation,
    container: Entity,
    effect_target: Entity,
) -> (ok: bool)
    requires
        old(requires_stats_of).wf(),
    ensures
        final(requires_stats_of).wf(),
        ok == !crate::relation::is_ancestor_or_self(
            old(requires_stats_of).parents(),
            container,
            effect_target,
        ),
        ok ==> final(requires_stats_of).parents() == old(requires_stats_of).parents().insert(
            container,
            effect_target,
        ),
        !ok ==> final(requires_stats_of)@ == old(requires_stats_of)@,
{
    requires_stats_of.relate(container, effect_target)
}

/// On `EffectTarget` removal: drop the container's `RequiresStatsOf`.
pub fn on_remove_effect_target(requires_stats_of: &mut Relation, container: Entity)
    requires
        old(requires_stats_of).wf(),
    ensures
        final(requires_stats_of).wf(),
        final(requires_stats_of).parents() == old(requires_stats_of).parents().remove(container),
{
    requires_stats_of.unlink(container);
}

} // verus!
