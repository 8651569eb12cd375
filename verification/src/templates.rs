//! Ability chart templates: the invoked shell (Ready -> Invoking -> Cooldown),
//! counted repeaters, single shots and sub-effect nodes.

use vstd::prelude::*;

use crate::chart::{StateChart, Transition, Trigger};
use crate::repeater::Repeater;
use crate::relation::Entity;

verus! {

/// The entities of an invoked shell.
#[derive(Clone, Copy, Debug, PartialEq, Eq, Structural)]
pub struct InvokedStates {
    pub root: Entity,
    pub ready: Entity,
    pub invoking: Entity,
    pub cooldown: Entity,
    /// Ready -> Invoking on `StartInvoke`.
    pub start_edge: Entity,
    /// Invoking -> Cooldown on `Done`.
    pub done_edge: Entity,
    /// Cooldown -> Ready, always, after the cooldown delay.
    pub cooldown_edge: Entity,
    /// For a single-shot ability: the terminal "Done" substate of Invoking.
    pub terminal: Option<Entity>,
    /// For a single-shot ability: Invoking -> "Done", always.
    pub terminal_edge: Option<Entity>,
}

/// What [`template_invoked`] lays down in `o` to give `f`: on the root (the
/// given entity, or a new one), the states Ready, Invoking and Cooldown
/// (children, substates and invoked by the root), the three edges, the
/// cooldown delay, and `Ability`, `StateMachine`, `InitialState(Ready)`;
/// for a single-shot ability also a terminal "Done" substate of Invoking
/// (child, substate and invoked by Invoking) entered by an always-edge from
/// Invoking.
pub open spec fn invoked_laid(
    o: StateChart,
    f: StateChart,
    entity: Option<Entity>,
    cooldown_ms: u64,
    single_shot: bool,
    r: InvokedStates,
) -> bool {
    let m = match entity {
        Some(e) => e,
        None => o.next,
    };
    let n: Entity = match entity {
        Some(_) => o.next,
        None => (o.next + 1) as Entity,
    };
    let ready = n;
    let invoking = (n + 1) as Entity;
    let cooldown = (n + 2) as Entity;
    let e1 = (n + 3) as Entity;
    let e2 = (n + 4) as Entity;
    let e3 = (n + 5) as Entity;
    let done = (n + 6) as Entity;
    let e4 = (n + 7) as Entity;
    let names = o.names@.insert(ready, "Ready").insert(invoking, "Invoking").insert(
        cooldown,
        "Cooldown",
    );
    let child_of = o.child_of.parents().insert(ready, m).insert(invoking, m).insert(
        cooldown,
        m,
    ).insert(e1, m).insert(e2, m).insert(e3, m);
    let substate_of = o.substate_of.parents().insert(ready, m).insert(invoking, m).insert(
        cooldown,
        m,
    );
    let invoked_by = o.invoked_by.parents().insert(ready, m).insert(invoking, m).insert(
        cooldown,
        m,
    );
    let transitions = o.transitions@.insert(
        e1,
        Transition { source: ready, target: invoking, trigger: Trigger::StartInvoke, guarded: false },
    ).insert(
        e2,
        Transition { source: invoking, target: cooldown, trigger: Trigger::Done, guarded: false },
    ).insert(
        e3,
        Transition { source: cooldown, target: ready, trigger: Trigger::Always, guarded: false },
    );
    &&& r == InvokedStates {
        root: m,
        ready,
        invoking,
        cooldown,
        start_edge: e1,
        done_edge: e2,
        cooldown_edge: e3,
        terminal: if single_shot {
            Some(done)
        } else {
            None
        },
        terminal_edge: if single_shot {
            Some(e4)
        } else {
            None
        },
    }
    &&& f.next == (if single_shot {
        n + 8
    } else {
        n + 6
    })
    &&& f.names@ == (if single_shot {
        names.insert(done, "Done")
    } else {
        names
    })
    &&& f.child_of.parents() == (if single_shot {
        child_of.insert(done, invoking).insert(e4, invoking)
    } else {
        child_of
    })
    &&& f.substate_of.parents() == (if single_shot {
        substate_of.insert(done, invoking)
    } else {
        substate_of
    })
    &&& f.invoked_by.parents() == (if single_shot {
        invoked_by.insert(done, invoking)
    } else {
        invoked_by
    })
    &&& f.transitions@ == (if single_shot {
        transitions.insert(
            e4,
            Transition { source: invoking, target: done, trigger: Trigger::Always, guarded: false },
        )
    } else {
        transitions
    })
    &&& f.terminal@ == (if single_shot {
        o.terminal@.insert(done)
    } else {
        o.terminal@
    })
    &&& f.delays@ == o.delays@.insert(e3, cooldown_ms)
    &&& f.ability@ == o.ability@.insert(m)
    &&& f.state_machine@ == o.state_machine@.insert(m)
    &&& f.initial_state@ == o.initial_state@.insert(m, ready)
    &&& f.sub_effect_of == o.sub_effect_of
    &&& f.requires_stats_of == o.requires_stats_of
    &&& f.state_tag == o.state_tag
    &&& f.pae == o.pae
    &&& f.effect_target == o.effect_target
    &&& f.go_off_config == o.go_off_config
    &&& f.invoker_mutator == o.invoker_mutator
    &&& f.repeaters == o.repeaters
    &&& f.repeat_count == o.repeat_count
    &&& f.delay_expr == o.delay_expr
}

/// The laid shell cycles: the root starts in Ready; `StartInvoke` takes
/// Ready to Invoking, `Done` takes Invoking to Cooldown, and Cooldown
/// returns to Ready on its own after the cooldown; the three states are
/// distinct substates of the root. A single-shot shell has a terminal state
/// under Invoking that an always-edge enters.
pub proof fn lemma_invoked_cycles(
    o: StateChart,
    f: StateChart,
    entity: Option<Entity>,
    cooldown_ms: u64,
    single_shot: bool,
    r: InvokedStates,
)
    requires
        entity matches Some(e) ==> e < o.next,
        invoked_laid(o, f, entity, cooldown_ms, single_shot, r),
    ensures
        f.initial_state@.contains_key(r.root) && f.initial_state@[r.root] == r.ready,
        r.ready != r.invoking && r.invoking != r.cooldown && r.ready != r.cooldown,
        f.substate_of.parents()[r.ready] == r.root,
        f.substate_of.parents()[r.invoking] == r.root,
        f.substate_of.parents()[r.cooldown] == r.root,
        f.transitions@.contains_key(r.start_edge),
        f.transitions@[r.start_edge].source == r.ready,
        f.transitions@[r.start_edge].target == r.invoking,
        f.transitions@[r.start_edge].trigger == Trigger::StartInvoke,
        f.transitions@.contains_key(r.done_edge),
        f.transitions@[r.done_edge].source == r.invoking,
        f.transitions@[r.done_edge].target == r.cooldown,
        f.transitions@[r.done_edge].trigger == Trigger::Done,
        f.transitions@.contains_key(r.cooldown_edge),
        f.transitions@[r.cooldown_edge].source == r.cooldown,
        f.transitions@[r.cooldown_edge].target == r.ready,
        f.transitions@[r.cooldown_edge].trigger == Trigger::Always,
        f.delays@.contains_key(r.cooldown_edge) && f.delays@[r.cooldown_edge] == cooldown_ms,
        f.ability@.contains(r.root),
        single_shot <==> r.terminal is Some,
        r.terminal matches Some(t) ==> {
            &&& f.terminal@.contains(t)
            &&& f.substate_of.parents()[t] == r.invoking
            &&& r.terminal_edge matches Some(e) && f.transitions@.contains_key(e)
                && f.transitions@[e].target == t && f.transitions@[e].trigger == Trigger::Always
        },
{
}

/// The outermost ability shell: a Ready <-> Invoking <-> Cooldown state
/// machine on `entity` (or on a new entity). Ready goes to Invoking on
/// `StartInvoke`; Invoking goes to Cooldown when a terminal child state
/// emits `Done`; Cooldown returns to Ready after `cooldown_ms`. The caller
/// configures the Invoking state (repeaters, spawn configs, ...) on the
/// returned `invoking` entity. For a single-shot ability (`single_shot`: no
/// repeater will be configured) a terminal "Done" substate of Invoking is
/// added, with an always-edge into it, so that Invoking reports `Done`.
pub fn template_invoked(
    chart: &mut StateChart,
    entity: Option<Entity>,
    cooldown_ms: u64,
    single_shot: bool,
) -> (r: InvokedStates)
    requires
        old(chart).wf(),
        old(chart).next + 9 <= u64::MAX,
        entity matches Some(e) ==> e < old(chart).next,
    ensures
        final(chart).wf(),
        invoked_laid(*old(chart), *final(chart), entity, cooldown_ms, single_shot, r),
{
    let root = match entity {
        Some(e) => e,
        None => chart.spawn_empty(),
    };
    let ready = chart.spawn_diesel_substate(root, root, "Ready");
    let invoking = chart.spawn_diesel_substate(root, root, "Invoking");
    let cooldown = chart.spawn_diesel_substate(root, root, "Cooldown");
    let start_edge = chart.spawn_transition(root, ready, invoking, Trigger::StartInvoke);
    let done_edge = chart.spawn_transition(root, invoking, cooldown, Trigger::Done);
    let cooldown_edge = chart.spawn_transition(root, cooldown, ready, Trigger::Always);
    chart.delays.insert(cooldown_edge, cooldown_ms);
    chart.ability.insert(root);
    chart.state_machine.insert(root);
    chart.initial_state.insert(root, ready);
    let (terminal, terminal_edge) = if single_shot {
        let done = chart.spawn_diesel_substate(invoking, invoking, "Done");
        chart.terminal.insert(done);
        let edge = chart.spawn_transition(invoking, invoking, done, Trigger::Always);
        (Some(done), Some(edge))
    } else {
        (None, None)
    };
    InvokedStates {
        root,
        ready,
        invoking,
        cooldown,
        start_edge,
        done_edge,
        cooldown_edge,
        terminal,
        terminal_edge,
    }
}

/// The entities of a repeater sub-machine.
#[derive(Clone, Copy, Debug, PartialEq, Eq, Structural)]
pub struct RepeaterStates {
    pub repeater: Entity,
    pub idle: Entity,
    pub fire: Entity,
    /// Idle -> Fire on `OnRepeat`.
    pub repeat_edge: Entity,
    /// Fire -> Repeater, always, after the delay.
    pub bounce_edge: Entity,
    /// The repeater's terminal child, entered when the count is exhausted.
    pub terminal: Entity,
    /// Idle -> terminal on `Done` (the count is exhausted).
    pub exhausted_edge: Entity,
}

/// What [`template_repeater`] lays down under `invoking` in `o` to give `f`.
pub open spec fn repeater_laid(
    o: StateChart,
    f: StateChart,
    invoking: Entity,
    count_expr: &'static str,
    delay_ms: u64,
    r: RepeaterStates,
) -> bool {
    let n = o.next;
    let rep = n;
    let idle = (n + 1) as Entity;
    let fire = (n + 2) as Entity;
    let e1 = (n + 3) as Entity;
    let e2 = (n + 4) as Entity;
    let done = (n + 5) as Entity;
    let e3 = (n + 6) as Entity;
    &&& r == RepeaterStates {
        repeater: rep,
        idle,
        fire,
        repeat_edge: e1,
        bounce_edge: e2,
        terminal: done,
        exhausted_edge: e3,
    }
    &&& f.next == n + 7
    &&& f.names@ == o.names@.insert(rep, "Repeater").insert(idle, "Idle").insert(fire, "Fire").insert(
        done,
        "Done",
    )
    &&& f.child_of.parents() == o.child_of.parents().insert(rep, invoking).insert(
        idle,
        invoking,
    ).insert(fire, invoking).insert(e1, invoking).insert(e2, invoking).insert(
        done,
        invoking,
    ).insert(e3, invoking)
    &&& f.substate_of.parents() == o.substate_of.parents().insert(rep, invoking).insert(
        idle,
        rep,
    ).insert(fire, rep).insert(done, rep)
    &&& f.invoked_by.parents() == o.invoked_by.parents().insert(rep, invoking).insert(
        idle,
        invoking,
    ).insert(fire, invoking).insert(done, invoking)
    &&& f.repeaters@ == o.repeaters@.insert(rep, Repeater { remaining: 1, initial: 1 })
    &&& f.repeat_count@ == o.repeat_count@.insert(rep, count_expr)
    &&& f.transitions@ == o.transitions@.insert(
        e1,
        Transition { source: idle, target: fire, trigger: Trigger::OnRepeat, guarded: false },
    ).insert(
        e2,
        Transition { source: fire, target: rep, trigger: Trigger::Always, guarded: false },
    ).insert(e3, Transition { source: idle, target: done, trigger: Trigger::Done, guarded: false })
    &&& f.terminal@ == o.terminal@.insert(done)
    &&& f.delays@ == o.delays@.insert(e2, delay_ms)
    &&& f.initial_state@ == o.initial_state@.insert(rep, idle).insert(invoking, rep)
    &&& f.sub_effect_of == o.sub_effect_of
    &&& f.requires_stats_of == o.requires_stats_of
    &&& f.state_tag == o.state_tag
    &&& f.state_machine == o.state_machine
    &&& f.pae == o.pae
    &&& f.effect_target == o.effect_target
    &&& f.ability == o.ability
    &&& f.go_off_config == o.go_off_config
    &&& f.invoker_mutator == o.invoker_mutator
    &&& f.delay_expr == o.delay_expr
}

/// The laid repeater cycles as a volley: `invoking` starts in the
/// repeater, which starts in Idle; an `OnRepeat` takes Idle to Fire, Fire
/// bounces back to the repeater after the delay, and exhaustion (`Done`)
/// takes Idle to the terminal state. Idle and Fire are the repeater's
/// substates, and none of these edges goes the other way.
pub proof fn lemma_repeater_cycles(
    o: StateChart,
    f: StateChart,
    invoking: Entity,
    count_expr: &'static str,
    delay_ms: u64,
    r: RepeaterStates,
)
    requires
        invoking < o.next,
        repeater_laid(o, f, invoking, count_expr, delay_ms, r),
    ensures
        f.initial_state@.contains_key(invoking) && f.initial_state@[invoking] == r.repeater,
        f.initial_state@.contains_key(r.repeater) && f.initial_state@[r.repeater] == r.idle,
        f.substate_of.parents()[r.idle] == r.repeater,
        f.substate_of.parents()[r.fire] == r.repeater,
        f.substate_of.parents()[r.terminal] == r.repeater,
        f.terminal@.contains(r.terminal),
        f.transitions@.contains_key(r.repeat_edge),
        f.transitions@[r.repeat_edge].source == f.initial_state@[r.repeater],
        f.transitions@[r.repeat_edge].target == r.fire,
        f.transitions@[r.repeat_edge].trigger == Trigger::OnRepeat,
        f.transitions@.contains_key(r.bounce_edge),
        f.transitions@[r.bounce_edge].source == r.fire,
        f.transitions@[r.bounce_edge].target == r.repeater,
        f.transitions@[r.bounce_edge].trigger == Trigger::Always,
        f.delays@.contains_key(r.bounce_edge) && f.delays@[r.bounce_edge] == delay_ms,
        f.transitions@.contains_key(r.exhausted_edge),
        f.transitions@[r.exhausted_edge].source == r.idle,
        f.transitions@[r.exhausted_edge].target == r.terminal,
        f.transitions@[r.exhausted_edge].trigger == Trigger::Done,
        r.idle != r.fire && r.fire != r.repeater && r.idle != r.repeater,
{
}

/// A counted volley inside `invoking`: a Repeater state (count driven by
/// the `"RepeatCount"` expression `count_expr`) with Idle and Fire
/// substates. Idle goes to Fire on each `OnRepeat`; Fire bounces back to
/// the Repeater after `delay_ms`. The Repeater starts in Idle, and
/// `invoking` starts in the Repeater. When the count is exhausted the
/// repeater goes (on `Done`) to its terminal child "Done", which emits `Done`
/// to `invoking`. The caller configures each tick on the returned `fire`
/// entity.
pub fn template_repeater(
    chart: &mut StateChart,
    invoking: Entity,
    count_expr: &'static str,
    delay_ms: u64,
) -> (r: RepeaterStates)
    requires
        old(chart).wf(),
        old(chart).next + 7 <= u64::MAX,
        invoking < old(chart).next,
    ensures
        final(chart).wf(),
        repeater_laid(*old(chart), *final(chart), invoking, count_expr, delay_ms, r),
{
    let repeater = chart.spawn_diesel_substate(invoking, invoking, "Repeater");
    chart.repeaters.insert(repeater, Repeater::new(1));
    chart.repeat_count.insert(repeater, count_expr);
    let idle = chart.spawn_diesel_substate(invoking, repeater, "Idle");
    let fire = chart.spawn_diesel_substate(invoking, repeater, "Fire");
    let repeat_edge = chart.spawn_transition(invoking, idle, fire, Trigger::OnRepeat);
    let bounce_edge = chart.spawn_transition(invoking, fire, repeater, Trigger::Always);
    chart.delays.insert(bounce_edge, delay_ms);
    chart.initial_state.insert(repeater, idle);
    chart.initial_state.insert(invoking, repeater);
    let terminal = chart.spawn_diesel_substate(invoking, repeater, "Done");
    chart.terminal.insert(terminal);
    let exhausted_edge = chart.spawn_transition(invoking, idle, terminal, Trigger::Done);
    RepeaterStates { repeater, idle, fire, repeat_edge, bounce_edge, terminal, exhausted_edge }
}

/// A one-shot terminal child inside `invoking`: a Fire state (child,
/// substate and invoked by `invoking`) marked `TerminalState` and
/// `GoOffConfig`, which `invoking` starts in. Entering it fires the effect
/// pipeline and emits `Done` to `invoking`. Returns the Fire state, which
/// the caller configures.
pub fn template_single_shot(chart: &mut StateChart, invoking: Entity) -> (fire: Entity)
    requires
        old(chart).wf(),
        old(chart).next < u64::MAX,
        invoking < old(chart).next,
    ensures
        final(chart).wf(),
        fire == old(chart).next,
        *final(chart) == (StateChart {
            next: (fire + 1) as Entity,
            names: final(chart).names,
            child_of: final(chart).child_of,
            substate_of: final(chart).substate_of,
            invoked_by: final(chart).invoked_by,
            terminal: final(chart).terminal,
            go_off_config: final(chart).go_off_config,
            initial_state: final(chart).initial_state,
            ..*old(chart)
        }),
        final(chart).names@ == old(chart).names@.insert(fire, "Fire"),
        final(chart).child_of.parents() == old(chart).child_of.parents().insert(fire, invoking),
        final(chart).substate_of.parents() == old(chart).substate_of.parents().insert(
            fire,
            invoking,
        ),
        final(chart).invoked_by.parents() == old(chart).invoked_by.parents().insert(fire, invoking),
        final(chart).terminal@ == old(chart).terminal@.insert(fire),
        final(chart).go_off_config@ == old(chart).go_off_config@.insert(fire),
        final(chart).initial_state@ == old(chart).initial_state@.insert(invoking, fire),
{
    let fire = chart.spawn_diesel_substate(invoking, invoking, "Fire");
    chart.terminal.insert(fire);
    chart.go_off_config.insert(fire);
    chart.initial_state.insert(invoking, fire);
    fire
}

/// Wrap an effect in a sub-effect node of `apply`: `apply` gets
/// `TargetMutator::invoker()`, and a new child named "SubEffect" with
/// `SubEffectOf(apply)` carries the effect (the caller inserts the effect's
/// component on the returned entity).
pub fn apply_sub_effect(chart: &mut StateChart, apply: Entity) -> (sub: Entity)
    requires
        old(chart).wf(),
        old(chart).next < u64::MAX,
        apply < old(chart).next,
    ensures
        final(chart).wf(),
        sub == old(chart).next,
        *final(chart) == (StateChart {
            next: (sub + 1) as Entity,
            names: final(chart).names,
            child_of: final(chart).child_of,
            sub_effect_of: final(chart).sub_effect_of,
            invoker_mutator: final(chart).invoker_mutator,
            ..*old(chart)
        }),
        final(chart).names@ == old(chart).names@.insert(sub, "SubEffect"),
        final(chart).child_of.parents() == old(chart).child_of.parents().insert(sub, apply),
        final(chart).sub_effect_of.parents() == old(chart).sub_effect_of.parents().insert(
            sub,
            apply,
        ),
        final(chart).invoker_mutator@ == old(chart).invoker_mutator@.insert(apply),
{
    let n = chart.next;
    chart.invoker_mutator.insert(apply);
    let sub = chart.spawn_child(apply, "SubEffect");
    chart.attach_sub_effect(sub, apply, n);
    sub
}

/// Spawn a sub-effect of `state`, invoked by `invoker`: `SubstateOf(state)`,
/// `SubEffectOf(state)`, `InvokedBy(invoker)` and `Name(name)`, plus
/// `ChildOf(parent)` when spawned under a parent.
pub fn spawn_subeffect(
    chart: &mut StateChart,
    parent: Option<Entity>,
    state: Entity,
    invoker: Entity,
    name: &'static str,
) -> (e: Entity)
    requires
        old(chart).wf(),
        old(chart).next < u64::MAX,
        state < old(chart).next,
        invoker < old(chart).next,
        parent matches Some(p) ==> p < old(chart).next,
    ensures
        final(chart).wf(),
        e == old(chart).next,
        *final(chart) == (StateChart {
            next: (e + 1) as Entity,
            names: final(chart).names,
            child_of: final(chart).child_of,
            substate_of: final(chart).substate_of,
            sub_effect_of: final(chart).sub_effect_of,
            invoked_by: final(chart).invoked_by,
            ..*old(chart)
        }),
        final(chart).names@ == old(chart).names@.insert(e, name),
        final(chart).child_of.parents() == match parent {
            Some(p) => old(chart).child_of.parents().insert(e, p),
            None => old(chart).child_of.parents(),
        },
        final(chart).substate_of.parents() == old(chart).substate_of.parents().insert(e, state),
        final(chart).sub_effect_of.parents() == old(chart).sub_effect_of.parents().insert(e, state),
        final(chart).invoked_by.parents() == old(chart).invoked_by.parents().insert(e, invoker),
{
    let n = chart.next;
    let e = match parent {
        Some(p) => chart.spawn_child(p, name),
        None => chart.spawn(name),
    };
    chart.attach_substate(e, state, n);
    chart.attach_sub_effect(e, state, n);
    chart.attach_invoked_by(e, invoker, n);
    e
}

} // verus!
