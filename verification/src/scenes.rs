//! Declarative ability scenes: the invoked shell with its seeded stats, a
//! counted repeater and a one-shot state, laid on entities of a chart.

use vstd::prelude::*;

use crate::chart::{StateChart, Transition, Trigger};
use crate::repeater::Repeater;
use crate::relation::Entity;
use crate::target::scope_has_key;

verus! {

/// The entities of an invoked ability scene.
#[derive(Clone, Copy, Debug, PartialEq, Eq, Structural)]
pub struct InvokedScene {
    pub ability: Entity,
    pub ready: Entity,
    pub invoking: Entity,
    /// The Invoking state's inner sub-chart (filled by the caller).
    pub inner: Entity,
    pub cooldown: Entity,
    /// Ready -> Invoking on `StartInvoke`.
    pub start_edge: Entity,
    /// Invoking -> Cooldown on `Done`.
    pub done_edge: Entity,
    /// Cooldown -> Ready, always, after the cooldown.
    pub cooldown_edge: Entity,
}

/// What [`invoked_with`] lays down in `o` to give `f`.
pub open spec fn invoked_scene_laid(
    o: StateChart,
    f: StateChart,
    name: &'static str,
    cooldown_ms: u64,
    r: InvokedScene,
) -> bool {
    let n = o.next;
    let ability = n;
    let ready = (n + 1) as Entity;
    let invoking = (n + 2) as Entity;
    let inner = (n + 3) as Entity;
    let cooldown = (n + 4) as Entity;
    let e1 = (n + 5) as Entity;
    let e2 = (n + 6) as Entity;
    let e3 = (n + 7) as Entity;
    &&& r == InvokedScene {
        ability,
        ready,
        invoking,
        inner,
        cooldown,
        start_edge: e1,
        done_edge: e2,
        cooldown_edge: e3,
    }
    &&& f.next == n + 8
    &&& f.names@ == o.names@.insert(ability, name)
    &&& f.ability@ == o.ability@.insert(ability)
    &&& f.state_machine@ == o.state_machine@.insert(ability)
    &&& f.initial_state@ == o.initial_state@.insert(ability, ready).insert(invoking, inner)
    &&& f.substate_of.parents() == o.substate_of.parents().insert(ready, ability).insert(
        invoking,
        ability,
    ).insert(inner, invoking).insert(cooldown, ability)
    &&& f.transitions@ == o.transitions@.insert(
        e1,
        Transition { source: ready, target: invoking, trigger: Trigger::StartInvoke, guarded: false },
    ).insert(
        e2,
        Transition { source: invoking, target: cooldown, trigger: Trigger::Done, guarded: false },
    ).insert(
        e3,
        Transition { source: cooldown, target: ready, trigger: Trigger::Always, guarded: false },
    )
    &&& f.delays@ == o.delays@.insert(e3, cooldown_ms)
    &&& f.invoked_by.parents() == o.invoked_by.parents().insert(e3, ability)
    &&& f.delay_expr@ == o.delay_expr@.insert(e3, "Cooldown@ability")
    &&& f.child_of == o.child_of
    &&& f.sub_effect_of == o.sub_effect_of
    &&& f.requires_stats_of == o.requires_stats_of
    &&& f.state_tag == o.state_tag
    &&& f.pae == o.pae
    &&& f.effect_target == o.effect_target
    &&& f.terminal == o.terminal
    &&& f.go_off_config == o.go_off_config
    &&& f.invoker_mutator == o.invoker_mutator
    &&& f.repeaters == o.repeaters
    &&& f.repeat_count == o.repeat_count
}

/// The Ready <-> Invoking <-> Cooldown ability shell as a scene: the ability
/// root (named `name`, `Ability`, `StateMachine`, starting in Ready) with
/// substates Ready, Invoking and Cooldown; Invoking starts in its inner
/// sub-chart (which the caller fills) and goes to Cooldown on `Done`;
/// Cooldown returns to Ready after `cooldown_ms`, its edge invoked by the
/// ability so that its `"Delay"` follows the ability's `"Cooldown"` stat
/// (`"Cooldown@ability"`). Also returns the ability root's base attributes:
/// `base` seeded with the `"Cooldown"` stat `cooldown` and the damage
/// multiplier `damage` (see [`seed_ability_stats`]).
pub fn invoked_with<V: Copy>(
    chart: &mut StateChart,
    name: &'static str,
    cooldown_ms: u64,
    base: &Vec<(&'static str, V)>,
    cooldown: V,
    damage: V,
) -> (r: (InvokedScene, Vec<(&'static str, V)>))
    requires
        old(chart).wf(),
        old(chart).next + 8 <= u64::MAX,
    ensures
        final(chart).wf(),
        invoked_scene_laid(*old(chart), *final(chart), name, cooldown_ms, r.0),
        r.1@ == seeded_stats(base@, cooldown, damage),
{
    let n = chart.next;
    let ability = chart.spawn(name);
    let ready = chart.spawn_empty();
    let invoking = chart.spawn_empty();
    let inner = chart.spawn_empty();
    let cooldown_state = chart.spawn_empty();
    let start_edge = chart.spawn_empty();
    let done_edge = chart.spawn_empty();
    let cooldown_edge = chart.spawn_empty();
    chart.attach_substate(ready, ability, n + 1);
    chart.attach_substate(invoking, ability, n + 2);
    chart.attach_substate(inner, invoking, n + 3);
    chart.attach_substate(cooldown_state, ability, n + 4);
    chart.transitions.insert(
        start_edge,
        Transition { source: ready, target: invoking, trigger: Trigger::StartInvoke, guarded: false },
    );
    chart.transitions.insert(
        done_edge,
        Transition { source: invoking, target: cooldown_state, trigger: Trigger::Done, guarded: false },
    );
    chart.transitions.insert(
        cooldown_edge,
        Transition { source: cooldown_state, target: ready, trigger: Trigger::Always, guarded: false },
    );
    chart.delays.insert(cooldown_edge, cooldown_ms);
    chart.attach_invoked_by(cooldown_edge, ability, n + 1);
    chart.delay_expr.insert(cooldown_edge, "Cooldown@ability");
    chart.ability.insert(ability);
    chart.state_machine.insert(ability);
    chart.initial_state.insert(ability, ready);
    chart.initial_state.insert(invoking, inner);
    let stats = seed_ability_stats(base, cooldown, damage);
    (
        InvokedScene {
            ability,
            ready,
            invoking,
            inner,
            cooldown: cooldown_state,
            start_edge,
            done_edge,
            cooldown_edge,
        },
        stats,
    )
}

/// The entities of a repeater scene.
#[derive(Clone, Copy, Debug, PartialEq, Eq, Structural)]
pub struct RepeaterScene {
    pub repeater: Entity,
    pub idle: Entity,
    pub fire: Entity,
    /// Idle -> Fire on `OnRepeat`.
    pub repeat_edge: Entity,
    /// Fire -> Repeater, always, after the interval.
    pub bounce_edge: Entity,
}

/// The pre-sync delay of the repeater's bounce edge, in milliseconds (the
/// `"Delay"` expression takes over once attributes are synced).
pub const INITIAL_INTERVAL_MS: u64 = 100;

/// What [`repeater`] lays down in `o` to give `f`.
pub open spec fn repeater_scene_laid(
    o: StateChart,
    f: StateChart,
    at: Entity,
    root: Entity,
    count_expr: &'static str,
    interval_expr: &'static str,
    r: RepeaterScene,
) -> bool {
    let n = o.next;
    let idle = n;
    let fire = (n + 1) as Entity;
    let e1 = (n + 2) as Entity;
    let e2 = (n + 3) as Entity;
    &&& r == RepeaterScene { repeater: at, idle, fire, repeat_edge: e1, bounce_edge: e2 }
    &&& f.next == n + 4
    &&& f.invoked_by.parents() == o.invoked_by.parents().insert(at, root).insert(fire, root).insert(
        e2,
        root,
    )
    &&& f.initial_state@ == o.initial_state@.insert(at, idle)
    &&& f.repeaters@ == o.repeaters@.insert(at, Repeater { remaining: 1, initial: 1 })
    &&& f.repeat_count@ == o.repeat_count@.insert(at, count_expr)
    &&& f.substate_of.parents() == o.substate_of.parents().insert(idle, at).insert(fire, at)
    &&& f.transitions@ == o.transitions@.insert(
        e1,
        Transition { source: idle, target: fire, trigger: Trigger::OnRepeat, guarded: false },
    ).insert(e2, Transition { source: fire, target: at, trigger: Trigger::Always, guarded: false })
    &&& f.delays@ == o.delays@.insert(e2, INITIAL_INTERVAL_MS)
    &&& f.delay_expr@ == o.delay_expr@.insert(e2, interval_expr)
    &&& f.names == o.names
    &&& f.child_of == o.child_of
    &&& f.sub_effect_of == o.sub_effect_of
    &&& f.requires_stats_of == o.requires_stats_of
    &&& f.state_tag == o.state_tag
    &&& f.state_machine == o.state_machine
    &&& f.pae == o.pae
    &&& f.effect_target == o.effect_target
    &&& f.ability == o.ability
    &&& f.terminal == o.terminal
    &&& f.go_off_config == o.go_off_config
    &&& f.invoker_mutator == o.invoker_mutator
}

/// A counted volley on the entity `at` (typically the inner slot of an
/// invoked scene), invoked by the ability `root`: `at` becomes a repeater
/// (count from the `"RepeatCount"` expression `count_expr`) starting in Idle;
/// Idle goes to Fire on each `OnRepeat`; Fire (which the caller fills and
/// which runs once per tick) bounces back to the repeater after the
/// interval given by the `"Delay"` expression `interval_expr`. When the
/// count is exhausted the repeater emits `Done` to its parent.
pub fn repeater(
    chart: &mut StateChart,
    at: Entity,
    root: Entity,
    count_expr: &'static str,
    interval_expr: &'static str,
) -> (r: RepeaterScene)
    requires
        old(chart).wf(),
        old(chart).next + 4 <= u64::MAX,
        at < old(chart).next,
        root < old(chart).next,
        !crate::relation::is_ancestor_or_self(old(chart).invoked_by.parents(), at, root),
    ensures
        final(chart).wf(),
        repeater_scene_laid(*old(chart), *final(chart), at, root, count_expr, interval_expr, r),
{
    let n = chart.next;
    let ok = chart.invoked_by.relate(at, root);
    assert(ok);
    proof {
        crate::relation::lemma_bounded_relate(old(chart).invoked_by@, n, at, root, n);
    }
    chart.repeaters.insert(at, Repeater::new(1));
    chart.repeat_count.insert(at, count_expr);
    chart.initial_state.insert(at, n);
    let idle = chart.spawn_empty();
    let fire = chart.spawn_empty();
    let repeat_edge = chart.spawn_empty();
    let bounce_edge = chart.spawn_empty();
    chart.attach_substate(idle, at, n);
    chart.attach_substate(fire, at, n + 1);
    chart.attach_invoked_by(fire, root, n);
    chart.attach_invoked_by(bounce_edge, root, n + 2);
    chart.transitions.insert(
        repeat_edge,
        Transition { source: idle, target: fire, trigger: Trigger::OnRepeat, guarded: false },
    );
    chart.transitions.insert(
        bounce_edge,
        Transition { source: fire, target: at, trigger: Trigger::Always, guarded: false },
    );
    chart.delays.insert(bounce_edge, INITIAL_INTERVAL_MS);
    chart.delay_expr.insert(bounce_edge, interval_expr);
    RepeaterScene { repeater: at, idle, fire, repeat_edge, bounce_edge }
}

/// A one-shot terminal state on the entity `at` (typically the inner slot
/// of an invoked scene), invoked by the ability `root`: `TerminalState`
/// (entering it emits `Done` to the parent) and `GoOffConfig` (entering it
/// fires the effect pipeline at the invoker's target); the caller adds the
/// effect itself.
pub fn single_shot(chart: &mut StateChart, at: Entity, root: Entity)
    requires
        old(chart).wf(),
        at < old(chart).next,
        root < old(chart).next,
        !crate::relation::is_ancestor_or_self(old(chart).invoked_by.parents(), at, root),
    ensures
        final(chart).wf(),
        *final(chart) == (StateChart {
            invoked_by: final(chart).invoked_by,
            terminal: final(chart).terminal,
            go_off_config: final(chart).go_off_config,
            ..*old(chart)
        }),
        final(chart).invoked_by.parents() == old(chart).invoked_by.parents().insert(at, root),
        final(chart).terminal@ == old(chart).terminal@.insert(at),
        final(chart).go_off_config@ == old(chart).go_off_config@.insert(at),
{
    let ok = chart.invoked_by.relate(at, root);
    assert(ok);
    proof {
        crate::relation::lemma_bounded_relate(
            old(chart).invoked_by@,
            old(chart).next,
            at,
            root,
            old(chart).next,
        );
    }
    chart.terminal.insert(at);
    chart.go_off_config.insert(at);
}

/// Whether a base attribute set already defines `name`.
pub open spec fn defines<V>(base: Seq<(&'static str, V)>, name: Seq<char>) -> bool {
    exists|i: int| 0 <= i < base.len() && (#[trigger] base[i]).0@ == name
}

/// The base attributes of an invoked ability root, as values: `base`, then
/// `"Cooldown"` and `"Damage"` unless `base` already defines them.
pub open spec fn seeded_stats<V>(base: Seq<(&'static str, V)>, cooldown: V, damage: V) -> Seq<
    (&'static str, V),
> {
    base + (if defines(base, "Cooldown"@) {
        Seq::empty()
    } else {
        seq![("Cooldown", cooldown)]
    }) + (if defines(base, "Damage"@) {
        Seq::empty()
    } else {
        seq![("Damage", damage)]
    })
}

/// The base attributes of an invoked ability root: the caller's `base`,
/// then `"Cooldown"` (the fire interval) and `"Damage"` (a damage
/// multiplier the effects read as `"...@ability"`) unless `base` already
/// defines them; the caller's version wins.
pub fn seed_ability_stats<V: Copy>(base: &Vec<(&'static str, V)>, cooldown: V, damage: V) -> (r: Vec<
    (&'static str, V),
>)
    ensures
        r@ == seeded_stats(base@, cooldown, damage),
{
    let mut r: Vec<(&'static str, V)> = Vec::new();
    let mut i: usize = 0;
    while i < base.len()
        invariant
            i <= base@.len(),
            r@ == base@.take(i as int),
        decreases base@.len() - i,
    {
        r.push(base[i]);
        proof {
            assert(base@.take(i + 1) =~= base@.take(i as int).push(base@[i as int]));
        }
        i = i + 1;
    }
    proof {
        assert(base@.take(i as int) =~= base@);
    }
    let has_cooldown = scope_has_key(base, "Cooldown");
    let has_damage = scope_has_key(base, "Damage");
    proof {
        lemma_defines_keys(base@, "Cooldown"@);
        lemma_defines_keys(base@, "Damage"@);
    }
    let ghost r0 = r@;
    if !has_cooldown {
        r.push(("Cooldown", cooldown));
    }
    let ghost r1 = r@;
    if !has_damage {
        r.push(("Damage", damage));
    }
    proof {
        assert(r@ =~= base@ + (if defines(base@, "Cooldown"@) {
            Seq::empty()
        } else {
            seq![("Cooldown", cooldown)]
        }) + (if defines(base@, "Damage"@) {
            Seq::empty()
        } else {
            seq![("Damage", damage)]
        }));
    }
    r
}

/// A base set defines a name exactly when the name is among its keys.
pub proof fn lemma_defines_keys<V>(base: Seq<(&'static str, V)>, name: Seq<char>)
    ensures
        defines(base, name) == crate::target::scope_keys(base).contains(name),
{
    let keys = crate::target::scope_keys(base);
    if defines(base, name) {
        let i = choose|i: int| 0 <= i < base.len() && (#[trigger] base[i]).0@ == name;
        assert(keys[i] == name);
    }
    if keys.contains(name) {
        let i = choose|i: int| 0 <= i < keys.len() && keys[i] == name;
        assert(base[i].0@ == name);
    }
}

/// Seeding keeps the caller's attributes first and unchanged, adds only
/// names the caller does not define (each at most once), and leaves the
/// ability with both a `"Cooldown"` and a `"Damage"`: the caller's where it
/// defines them, the given defaults otherwise.
pub proof fn lemma_seed_callers_win<V>(base: Seq<(&'static str, V)>, cooldown: V, damage: V)
    ensures
        seeded_stats(base, cooldown, damage).take(base.len() as int) == base,
        forall|i: int|
            base.len() <= i < seeded_stats(base, cooldown, damage).len() ==> !defines(
                base,
                (#[trigger] seeded_stats(base, cooldown, damage)[i]).0@,
            ),
        forall|i: int, j: int|
            base.len() <= i < j < seeded_stats(base, cooldown, damage).len() ==> (
            #[trigger] seeded_stats(base, cooldown, damage)[i]).0@ != (#[trigger] seeded_stats(
                base,
                cooldown,
                damage,
            )[j]).0@,
        defines(seeded_stats(base, cooldown, damage), "Cooldown"@),
        defines(seeded_stats(base, cooldown, damage), "Damage"@),
        !defines(base, "Cooldown"@) ==> seeded_stats(base, cooldown, damage).contains(
            ("Cooldown", cooldown),
        ),
        !defines(base, "Damage"@) ==> seeded_stats(base, cooldown, damage).contains(
            ("Damage", damage),
        ),
{
    reveal_strlit("Cooldown");
    reveal_strlit("Damage");
    let r = seeded_stats(base, cooldown, damage);
    let n = base.len() as int;
    assert("Cooldown"@ != "Damage"@) by {
        assert("Cooldown"@[0] != "Damage"@[0]);
    }
    assert(r.take(n) =~= base);
    let dc = defines(base, "Cooldown"@);
    let dd = defines(base, "Damage"@);
    if dc {
        let i = choose|i: int| 0 <= i < base.len() && (#[trigger] base[i]).0@ == "Cooldown"@;
        assert(r[i] == base[i]);
    } else {
        assert(r[n] == ("Cooldown", cooldown));
        assert(r[n].0@ == "Cooldown"@);
    }
    if dd {
        let i = choose|i: int| 0 <= i < base.len() && (#[trigger] base[i]).0@ == "Damage"@;
        assert(r[i] == base[i]);
    } else {
        let k = if dc {
            n
        } else {
            n + 1
        };
        assert(r[k] == ("Damage", damage));
        assert(r[k].0@ == "Damage"@);
    }
    assert forall|i: int| n <= i < r.len() implies !defines(base, (#[trigger] r[i]).0@) by {
        if !dc && i == n {
            assert(r[i].0@ == "Cooldown"@);
        } else {
            assert(r[i].0@ == "Damage"@);
        }
    }
    assert forall|i: int, j: int| n <= i < j < r.len() implies (#[trigger] r[i]).0@ != (
    #[trigger] r[j]).0@ by {
        assert(!dc && !dd && i == n && j == n + 1);
        assert(r[i].0@ == "Cooldown"@);
        assert(r[j].0@ == "Damage"@);
    }
}

} // verus!
