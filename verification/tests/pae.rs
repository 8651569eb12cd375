use lib::chart::{StateChart, StateTag, Trigger};
use lib::component::ComponentMap;
use lib::pae::{
    on_add_effect_target, on_remove_effect_target, pae_active_change_target, pae_state,
    pae_state_machine, requirements_block, should_suspend,
};
use lib::relation::{EntitySet, Relation};

/// The stats entities required by the edges leaving `source`.
fn edges_with_requires(chart: &StateChart, source: u64) -> Vec<u64> {
    chart
        .transitions
        .pairs()
        .into_iter()
        .filter(|(_, t)| t.source == source)
        .filter_map(|(edge, _)| chart.requires_stats_of.parent_of(edge))
        .collect()
}

#[test]
fn pae_state_machine_builds_self_targeted_chart() {
    let mut chart = StateChart::new();
    let pae = pae_state_machine(&mut chart, None);

    // Container has the PAE marker + chart root components.
    assert!(chart.pae.contains(pae.container));
    assert!(chart.state_machine.contains(pae.container));
    assert!(chart.initial_state.get(pae.container).is_some());
    assert_eq!(pae.root, pae.container, "top-level root == container");

    // Self-targeted: the guard edge's RequiresStatsOf points at the container.
    assert_eq!(
        edges_with_requires(&chart, pae.applied),
        vec![pae.container],
        "top-level PAE is self-targeted"
    );

    // Substates are SubstateOf(container).
    for state in [pae.unapplied, pae.applied, pae.active] {
        assert_eq!(chart.substate_of.parent_of(state), Some(pae.container));
    }
}

#[test]
fn pae_state_nests_under_host_state_with_distinct_effect_target() {
    let mut chart = StateChart::new();
    let host_state = chart.spawn("HostState");
    let effect_target = chart.spawn("EffectTarget");
    let pae_container = chart.spawn("PaeContainer");
    assert!(chart.set_substate_of(pae_container, host_state));

    let pae = pae_state(&mut chart, pae_container, effect_target);

    // Container got the PAE marker but not StateMachine / InitialState.
    assert!(chart.pae.contains(pae.container));
    assert_eq!(chart.effect_target.get(pae.container), Some(effect_target));
    assert!(
        !chart.state_machine.contains(pae.container),
        "nested pae_state must not mark the container as a chart root"
    );
    assert!(
        chart.initial_state.get(pae.container).is_none(),
        "nested pae_state leaves initial-state wiring to the caller"
    );

    // Container is still a substate of the host state.
    assert_eq!(chart.substate_of.parent_of(pae.container), Some(host_state));

    // PAE substates are substates of the container.
    for state in [pae.unapplied, pae.applied, pae.active] {
        assert_eq!(chart.substate_of.parent_of(state), Some(pae.container));
    }

    // Guard edge's RequiresStatsOf points at effect_target, not the container.
    assert_eq!(
        edges_with_requires(&chart, pae.applied),
        vec![effect_target],
        "nested PAE's guard edge must target the explicit effect_target"
    );
}

#[test]
fn pae_state_edges_have_expected_source_target_pairs() {
    let mut chart = StateChart::new();
    let pae = pae_state_machine(&mut chart, None);

    let edges: Vec<(u64, u64)> = chart
        .transitions
        .pairs()
        .into_iter()
        .map(|(_, t)| t)
        .filter(|t| t.source == pae.unapplied || t.source == pae.applied || t.source == pae.active)
        .map(|t| (t.source, t.target))
        .collect();

    let expected: Vec<(u64, u64)> = vec![
        (pae.unapplied, pae.applied),
        (pae.applied, pae.active),
        (pae.active, pae.applied),
        (pae.applied, pae.unapplied),
        (pae.active, pae.unapplied),
    ];
    for edge in &expected {
        assert!(edges.contains(edge), "expected edge {edge:?} missing, found: {edges:?}");
    }
    assert_eq!(edges.len(), expected.len(), "unexpected extra edges: {edges:?}");
}

#[test]
fn pae_state_machine_on_given_entity_names_and_triggers() {
    let mut chart = StateChart::new();
    let machine = chart.spawn("Buff");
    let pae = pae_state_machine(&mut chart, Some(machine));
    assert_eq!(pae.container, machine);
    assert_eq!(chart.names.get(machine), Some("PAE Machine"));
    assert_eq!(chart.names.get(pae.unapplied), Some("Unapplied"));
    assert_eq!(chart.names.get(pae.applied), Some("Applied"));
    assert_eq!(chart.names.get(pae.active), Some("Active"));
    assert_eq!(chart.initial_state.get(machine), Some(pae.unapplied));
    assert_eq!(chart.state_tag.get(pae.active), Some(StateTag::Active));
    let triggers: Vec<(u64, u64, Trigger, bool)> = chart
        .transitions
        .pairs()
        .into_iter()
        .map(|(_, t)| (t.source, t.target, t.trigger, t.guarded))
        .collect();
    assert!(triggers.contains(&(pae.unapplied, pae.applied, Trigger::PaeTryApply, false)));
    assert!(triggers.contains(&(pae.applied, pae.active, Trigger::Always, true)));
    assert!(triggers.contains(&(pae.active, pae.applied, Trigger::PaeSuspend, false)));
    assert!(triggers.contains(&(pae.applied, pae.unapplied, Trigger::PaeUnapplyApproved, false)));
    assert!(triggers.contains(&(pae.active, pae.unapplied, Trigger::PaeUnapplyApproved, false)));
    // Every state and edge is a child of the machine.
    for (edge, _) in chart.transitions.pairs() {
        assert_eq!(chart.child_of.parent_of(edge), Some(machine));
    }
    assert_eq!(chart.next, machine + 9);
}

#[test]
fn pae_active_state_change_targets_effect_target() {
    let mut chart = StateChart::new();
    let host = chart.spawn("Host");
    let target = chart.spawn("Target");
    let container = chart.spawn("Container");
    let pae = pae_state(&mut chart, container, target);
    let mut effect_target: ComponentMap<u64> = ComponentMap::new();
    effect_target.insert(container, target);
    let mut activated = EntitySet::new();
    activated.insert(container);

    assert_eq!(
        pae_active_change_target(pae.active, &chart.state_tag, &chart.substate_of, &effect_target, &activated),
        Some((container, target))
    );
    // Not the Active state.
    assert_eq!(
        pae_active_change_target(pae.applied, &chart.state_tag, &chart.substate_of, &effect_target, &activated),
        None
    );
    // No activated modifiers on the container.
    let empty = EntitySet::new();
    assert_eq!(
        pae_active_change_target(pae.active, &chart.state_tag, &chart.substate_of, &effect_target, &empty),
        None
    );
    // No effect target.
    let no_target: ComponentMap<u64> = ComponentMap::new();
    assert_eq!(
        pae_active_change_target(pae.active, &chart.state_tag, &chart.substate_of, &no_target, &activated),
        None
    );
    let _ = host;
}

#[test]
fn pae_requirements_blocker_decisions() {
    assert!(requirements_block(true, None, false, None));
    assert!(!requirements_block(false, None, true, Some(false)));
    assert!(!requirements_block(false, Some(3), false, Some(false)));
    assert!(requirements_block(false, Some(3), true, None));
    assert!(requirements_block(false, Some(3), true, Some(false)));
    assert!(!requirements_block(false, Some(3), true, Some(true)));
}

#[test]
fn pae_suspends_only_active_effects_without_modifiers() {
    assert!(should_suspend(false, true));
    assert!(!should_suspend(true, true));
    assert!(!should_suspend(false, false));
    assert!(!should_suspend(true, false));
}

#[test]
fn pae_effect_target_observers_wire_requires_stats() {
    let mut requires = Relation::new();
    assert!(on_add_effect_target(&mut requires, 5, 9));
    assert_eq!(requires.parent_of(5), Some(9));
    on_remove_effect_target(&mut requires, 5);
    assert_eq!(requires.parent_of(5), None);
}
