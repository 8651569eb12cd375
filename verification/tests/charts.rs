use lib::ability_pool::{
    collect_all_abilities, display_name, emit_register_on_active, emit_unregister_on_inactive,
    handle_register_ability, handle_unregister_ability, AvailableAbilities, AvailableAbility,
    RegisterAbility, UnregisterAbility,
};
use lib::chart::{StateChart, Transition, Trigger};
use lib::component::ComponentMap;
use lib::derive::{derive_propagated_message, AttrForm, DataShape, DeriveError, FieldAttr, FieldDesc, FieldsShape};
use lib::relation::{EntitySet, Relation};
use lib::scenes::{invoked_with, repeater, seed_ability_stats, single_shot, INITIAL_INTERVAL_MS};
use lib::templates::{
    apply_sub_effect, spawn_subeffect, template_invoked, template_repeater, template_single_shot,
};
use lib::DieselSet;

fn edge(chart: &StateChart, e: u64) -> Transition {
    chart.transitions.get(e).unwrap()
}

#[test]
fn template_invoked_builds_ready_invoking_cooldown() {
    let mut chart = StateChart::new();
    let s = template_invoked(&mut chart, None, 1500, false);
    assert_eq!(s.root, 0);
    assert!(chart.ability.contains(s.root));
    assert!(chart.state_machine.contains(s.root));
    assert_eq!(chart.initial_state.get(s.root), Some(s.ready));
    assert_eq!(chart.names.get(s.ready), Some("Ready"));
    assert_eq!(chart.names.get(s.invoking), Some("Invoking"));
    assert_eq!(chart.names.get(s.cooldown), Some("Cooldown"));
    for st in [s.ready, s.invoking, s.cooldown] {
        assert_eq!(chart.substate_of.parent_of(st), Some(s.root));
        assert_eq!(chart.invoked_by.parent_of(st), Some(s.root));
        assert_eq!(chart.child_of.parent_of(st), Some(s.root));
    }
    assert_eq!(edge(&chart, s.start_edge), Transition { source: s.ready, target: s.invoking, trigger: Trigger::StartInvoke, guarded: false });
    assert_eq!(edge(&chart, s.done_edge), Transition { source: s.invoking, target: s.cooldown, trigger: Trigger::Done, guarded: false });
    assert_eq!(edge(&chart, s.cooldown_edge), Transition { source: s.cooldown, target: s.ready, trigger: Trigger::Always, guarded: false });
    assert_eq!(chart.delays.get(s.cooldown_edge), Some(1500));
    assert_eq!(s.terminal, None);
    assert_eq!(chart.next, 7);
}

#[test]
fn template_invoked_single_shot_adds_terminal_done() {
    let mut chart = StateChart::new();
    let s = template_invoked(&mut chart, None, 1500, true);
    let done = s.terminal.unwrap();
    assert_eq!(chart.names.get(done), Some("Done"));
    assert!(chart.terminal.contains(done));
    assert_eq!(chart.substate_of.parent_of(done), Some(s.invoking));
    assert_eq!(
        edge(&chart, s.terminal_edge.unwrap()),
        Transition { source: s.invoking, target: done, trigger: Trigger::Always, guarded: false }
    );
    assert_eq!(chart.next, 9);
}

#[test]
fn template_repeater_and_single_shot_inside_invoking() {
    let mut chart = StateChart::new();
    let shell = template_invoked(&mut chart, None, 500, false);
    let r = template_repeater(&mut chart, shell.invoking, "ProjectileCount@invoker", 250);
    assert_eq!(chart.substate_of.parent_of(r.repeater), Some(shell.invoking));
    assert_eq!(chart.substate_of.parent_of(r.idle), Some(r.repeater));
    assert_eq!(chart.substate_of.parent_of(r.fire), Some(r.repeater));
    assert_eq!(chart.invoked_by.parent_of(r.fire), Some(shell.invoking));
    assert_eq!(chart.initial_state.get(shell.invoking), Some(r.repeater));
    assert_eq!(chart.initial_state.get(r.repeater), Some(r.idle));
    assert_eq!(chart.repeat_count.get(r.repeater), Some("ProjectileCount@invoker"));
    assert_eq!(chart.repeaters.get(r.repeater).map(|x| (x.remaining, x.initial)), Some((1, 1)));
    assert_eq!(edge(&chart, r.repeat_edge).trigger, Trigger::OnRepeat);
    assert_eq!(edge(&chart, r.bounce_edge), Transition { source: r.fire, target: r.repeater, trigger: Trigger::Always, guarded: false });
    assert_eq!(chart.delays.get(r.bounce_edge), Some(250));
    assert!(chart.terminal.contains(r.terminal));
    assert_eq!(chart.substate_of.parent_of(r.terminal), Some(r.repeater));
    assert_eq!(edge(&chart, r.exhausted_edge), Transition { source: r.idle, target: r.terminal, trigger: Trigger::Done, guarded: false });

    let mut chart = StateChart::new();
    let shell = template_invoked(&mut chart, None, 500, false);
    let fire = template_single_shot(&mut chart, shell.invoking);
    assert!(chart.terminal.contains(fire));
    assert!(chart.go_off_config.contains(fire));
    assert_eq!(chart.initial_state.get(shell.invoking), Some(fire));
    assert_eq!(chart.names.get(fire), Some("Fire"));
}

#[test]
fn template_sub_effects() {
    let mut chart = StateChart::new();
    let apply = chart.spawn("Apply");
    let sub = apply_sub_effect(&mut chart, apply);
    assert!(chart.invoker_mutator.contains(apply));
    assert_eq!(chart.names.get(sub), Some("SubEffect"));
    assert_eq!(chart.sub_effect_of.parent_of(sub), Some(apply));
    assert_eq!(chart.child_of.parent_of(sub), Some(apply));

    let invoker = chart.spawn("Player");
    let e = spawn_subeffect(&mut chart, None, apply, invoker, "SpawnExplosion");
    assert_eq!(chart.substate_of.parent_of(e), Some(apply));
    assert_eq!(chart.sub_effect_of.parent_of(e), Some(apply));
    assert_eq!(chart.invoked_by.parent_of(e), Some(invoker));
    assert_eq!(chart.child_of.parent_of(e), None);
    let e2 = spawn_subeffect(&mut chart, Some(apply), apply, invoker, "Child");
    assert_eq!(chart.child_of.parent_of(e2), Some(apply));
}

#[test]
fn template_seeds_cooldown_and_damage_unless_given() {
    let base: Vec<(&'static str, f32)> = vec![("Mana", 3.0)];
    assert_eq!(
        seed_ability_stats(&base, 0.8, 1.0),
        vec![("Mana", 3.0), ("Cooldown", 0.8), ("Damage", 1.0)]
    );
    let base: Vec<(&'static str, f32)> = vec![("Damage", 2.5)];
    assert_eq!(seed_ability_stats(&base, 0.8, 1.0), vec![("Damage", 2.5), ("Cooldown", 0.8)]);
    let empty: Vec<(&'static str, f32)> = vec![];
    assert_eq!(seed_ability_stats(&empty, 1.5, 1.0), vec![("Cooldown", 1.5), ("Damage", 1.0)]);
}

fn field(attrs: Vec<(&str, Vec<&str>)>) -> FieldDesc {
    FieldDesc {
        attrs: attrs
            .into_iter()
            .map(|(p, n)| FieldAttr { path: p.to_string(), form: AttrForm::List, nested: n.into_iter().map(String::from).collect() })
            .collect(),
    }
}

#[test]
fn derive_finds_the_single_target_field() {
    let fields = vec![field(vec![("doc", vec![])]), field(vec![("propagate", vec!["target"])]), field(vec![])];
    assert_eq!(derive_propagated_message(DataShape::Struct(FieldsShape::Named), &fields), Ok(1));
}

#[test]
fn derive_refusals() {
    let named = DataShape::Struct(FieldsShape::Named);
    assert_eq!(derive_propagated_message(DataShape::Enum, &vec![]), Err(DeriveError::NotStruct));
    assert_eq!(derive_propagated_message(DataShape::Union, &vec![]), Err(DeriveError::NotStruct));
    assert_eq!(
        derive_propagated_message(DataShape::Struct(FieldsShape::Unnamed), &vec![]),
        Err(DeriveError::NotNamedFields)
    );
    assert_eq!(
        derive_propagated_message(DataShape::Struct(FieldsShape::Unit), &vec![]),
        Err(DeriveError::NotNamedFields)
    );
    assert_eq!(derive_propagated_message(named, &vec![field(vec![])]), Err(DeriveError::NoTarget));
    let unknown = vec![field(vec![("propagate", vec!["target", "source"])])];
    assert_eq!(derive_propagated_message(named, &unknown), Err(DeriveError::UnknownAttribute));
    let twice = vec![field(vec![("propagate", vec!["target"])]), field(vec![("propagate", vec!["target"])])];
    assert_eq!(derive_propagated_message(named, &twice), Err(DeriveError::MultipleTargets(1)));
    let same_field = vec![field(vec![("propagate", vec!["target"]), ("propagate", vec!["target"])]), field(vec![])];
    assert_eq!(derive_propagated_message(named, &same_field), Err(DeriveError::MultipleTargets(0)));
    // A bare `#[propagate]` or `#[propagate = ..]` is refused; other bare attributes are skipped.
    let bare = vec![FieldDesc { attrs: vec![FieldAttr { path: "propagate".to_string(), form: AttrForm::Path, nested: vec![] }] }];
    assert_eq!(derive_propagated_message(named, &bare), Err(DeriveError::ArgumentsExpected));
    let valued = vec![FieldDesc { attrs: vec![FieldAttr { path: "propagate".to_string(), form: AttrForm::NameValue, nested: vec![] }] }];
    assert_eq!(derive_propagated_message(named, &valued), Err(DeriveError::ParenthesesExpected));
    let doc = vec![
        FieldDesc { attrs: vec![FieldAttr { path: "doc".to_string(), form: AttrForm::NameValue, nested: vec![] }] },
        field(vec![("propagate", vec!["target"])]),
    ];
    assert_eq!(derive_propagated_message(named, &doc), Ok(1));
    // An empty `#[propagate()]` marks nothing.
    let empty = vec![field(vec![("propagate", vec![])])];
    assert_eq!(derive_propagated_message(named, &empty), Err(DeriveError::NoTarget));
    assert_eq!(DeriveError::NotStruct.message(), "#[derive(PropagatedMessage)] supports only structs");
    assert_eq!(
        DeriveError::MultipleTargets(1).message(),
        "multiple #[propagate(target)] fields; exactly one is required"
    );
}

#[test]
fn diesel_sets_run_in_pipeline_order() {
    let order = DieselSet::pipeline();
    assert_eq!(order, vec![DieselSet::Propagation, DieselSet::TargetFilter, DieselSet::Effects]);
    assert!(DieselSet::Propagation.runs_before(&DieselSet::TargetFilter));
    assert!(DieselSet::TargetFilter.runs_before(&DieselSet::AttributeEffects));
    assert!(!DieselSet::AttributeEffects.runs_before(&DieselSet::Effects));
    assert!(!DieselSet::Effects.runs_before(&DieselSet::Effects));
    assert_eq!(DieselSet::AttributeEffects.parent_set(), Some(DieselSet::Effects));
    assert_eq!(DieselSet::Effects.parent_set(), None);
    assert_eq!(DieselSet::AttributeEffects.stage(), DieselSet::Effects.stage());
}

#[test]
fn ability_pool_add_remove_sorted() {
    let mut pool = AvailableAbilities::new();
    let a = AvailableAbility { ability_entity: 12, source_entity: 3 };
    let b = AvailableAbility { ability_entity: 5, source_entity: 10 };
    let c = AvailableAbility { ability_entity: 7, source_entity: 3 };
    pool.add_ability(a);
    pool.add_ability(b);
    pool.add_ability(c);
    pool.add_ability(AvailableAbility { ability_entity: 12, source_entity: 99 });
    assert_eq!(pool.abilities.len(), 3);
    // "10v0 - 5v0" < "3v0 - 12v0" < "3v0 - 7v0" lexicographically.
    assert_eq!(pool.get_sorted_abilities(), vec![b, a, c]);
    assert_eq!(display_name(&a).into_iter().collect::<String>(), "3v0 - 12v0");
    // Index in the low 32 bits, generation in the high 32 bits.
    let g = AvailableAbility { ability_entity: (1u64 << 32) | 5, source_entity: (2u64 << 32) | 40 };
    assert_eq!(display_name(&g).into_iter().collect::<String>(), "40v2 - 5v1");
    pool.remove_ability(12);
    assert_eq!(pool.abilities, vec![b, c]);
    // Register then unregister gives the pool back.
    let before = pool.abilities.clone();
    handle_register_ability(&mut pool, &RegisterAbility { target: 1, ability_entity: 40, source_entity: 2 });
    assert_eq!(pool.abilities.len(), 3);
    handle_unregister_ability(&mut pool, &UnregisterAbility { target: 1, ability_entity: 40 });
    assert_eq!(pool.abilities, before);
}

#[test]
fn ability_pool_collects_abilities_in_preorder() {
    // machine 1 -> {2, 3}; 2 -> {4}; abilities 2, 4, 3.
    let mut child_of = Relation::new();
    child_of.relate(2, 1);
    child_of.relate(3, 1);
    child_of.relate(4, 2);
    let mut abilities = EntitySet::new();
    for e in [2, 3, 4] {
        abilities.insert(e);
    }
    let mut out = vec![99];
    collect_all_abilities(1, &child_of, &abilities, &mut out);
    assert_eq!(out, vec![99, 2, 4, 3]);

    let mut effect_target: ComponentMap<u64> = ComponentMap::new();
    effect_target.insert(1, 50);
    let regs = emit_register_on_active(1, &child_of, &abilities, &effect_target);
    assert_eq!(
        regs,
        vec![
            RegisterAbility { target: 50, ability_entity: 2, source_entity: 1 },
            RegisterAbility { target: 50, ability_entity: 4, source_entity: 1 },
            RegisterAbility { target: 50, ability_entity: 3, source_entity: 1 },
        ]
    );
    assert!(emit_register_on_active(2, &child_of, &abilities, &effect_target).is_empty());
    let mut substate_of = Relation::new();
    substate_of.relate(9, 1);
    let unregs = emit_unregister_on_inactive(9, &substate_of, &child_of, &abilities, &effect_target);
    assert_eq!(unregs.len(), 3);
    assert_eq!(unregs[1], UnregisterAbility { target: 50, ability_entity: 4 });
}

#[test]
fn scene_invoked_shell_with_repeater() {
    let mut chart = StateChart::new();
    let base = vec![("Damage", 2.5)];
    let (s, stats) = invoked_with(&mut chart, "Fireball", 800, &base, 0.8, 1.0);
    assert_eq!(stats, vec![("Damage", 2.5), ("Cooldown", 0.8)]);
    assert_eq!(chart.names.get(s.ability), Some("Fireball"));
    assert!(chart.ability.contains(s.ability));
    assert!(chart.state_machine.contains(s.ability));
    assert_eq!(chart.initial_state.get(s.ability), Some(s.ready));
    assert_eq!(chart.initial_state.get(s.invoking), Some(s.inner));
    for st in [s.ready, s.invoking, s.cooldown] {
        assert_eq!(chart.substate_of.parent_of(st), Some(s.ability));
    }
    assert_eq!(chart.substate_of.parent_of(s.inner), Some(s.invoking));
    assert_eq!(edge(&chart, s.start_edge).trigger, Trigger::StartInvoke);
    assert_eq!(edge(&chart, s.done_edge), Transition { source: s.invoking, target: s.cooldown, trigger: Trigger::Done, guarded: false });
    assert_eq!(edge(&chart, s.cooldown_edge), Transition { source: s.cooldown, target: s.ready, trigger: Trigger::Always, guarded: false });
    assert_eq!(chart.delays.get(s.cooldown_edge), Some(800));
    assert_eq!(chart.delay_expr.get(s.cooldown_edge), Some("Cooldown@ability"));
    assert_eq!(chart.invoked_by.parent_of(s.cooldown_edge), Some(s.ability));

    let r = repeater(&mut chart, s.inner, s.ability, "RepeatCount@invoker", "0.12 / AttackSpeed@invoker");
    assert_eq!(r.repeater, s.inner);
    assert_eq!(chart.invoked_by.parent_of(s.inner), Some(s.ability));
    assert_eq!(chart.invoked_by.parent_of(r.fire), Some(s.ability));
    assert_eq!(chart.initial_state.get(s.inner), Some(r.idle));
    assert_eq!(chart.substate_of.parent_of(r.idle), Some(s.inner));
    assert_eq!(chart.substate_of.parent_of(r.fire), Some(s.inner));
    assert_eq!(chart.repeat_count.get(s.inner), Some("RepeatCount@invoker"));
    assert_eq!(edge(&chart, r.repeat_edge), Transition { source: r.idle, target: r.fire, trigger: Trigger::OnRepeat, guarded: false });
    assert_eq!(edge(&chart, r.bounce_edge), Transition { source: r.fire, target: s.inner, trigger: Trigger::Always, guarded: false });
    assert_eq!(chart.delays.get(r.bounce_edge), Some(INITIAL_INTERVAL_MS));
    assert_eq!(chart.delay_expr.get(r.bounce_edge), Some("0.12 / AttackSpeed@invoker"));
}

#[test]
fn scene_single_shot_marks_terminal_go_off() {
    let mut chart = StateChart::new();
    let (s, stats) = invoked_with(&mut chart, "Heal", 1000, &vec![], 1.0, 1.0);
    assert_eq!(stats, vec![("Cooldown", 1.0), ("Damage", 1.0)]);
    single_shot(&mut chart, s.inner, s.ability);
    assert!(chart.terminal.contains(s.inner));
    assert!(chart.go_off_config.contains(s.inner));
    assert_eq!(chart.invoked_by.parent_of(s.inner), Some(s.ability));
}
