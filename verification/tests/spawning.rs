use lib::backend::SpatialBackend;
use lib::component::ComponentMap;
use lib::relation::{EntitySet, Relation};
use lib::spawn::{
    assign_spawn_targets, generate_targets_with_spawn_positions, inherited_attributes,
    plan_spawn_effect, resolve_spawn_parent, spawned_entity, SpawnPlan, scope_attribute_name, spawn_entities_observer,
    SpawnConfig, SpawnDecision, SpawnEntitiesDecision, SpawnParent, TemplateRegistry,
};
use lib::target::{InvokerTarget, Scope, Target, TargetGenerator, TargetType};

/// A one-dimensional world: entities at integer positions.
struct Line {
    positions: Vec<(u64, i64)>,
}

impl SpatialBackend for Line {
    type Pos = i64;
    type Offset = i64;
    type Gatherer = i64;
    type Filter = usize;
    type Scalar = i64;

    fn spec_default_pos() -> i64 {
        0
    }
    fn spec_default_offset() -> i64 {
        0
    }
    fn spec_default_filter() -> usize {
        usize::MAX
    }
    fn default_pos() -> i64 {
        0
    }
    fn default_offset() -> i64 {
        0
    }
    fn default_filter() -> usize {
        usize::MAX
    }
    fn spec_apply_offset(&self, pos: i64, offset: i64) -> (Self, i64) {
        let mut after = Line { positions: self.positions.clone() };
        let moved = after.apply_offset(pos, &offset);
        (after, moved)
    }
    fn spec_distance(&self, a: i64, b: i64) -> i64 {
        self.distance(&a, &b)
    }
    fn spec_position_of(&self, entity: u64) -> Option<i64> {
        self.position_of(entity)
    }
    fn spec_gather(&self, origin: i64, radius: i64, exclude: u64) -> (Self, Vec<(Target<i64>, Scope<i64>)>) {
        let mut after = Line { positions: self.positions.clone() };
        let found = after.gather(origin, &radius, exclude);
        (after, found)
    }
    fn spec_apply_filter(
        &self,
        targets: Vec<(Target<i64>, Scope<i64>)>,
        filter: usize,
        invoker: u64,
        origin: i64,
    ) -> (Self, Vec<(Target<i64>, Scope<i64>)>) {
        let mut after = Line { positions: self.positions.clone() };
        let kept = after.apply_filter(targets, &filter, invoker, origin);
        (after, kept)
    }
    fn apply_offset(&mut self, pos: i64, offset: &i64) -> i64 {
        pos + offset
    }
    fn distance(&self, a: &i64, b: &i64) -> i64 {
        (a - b).abs()
    }
    fn position_of(&self, entity: u64) -> Option<i64> {
        self.positions.iter().find(|(e, _)| *e == entity).map(|(_, p)| *p)
    }
    fn gather(&mut self, origin: i64, radius: &i64, exclude: u64) -> Vec<(Target<i64>, Scope<i64>)> {
        self.positions
            .iter()
            .filter(|(e, p)| *e != exclude && (p - origin).abs() <= *radius)
            .map(|(e, p)| (Target::entity(*e, *p), vec![("Distance@scope", (p - origin).abs())]))
            .collect()
    }
    fn apply_filter(
        &mut self,
        mut targets: Vec<(Target<i64>, Scope<i64>)>,
        filter: &usize,
        _invoker: u64,
        _origin: i64,
    ) -> Vec<(Target<i64>, Scope<i64>)> {
        targets.truncate(*filter);
        targets
    }
}

fn world() -> Line {
    Line { positions: vec![(1, 10), (2, 0), (7, 14), (8, 16)] }
}

#[test]
fn spawn_template_registry_register_get_keys() {
    let mut reg: TemplateRegistry<u32> = TemplateRegistry::new();
    reg.register("fireball", 1);
    reg.register("explosion", 2);
    reg.register("fireball", 3);
    assert_eq!(reg.get("fireball"), Some(&3));
    assert_eq!(reg.get("explosion"), Some(&2));
    assert_eq!(reg.get("missing"), None);
    assert_eq!(reg.keys(), vec!["fireball", "explosion"]);
}

#[test]
fn spawn_config_builders() {
    let c = SpawnConfig::<Line>::invoker("orb");
    assert_eq!(c.template_id, "orb");
    assert!(matches!(c.spawn_position_generator.target_type, TargetType::Invoker));
    assert!(c.spawn_target_generator.is_none());
    assert!(c.as_child_of.is_none());
    assert!(!c.inherit_scope);
    let c = SpawnConfig::<Line>::at_position("orb", 5).with_offset(2).with_gatherer(3).with_filter(1);
    assert!(matches!(c.spawn_position_generator.target_type, TargetType::Position(5)));
    assert_eq!(c.spawn_position_generator.offset, 2);
    assert_eq!(c.spawn_position_generator.gatherer, Some(3));
    assert_eq!(c.spawn_position_generator.filter, 1);
    let c = SpawnConfig::<Line>::target("orb")
        .with_target_generator(TargetGenerator::at_invoker_target())
        .as_child_of_root()
        .with_scope_inheritance();
    assert!(matches!(c.spawn_position_generator.target_type, TargetType::InvokerTarget));
    assert!(c.spawn_target_generator.is_some());
    assert!(matches!(c.as_child_of, Some(TargetType::Root)));
    assert!(c.inherit_scope);
    assert!(matches!(SpawnConfig::<Line>::spawn("x").spawn_position_generator.target_type, TargetType::Spawn));
    assert!(matches!(SpawnConfig::<Line>::root("x").spawn_position_generator.target_type, TargetType::Root));
    assert!(matches!(SpawnConfig::<Line>::passed("x").spawn_position_generator.target_type, TargetType::Passed));
    assert!(matches!(SpawnConfig::<Line>::at_zero("x").spawn_position_generator.target_type, TargetType::Position(0)));
    assert!(matches!(SpawnConfig::<Line>::invoker("x").as_child_of_invoker().as_child_of, Some(TargetType::Invoker)));
    assert!(matches!(SpawnConfig::<Line>::invoker("x").as_child_of_target().as_child_of, Some(TargetType::InvokerTarget)));
    assert!(matches!(SpawnConfig::<Line>::invoker("x").as_child_of_passed().as_child_of, Some(TargetType::Passed)));
}

#[test]
fn spawn_parent_resolution() {
    let aim = Target::entity(7, 14i64);
    let passed = Target::position(3i64);
    assert_eq!(resolve_spawn_parent(&None, 1, aim, 2, passed), SpawnParent::Unparented);
    assert_eq!(resolve_spawn_parent(&Some(TargetType::Invoker), 1, aim, 2, passed), SpawnParent::Parent(1));
    assert_eq!(resolve_spawn_parent(&Some(TargetType::Root), 1, aim, 2, passed), SpawnParent::Parent(2));
    assert_eq!(resolve_spawn_parent(&Some(TargetType::InvokerTarget), 1, aim, 2, passed), SpawnParent::Parent(7));
    assert_eq!(resolve_spawn_parent(&Some(TargetType::Passed), 1, aim, 2, passed), SpawnParent::Unresolved);
    assert_eq!(resolve_spawn_parent(&Some(TargetType::Spawn), 1, aim, 2, passed), SpawnParent::Unresolved);
}

#[test]
fn spawn_targets_are_reused_round_robin() {
    let spawn: Vec<Target<i64>> = (0..5).map(Target::position).collect();
    let targets: Vec<Target<i64>> = vec![Target::entity(7, 14), Target::entity(8, 16)];
    let plans = assign_spawn_targets(&spawn, &Some(targets), Some(3));
    assert_eq!(plans.len(), 5);
    let ents: Vec<Option<u64>> = plans.iter().map(|p| p.target.unwrap().entity).collect();
    assert_eq!(ents, vec![Some(7), Some(8), Some(7), Some(8), Some(7)]);
    assert!(plans.iter().all(|p| p.parent == Some(3)));
    assert_eq!(plans[4].position, 4);
    let plans = assign_spawn_targets(&spawn, &None, None);
    assert!(plans.iter().all(|p| p.target.is_none() && p.parent.is_none()));
}

#[test]
fn spawn_scope_attribute_names() {
    assert_eq!(scope_attribute_name("Distance@scope"), "Distance");
    assert_eq!(scope_attribute_name("Plain"), "Plain");
    assert_eq!(scope_attribute_name("@x"), "");
    let gather: Scope<i64> = vec![("Rank@scope", 2), ("Count", 5)];
    assert_eq!(inherited_attributes(&gather), vec![("Rank", 2), ("Count", 5)]);
}

#[test]
fn spawn_targets_with_spawn_positions() {
    let mut w = world();
    let spawn: Vec<Target<i64>> = vec![Target::position(100), Target::position(200), Target::position(300)];
    let incoming: Vec<Target<i64>> = vec![Target::entity(7, 14), Target::entity(8, 16)];
    // Spawn: one target per spawn position, at that position.
    let gen = TargetGenerator::<Line>::at_spawn();
    let r = generate_targets_with_spawn_positions(&gen, &spawn, &incoming, 1, Target::position(0), 2, &mut w);
    assert_eq!(r.iter().map(|t| t.position).collect::<Vec<_>>(), vec![100, 200, 300]);
    assert!(r.iter().all(|t| t.entity.is_none()));
    // Passed: one target per incoming target.
    let gen = TargetGenerator::<Line>::at_passed();
    let r = generate_targets_with_spawn_positions(&gen, &spawn, &incoming, 1, Target::position(0), 2, &mut w);
    assert_eq!(r.iter().map(|t| t.entity).collect::<Vec<_>>(), vec![Some(7), Some(8)]);
}

#[test]
fn spawn_plan_for_a_go_off() {
    let mut w = world();
    let mut invoked_by = Relation::new();
    invoked_by.relate(40, 30); // effect 40 invoked by ability 30
    invoked_by.relate(30, 1); // ability 30 invoked by player 1
    let mut child_of = Relation::new();
    child_of.relate(40, 30);
    let mut its: ComponentMap<InvokerTarget<i64>> = ComponentMap::new();
    its.insert(1, InvokerTarget::entity(7, 14));
    let mut abilities = EntitySet::new();
    abilities.insert(30);

    let mut templates: TemplateRegistry<u32> = TemplateRegistry::new();
    templates.register("orb", 17);
    let gather: Scope<i64> = vec![("Damage@scope", 12), ("Range", 3)];

    let config = SpawnConfig::<Line>::invoker("orb")
        .with_target_generator(TargetGenerator::at_invoker_target())
        .as_child_of_invoker()
        .with_scope_inheritance();
    match plan_spawn_effect(40, Target::position(5), &gather, &config, &templates, &mut w, &invoked_by, &child_of, &its, &abilities) {
        SpawnDecision::Spawn {
            invoker,
            root,
            ability,
            template,
            invoker_position,
            attributes,
            spawn_targets,
            target_targets,
            plans,
        } => {
            assert_eq!(invoker, 1);
            assert_eq!(root, 30);
            assert_eq!(ability, Some(30));
            assert_eq!(template, 17);
            assert_eq!(invoker_position, 10);
            assert_eq!(attributes, vec![("Damage", 12), ("Range", 3)]);
            assert_eq!(spawn_targets.len(), 1);
            assert_eq!(spawn_targets[0].position, 10);
            assert_eq!(target_targets.unwrap()[0].entity, Some(7));
            assert_eq!(plans[0].parent, Some(1));
            assert_eq!(plans[0].target.unwrap().entity, Some(7));
        }
        _ => panic!("expected a spawn"),
    }
    // Parenting on the passed target, which names no entity: nothing spawns.
    let config = SpawnConfig::<Line>::invoker("orb").as_child_of_passed();
    assert!(matches!(
        plan_spawn_effect(40, Target::position(5), &gather, &config, &templates, &mut w, &invoked_by, &child_of, &its, &abilities),
        SpawnDecision::ParentUnresolved
    ));
    // A gatherer that finds nothing: no spawn positions.
    let config = SpawnConfig::<Line>::at_position("orb", 1000).with_gatherer(1);
    assert!(matches!(
        plan_spawn_effect(40, Target::position(5), &gather, &config, &templates, &mut w, &invoked_by, &child_of, &its, &abilities),
        SpawnDecision::NoSpawnTargets
    ));
    // A target generator that finds nothing.
    let config = SpawnConfig::<Line>::invoker("orb")
        .with_target_generator(TargetGenerator::at_position(1000).with_gatherer(1));
    assert!(matches!(
        plan_spawn_effect(40, Target::position(5), &gather, &config, &templates, &mut w, &invoked_by, &child_of, &its, &abilities),
        SpawnDecision::NoTargetTargets
    ));
    // Without scope inheritance no attributes are set.
    let config = SpawnConfig::<Line>::passed("orb");
    match plan_spawn_effect(40, Target::entity(8, 16), &gather, &config, &templates, &mut w, &invoked_by, &child_of, &its, &abilities) {
        SpawnDecision::Spawn { attributes, spawn_targets, target_targets, .. } => {
            assert!(attributes.is_empty());
            assert_eq!(spawn_targets[0].entity, Some(8));
            assert!(target_targets.is_none());
        }
        _ => panic!("expected a spawn"),
    }
    // An unregistered template is never looked up when nothing spawns.
    let config = SpawnConfig::<Line>::at_position("missing", 1000).with_gatherer(1);
    assert!(matches!(
        plan_spawn_effect(40, Target::position(5), &gather, &config, &templates, &mut w, &invoked_by, &child_of, &its, &abilities),
        SpawnDecision::NoSpawnTargets
    ));
}

#[test]
fn spawn_entities_observer_plans_per_incoming_target() {
    let mut w = world();
    let mut invoked_by = Relation::new();
    invoked_by.relate(40, 1);
    let child_of = Relation::new();
    let mut aims: ComponentMap<Target<i64>> = ComponentMap::new();
    let incoming = vec![Target::entity(7, 14), Target::entity(8, 16)];
    let mut templates: TemplateRegistry<u32> = TemplateRegistry::new();
    templates.register("orb", 17);
    let config = SpawnConfig::<Line>::passed("orb").as_child_of_passed();
    // The invoker has no aim target: nothing spawns.
    assert!(matches!(
        spawn_entities_observer(40, &incoming, &config, &templates, &mut w, &invoked_by, &child_of, &aims),
        SpawnEntitiesDecision::Skip
    ));
    aims.insert(1, Target::position(0));
    assert!(matches!(
        spawn_entities_observer(40, &vec![], &config, &templates, &mut w, &invoked_by, &child_of, &aims),
        SpawnEntitiesDecision::Skip
    ));
    match spawn_entities_observer(40, &incoming, &config, &templates, &mut w, &invoked_by, &child_of, &aims) {
        SpawnEntitiesDecision::Spawn { invoker, root, template, invoker_position, spawn_targets, target_targets, plans } => {
            assert_eq!(invoker, 1);
            assert_eq!(root, 40);
            assert_eq!(template, 17);
            assert_eq!(invoker_position, 10);
            assert_eq!(spawn_targets.iter().map(|t| t.position).collect::<Vec<_>>(), vec![14, 16]);
            assert!(target_targets.is_none());
            // Parented to the first incoming target.
            assert!(plans.iter().all(|p| p.parent == Some(7)));
        }
        _ => panic!("expected a spawn"),
    }
    // An unregistered template is never looked up when the parent does not resolve.
    let config = SpawnConfig::<Line>::passed("missing").as_child_of_passed();
    let positions_only = vec![Target::position(3)];
    assert!(matches!(
        spawn_entities_observer(40, &positions_only, &config, &templates, &mut w, &invoked_by, &child_of, &aims),
        SpawnEntitiesDecision::Skip
    ));
}

#[test]
fn spawn_spawned_entity_components_and_messages() {
    let plan = SpawnPlan { position: 12i64, target: Some(Target::entity(7, 14)), parent: Some(1) };
    let s = spawned_entity(&plan, 99, 1, 10);
    assert_eq!(s.invoked_by, 1);
    assert_eq!(s.position, 12);
    assert_eq!(s.parent, Some(1));
    let t = s.on_spawn_target.unwrap();
    assert_eq!((t.entity, t.target.entity, t.target.position), (99, Some(7), 14));
    assert_eq!((s.on_spawn_origin.entity, s.on_spawn_origin.target.entity, s.on_spawn_origin.target.position), (99, Some(99), 12));
    assert_eq!((s.on_spawn_invoker.entity, s.on_spawn_invoker.target.entity, s.on_spawn_invoker.target.position), (99, Some(1), 10));
    let bare = SpawnPlan { position: 3i64, target: None, parent: None };
    let s = spawned_entity(&bare, 5, 1, 10);
    assert!(s.on_spawn_target.is_none());
    assert!(s.target.is_none() && s.parent.is_none());
}
