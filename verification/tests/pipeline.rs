use lib::backend::SpatialBackend;
use lib::component::ComponentMap;
use lib::effect::{go_off_on_entry, invoker_aim, origins_from_targets, GoOffConfig};
use lib::gauge::{sustained_modifier_apply, SustainedModifierConfig};
use lib::pipeline::{
    generate_targets, merge_scope, merge_scope_into_targets, propagate_origin,
    resolve_base_target, GoOff, GoOffOrigin, Mutators, INVOKER_DISTANCE_KEY,
};
use lib::relation::Relation;
use lib::target::{InvokerTarget, Scope, Target, TargetGenerator, TargetMutator, TargetType};

/// A one-dimensional world: entities at integer positions.
struct Line {
    positions: Vec<(u64, i64)>,
}

impl SpatialBackend for Line {
    type Pos = i64;
    type Offset = i64;
    /// Gather radius.
    type Gatherer = i64;
    /// Keep at most this many targets.
    type Filter = usize;
    type Scalar = i64;

    fn spec_default_pos() -> i64 {
        0
    }
    fn spec_default_offset() -> i64 {
        0
    }
    fn spec_default_filter() -> usize {
        usize::MAX
    }
    fn default_pos() -> i64 {
        0
    }
    fn default_offset() -> i64 {
        0
    }
    fn default_filter() -> usize {
        usize::MAX
    }
    fn spec_apply_offset(&self, pos: i64, offset: i64) -> (Self, i64) {
        let mut after = Line { positions: self.positions.clone() };
        let moved = after.apply_offset(pos, &offset);
        (after, moved)
    }
    fn spec_distance(&self, a: i64, b: i64) -> i64 {
        self.distance(&a, &b)
    }
    fn spec_position_of(&self, entity: u64) -> Option<i64> {
        self.position_of(entity)
    }
    fn spec_gather(&self, origin: i64, radius: i64, exclude: u64) -> (Self, Vec<(Target<i64>, Scope<i64>)>) {
        let mut after = Line { positions: self.positions.clone() };
        let found = after.gather(origin, &radius, exclude);
        (after, found)
    }
    fn spec_apply_filter(
        &self,
        targets: Vec<(Target<i64>, Scope<i64>)>,
        filter: usize,
        invoker: u64,
        origin: i64,
    ) -> (Self, Vec<(Target<i64>, Scope<i64>)>) {
        let mut after = Line { positions: self.positions.clone() };
        let kept = after.apply_filter(targets, &filter, invoker, origin);
        (after, kept)
    }
    fn apply_offset(&mut self, pos: i64, offset: &i64) -> i64 {
        pos + offset
    }
    fn distance(&self, a: &i64, b: &i64) -> i64 {
        (a - b).abs()
    }
    fn position_of(&self, entity: u64) -> Option<i64> {
        self.positions.iter().find(|(e, _)| *e == entity).map(|(_, p)| *p)
    }
    fn gather(&mut self, origin: i64, radius: &i64, exclude: u64) -> Vec<(Target<i64>, Scope<i64>)> {
        self.positions
            .iter()
            .filter(|(e, p)| *e != exclude && (p - origin).abs() <= *radius)
            .map(|(e, p)| (Target::entity(*e, *p), vec![("Distance@scope", (p - origin).abs())]))
            .collect()
    }
    fn apply_filter(
        &mut self,
        mut targets: Vec<(Target<i64>, Scope<i64>)>,
        filter: &usize,
        _invoker: u64,
        _origin: i64,
    ) -> Vec<(Target<i64>, Scope<i64>)> {
        targets.truncate(*filter);
        targets
    }
}

fn world() -> Line {
    // invoker 1 at 10, root 2 at 0, enemies 7 at 14 and 8 at 30.
    Line { positions: vec![(1, 10), (2, 0), (7, 14), (8, 30)] }
}

#[test]
fn pipeline_resolve_base_target_per_type() {
    let aim = Target::entity(7, 14);
    let passed = Target::position(3);
    let r = |t: TargetType<i64>| resolve_base_target(&t, 1, Some(10), aim, 2, None, 5, passed, -1);
    assert_eq!(r(TargetType::Invoker).entity, Some(1));
    assert_eq!(r(TargetType::Invoker).position, 10);
    // The root has no position: the default stands in.
    assert_eq!(r(TargetType::Root).entity, Some(2));
    assert_eq!(r(TargetType::Root).position, -1);
    assert_eq!(r(TargetType::InvokerTarget).entity, Some(7));
    assert_eq!(r(TargetType::Spawn).entity, None);
    assert_eq!(r(TargetType::Spawn).position, 5);
    assert_eq!(r(TargetType::Passed).position, 3);
    assert_eq!(r(TargetType::Position(99)).position, 99);
    assert_eq!(r(TargetType::Position(99)).entity, None);
}

#[test]
fn pipeline_generate_targets_without_gatherer_offsets_and_records_distance() {
    let mut w = world();
    let gen = TargetGenerator::<Line>::at_invoker().with_offset(5);
    let out = generate_targets(&gen, &mut w, 1, Target::entity(7, 14), 2, 0, Target::position(0));
    assert_eq!(out.len(), 1);
    assert_eq!(out[0].0.entity, Some(1));
    assert_eq!(out[0].0.position, 15);
    assert_eq!(out[0].1, vec![(INVOKER_DISTANCE_KEY, 5)]);
}

#[test]
fn pipeline_generate_targets_with_gatherer_gathers_around_offset() {
    let mut w = world();
    let gen = TargetGenerator::<Line>::at_position(12).with_gatherer(3);
    let out = generate_targets(&gen, &mut w, 1, Target::position(0), 2, 0, Target::position(0));
    // The invoker itself is excluded; only entity 7 (at 14) lies within 3 of 12.
    assert_eq!(out.len(), 1);
    assert_eq!(out[0].0.entity, Some(7));
    assert_eq!(out[0].1, vec![("Distance@scope", 2), (INVOKER_DISTANCE_KEY, 4)]);
}

#[test]
fn pipeline_merge_scope_existing_keys_win() {
    let mut s: Scope<i64> = vec![("A@scope", 1), ("B@scope", 2)];
    let parent: Scope<i64> = vec![("B@scope", 20), ("C@scope", 30), ("C@scope", 31)];
    merge_scope(&mut s, &parent);
    assert_eq!(s, vec![("A@scope", 1), ("B@scope", 2), ("C@scope", 30)]);

    let mut ts: Vec<(Target<i64>, Scope<i64>)> =
        vec![(Target::position(1), vec![]), (Target::entity(3, 4), vec![("C@scope", 0)])];
    merge_scope_into_targets(&mut ts, &parent);
    assert_eq!(ts[0].1, vec![("B@scope", 20), ("C@scope", 30)]);
    assert_eq!(ts[1].1, vec![("C@scope", 0), ("B@scope", 20)]);
    assert_eq!(ts[1].0.entity, Some(3));
}

#[test]
fn pipeline_go_off_messages_carry_their_scope() {
    let o: GoOffOrigin<i64, i64> = GoOffOrigin::new(4, Target::position(2));
    assert_eq!(o.entity, 4);
    assert!(o.gather.is_empty());
    let g: GoOff<i64, i64> = GoOff::with_gather(5, Target::entity(1, 1), vec![("K@go_off", 3)]);
    assert_eq!(g.gather, vec![("K@go_off", 3)]);
    let o2: GoOffOrigin<i64, i64> = GoOffOrigin::with_gather(6, Target::position(0), vec![("X", 1)]);
    assert_eq!(o2.gather.len(), 1);
    let g2: GoOff<i64, i64> = GoOff::new(9, Target::position(7));
    assert_eq!(g2.target.position, 7);
}

/// origin 10 -> effects 11, 12; 11 -> 13; 12 -> 14, 15.
fn effect_tree() -> Relation {
    let mut sub = Relation::new();
    sub.relate(11, 10);
    sub.relate(12, 10);
    sub.relate(13, 11);
    sub.relate(14, 12);
    sub.relate(15, 12);
    sub
}

#[test]
fn pipeline_propagation_visits_every_descendant_once() {
    let mut w = world();
    let sub = effect_tree();
    let mutators: Mutators<Line> = Mutators::new();
    let mut invoked_by = Relation::new();
    invoked_by.relate(10, 1);
    let child_of = Relation::new();
    let its: ComponentMap<InvokerTarget<i64>> = ComponentMap::new();
    let origin = GoOffOrigin::with_gather(10, Target::entity(7, 14), vec![("Hit@go_off", 1)]);
    let batches = propagate_origin(&origin, &mut w, &sub, &mutators, &invoked_by, &child_of, &its);
    let entities: Vec<u64> = batches.iter().map(|b| b.entity).collect();
    // Origin first, then its children, then the walks below them (last child first).
    assert_eq!(entities, vec![10, 11, 12, 14, 15, 13]);
    // Without mutators every effect receives the origin's target and scope.
    for b in &batches {
        assert_eq!(b.targets.len(), 1);
        assert_eq!(b.targets[0].0.entity, Some(7));
        assert_eq!(b.targets[0].1, vec![("Hit@go_off", 1)]);
    }
}

#[test]
fn pipeline_propagation_mutator_retargets_subtree() {
    let mut w = world();
    let sub = effect_tree();
    let mut mutators: Mutators<Line> = Mutators::new();
    mutators.insert(12, TargetMutator::invoker());
    let mut invoked_by = Relation::new();
    invoked_by.relate(10, 1);
    let child_of = Relation::new();
    let its: ComponentMap<InvokerTarget<i64>> = ComponentMap::new();
    let origin = GoOffOrigin::with_gather(10, Target::entity(7, 14), vec![("Hit@go_off", 1)]);
    let batches = propagate_origin(&origin, &mut w, &sub, &mutators, &invoked_by, &child_of, &its);
    for b in &batches {
        let t = &b.targets[0];
        if b.entity == 12 || b.entity == 14 || b.entity == 15 {
            // Retargeted at the invoker (entity 1 at 10), inheriting the incoming scope.
            assert_eq!(t.0.entity, Some(1), "entity {}", b.entity);
            assert_eq!(t.0.position, 10);
            assert_eq!(t.1, vec![(INVOKER_DISTANCE_KEY, 0), ("Hit@go_off", 1)]);
        } else {
            assert_eq!(t.0.entity, Some(7), "entity {}", b.entity);
        }
    }
}

#[test]
fn effect_go_off_on_entry_emits_one_origin_per_target() {
    let mut w = world();
    let mut invoked_by = Relation::new();
    invoked_by.relate(20, 1);
    let child_of = Relation::new();
    let mut its: ComponentMap<InvokerTarget<i64>> = ComponentMap::new();
    its.insert(1, InvokerTarget::entity(8, 30));
    // Default config: the invoker's target.
    let cfg = GoOffConfig::<Line>::default();
    let origins = go_off_on_entry(20, &cfg, &mut w, &invoked_by, &child_of, &its);
    assert_eq!(origins.len(), 1);
    assert_eq!(origins[0].entity, 20);
    assert_eq!(origins[0].target.entity, Some(8));
    // A gatherer around the invoker, limited to one target by the filter.
    let cfg = GoOffConfig::<Line>::invoker().with_gatherer(100).with_filter(1);
    let origins = go_off_on_entry(20, &cfg, &mut w, &invoked_by, &child_of, &its);
    assert_eq!(origins.len(), 1);
    assert_eq!(origins[0].target.entity, Some(2));
    let cfg = GoOffConfig::<Line>::root().with_offset(4);
    assert_eq!(cfg.generator.offset, 4);
    let cfg = GoOffConfig::<Line>::at_position(3);
    assert!(matches!(cfg.generator.target_type, TargetType::Position(3)));
    let cfg = GoOffConfig::<Line>::spawn();
    assert!(matches!(cfg.generator.target_type, TargetType::Spawn));
    let cfg = GoOffConfig::<Line>::invoker_target();
    assert!(matches!(cfg.generator.target_type, TargetType::InvokerTarget));
}

#[test]
fn effect_origins_from_targets_keep_order() {
    let ts: Vec<(Target<i64>, Scope<i64>)> =
        vec![(Target::position(1), vec![("a", 1)]), (Target::entity(2, 2), vec![])];
    let os = origins_from_targets(9, ts);
    assert_eq!(os.len(), 2);
    assert_eq!(os[0].entity, 9);
    assert_eq!(os[0].gather, vec![("a", 1)]);
    assert_eq!(os[1].target.entity, Some(2));
}

#[test]
fn effect_invoker_aim_defaults_to_position_only() {
    let mut its: ComponentMap<InvokerTarget<i64>> = ComponentMap::new();
    its.insert(1, InvokerTarget::position(5));
    let a = invoker_aim(&its, 1, -1);
    assert_eq!(a.entity, None);
    assert_eq!(a.position, 5);
    let b = invoker_aim(&its, 2, -1);
    assert_eq!(b.entity, None);
    assert_eq!(b.position, -1);
}

#[test]
fn gauge_sustained_modifier_targets_first_entity() {
    let mut w = world();
    let mut invoked_by = Relation::new();
    invoked_by.relate(30, 1);
    let child_of = Relation::new();
    let its: ComponentMap<InvokerTarget<i64>> = ComponentMap::new();
    // Default: the invoker.
    let cfg = SustainedModifierConfig::<Line>::invoker();
    assert_eq!(sustained_modifier_apply(30, &cfg, &mut w, &invoked_by, &child_of, &its), Some(1));
    // The invoker has no aim: a position-only target names no entity.
    let cfg = SustainedModifierConfig::<Line>::invoker_target();
    assert_eq!(sustained_modifier_apply(30, &cfg, &mut w, &invoked_by, &child_of, &its), None);
    let cfg = SustainedModifierConfig::new(TargetGenerator::<Line>::at_root());
    assert_eq!(sustained_modifier_apply(30, &cfg, &mut w, &invoked_by, &child_of, &its), Some(30));
}

#[test]
fn defaults_match_documented_behavior() {
    assert!(matches!(TargetType::<i64>::default(), TargetType::Passed));
    let g = TargetGenerator::<Line>::default();
    assert!(matches!(g.target_type, TargetType::Passed));
    assert_eq!(g.offset, 0);
    assert_eq!(g.gatherer, None);
    assert_eq!(g.filter, usize::MAX);
    let c = GoOffConfig::<Line>::default();
    assert!(matches!(c.generator.target_type, TargetType::InvokerTarget));
    let s = SustainedModifierConfig::<Line>::default();
    assert!(matches!(s.generator.target_type, TargetType::Invoker));
}
