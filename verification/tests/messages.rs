use lib::collision::{
    can_target_filtered, emit_entity_filtered, emit_entity_if, emit_position_filtered,
    emit_position_if, filtered_collision_system, unfiltered_collision_system, CollidedEntity,
    CollidedPosition, CollisionFilter,
};
use lib::component::ComponentMap;
use lib::despawn::{despawn_effect_system, DespawnEffect};
use lib::print::PrintLn;
use lib::dot::{periodic_tick_system, PeriodicTick};
use lib::events::{go_off_side_effect, HasDieselTarget, Matched, OnRepeat, StartInvoke, StopInvoke};
use lib::gauge::{first_entity_target, instant_set_system, sustained_modifier_remove, SustainedRemoval};
use lib::invoker::{find_ability, invoker_sources, resolve_invoker, resolve_root};
use lib::pipeline::GoOffOrigin;
use lib::propagation::{
    propagate_message, register_propagation_target, register_propagation_target_root,
    PropagatedMessage, RegisterPropagationTarget,
};
use lib::relation::{EntitySet, Links, Relation};
use lib::target::{Scope, Target};

#[test]
fn events_constructors_and_targets() {
    let t = Target::entity(3, 7i64);
    let a = OnRepeat::new(1, t);
    let b = StartInvoke::new(2, t);
    let c = StopInvoke::new(3, Target::position(9i64));
    assert_eq!(a.machine(), 1);
    assert_eq!(b.machine(), 2);
    assert_eq!(c.machine(), 3);
    assert_eq!(a.diesel_target().entity, Some(3));
    assert_eq!(b.diesel_target().position, 7);
    assert_eq!(c.diesel_target().entity, None);
}

#[test]
fn events_side_effect_skips_blocked_edges() {
    let matched = vec![
        Matched { edge: 100, target: 1, message: StartInvoke::new(1, Target::entity(5, 50i64)) },
        Matched { edge: 101, target: 2, message: StartInvoke::new(2, Target::position(6i64)) },
        Matched { edge: 102, target: 3, message: StartInvoke::new(3, Target::entity(7, 70i64)) },
    ];
    let mut blocked = EntitySet::new();
    blocked.insert(101);
    let origins: Vec<GoOffOrigin<i64, i64>> = go_off_side_effect(&matched, &blocked);
    assert_eq!(origins.len(), 2);
    assert_eq!((origins[0].entity, origins[0].target.entity), (1, Some(5)));
    assert_eq!((origins[1].entity, origins[1].target.entity), (3, Some(7)));
    assert!(origins.iter().all(|o| o.gather.is_empty()));
}

#[derive(Clone, Copy, PartialEq, Debug)]
enum Faction {
    Enemies,
    Everyone,
}

impl CollisionFilter for Faction {
    type Lookup = u8;

    fn permits(&self, invoker_data: Option<u8>, target_data: Option<u8>) -> bool {
        self.can_target(invoker_data, target_data)
    }

    fn can_target(&self, invoker_data: Option<u8>, target_data: Option<u8>) -> bool {
        match (self, invoker_data, target_data) {
            (Faction::Enemies, Some(i), Some(t)) => i != t,
            _ => true,
        }
    }
}

fn collision_world() -> (EntitySet, Relation, ComponentMap<i64>, ComponentMap<u8>) {
    // Projectile 10 invoked by player 1 (team 0); enemy 20 (team 1); ally 30 (team 0).
    let mut collides = EntitySet::new();
    collides.insert(10);
    let mut invoked_by = Relation::new();
    invoked_by.relate(10, 1);
    let mut positions: ComponentMap<i64> = ComponentMap::new();
    positions.insert(20, 200);
    positions.insert(30, 300);
    let mut teams: ComponentMap<u8> = ComponentMap::new();
    teams.insert(1, 0);
    teams.insert(20, 1);
    teams.insert(30, 0);
    (collides, invoked_by, positions, teams)
}

#[test]
fn collision_unfiltered_skips_invoker_and_unmarked() {
    let (collides, invoked_by, positions, _) = collision_world();
    let m = emit_entity_if(&collides, &invoked_by, &positions, 0, 10, 20).unwrap();
    assert_eq!(m.entity, 10);
    // The projectile has no position: the target's stands in.
    assert_eq!(m.target.entity, Some(20));
    assert_eq!(m.target.position, 200);
    assert!(emit_entity_if(&collides, &invoked_by, &positions, 0, 10, 1).is_none());
    assert!(emit_entity_if(&collides, &invoked_by, &positions, 0, 20, 10).is_none());
    let p = emit_position_if(&collides, 55i64, 10, 20).unwrap();
    assert_eq!(p.target.position, 55);
    assert!(emit_position_if(&collides, 55i64, 20, 10).is_none());
    let (ents, contacts) =
        unfiltered_collision_system(&collides, &invoked_by, &positions, 0, 10, 20, Some(42));
    assert_eq!(ents.len(), 1);
    assert_eq!(contacts.len(), 1);
    assert_eq!(contacts[0].target.position, 42);
    let (ents, contacts) =
        unfiltered_collision_system(&collides, &invoked_by, &positions, 0, 20, 10, None);
    assert_eq!(ents.len(), 1);
    assert_eq!(ents[0].entity, 10);
    assert!(contacts.is_empty());
}

#[test]
fn collision_filtered_by_faction() {
    let (_, invoked_by, positions, teams) = collision_world();
    let f = Faction::Enemies;
    assert!(can_target_filtered(Some(&f), &teams, &invoked_by, 10, 20));
    assert!(!can_target_filtered(Some(&f), &teams, &invoked_by, 10, 30));
    assert!(!can_target_filtered(Some(&f), &teams, &invoked_by, 10, 1));
    assert!(!can_target_filtered::<Faction>(None, &teams, &invoked_by, 10, 20));
    assert!(can_target_filtered(Some(&Faction::Everyone), &teams, &invoked_by, 10, 30));
    assert!(emit_entity_filtered(Some(&f), &teams, &invoked_by, &positions, 0, 10, 20).is_some());
    assert!(emit_entity_filtered(Some(&f), &teams, &invoked_by, &positions, 0, 10, 30).is_none());
    assert!(emit_position_filtered(Some(&f), &teams, &invoked_by, 5i64, 10, 20).is_some());
    let (ents, contacts) = filtered_collision_system(
        Some(&f), None, &teams, &invoked_by, &positions, 0, 10, 20, Some(9),
    );
    assert_eq!(ents.len(), 1);
    assert_eq!(contacts.len(), 1);
    assert_eq!(contacts[0].entity, 10);
}

#[test]
fn collision_messages_are_side_effects() {
    let e = CollidedEntity::new(10, Target::entity(20, 1i64));
    let p = CollidedPosition::new(10, Target::position(2i64));
    assert_eq!(e.diesel_target().entity, Some(20));
    assert_eq!(p.diesel_target().position, 2);
}

#[derive(Clone, Debug, PartialEq)]
struct Hit {
    defender: u64,
    amount: u32,
}

impl PropagatedMessage for Hit {
    fn addressed_to(&self) -> u64 {
        self.defender
    }
    fn retargeted(&self, entity: u64) -> Self {
        Hit { defender: entity, ..self.clone() }
    }
    fn target(&self) -> u64 {
        self.defender
    }
    fn set_target(&mut self, entity: u64) {
        self.defender = entity;
    }
}

#[test]
fn propagation_forwards_copies_to_subscribers() {
    let mut subs = Links::new();
    assert!(register_propagation_target(&mut subs, &RegisterPropagationTarget::new(5, 1)));
    assert!(register_propagation_target(&mut subs, &RegisterPropagationTarget::new(6, 1)));
    assert!(register_propagation_target(&mut subs, &RegisterPropagationTarget::new(7, 2)));
    assert!(!register_propagation_target(&mut subs, &RegisterPropagationTarget::new(8, 8)));
    let msgs = vec![
        Hit { defender: 1, amount: 10 },
        Hit { defender: 3, amount: 20 },
        Hit { defender: 2, amount: 30 },
    ];
    let mut pending = 4usize;
    let out = propagate_message(&msgs, &subs, &mut pending);
    assert_eq!(
        out,
        vec![
            Hit { defender: 5, amount: 10 },
            Hit { defender: 6, amount: 10 },
            Hit { defender: 7, amount: 30 },
        ]
    );
    assert_eq!(pending, 7);
    // The subscribers have no subscribers of their own: nothing goes further.
    let again = propagate_message(&out, &subs, &mut pending);
    assert!(again.is_empty());
    assert_eq!(pending, 7);
}

#[test]
fn propagation_subscribes_marked_entities_to_their_root() {
    let mut child_of = Relation::new();
    child_of.relate(2, 1);
    child_of.relate(3, 2);
    let mut subs = Links::new();
    register_propagation_target_root(&mut subs, &vec![3, 1], &child_of);
    assert_eq!(subs.parent_of(3), Some(1));
    // The root would subscribe to itself: refused.
    assert_eq!(subs.parent_of(1), None);
}

#[test]
fn dot_ticks_each_affected_entity() {
    let mut affected = Links::new();
    affected.link(20, 1);
    affected.link(21, 1);
    affected.link(22, 2);
    let ticks = periodic_tick_system(&vec![2, 1, 3], &affected);
    assert_eq!(
        ticks,
        vec![PeriodicTick::new(2, 22), PeriodicTick::new(1, 20), PeriodicTick::new(1, 21)]
    );
    assert_eq!(ticks[0].source, 2);
    assert_eq!(ticks[0].target, 22);
}

#[test]
fn despawn_and_print_effects() {
    let _marker = DespawnEffect;
    assert_eq!(despawn_effect_system(true, &Target::entity(4, 0i64)), Some(4));
    assert_eq!(despawn_effect_system(true, &Target::position(0i64)), None);
    assert_eq!(despawn_effect_system(false, &Target::entity(4, 0i64)), None);
    let p = PrintLn::new("hello");
    assert_eq!(p.message, "hello");
}

#[test]
fn gauge_instant_roles() {
    let mut invoked_by = Relation::new();
    invoked_by.relate(10, 2);
    invoked_by.relate(2, 1);
    let app = instant_set_system(10, true, &Target::entity(7, 0i64), &invoked_by).unwrap();
    assert_eq!(app.defender, 7);
    assert_eq!(
        app.roles,
        vec![("attacker", 1), ("invoker", 1), ("defender", 7), ("target", 7), ("ability", 10)]
    );
    assert!(instant_set_system(10, true, &Target::position(0i64), &invoked_by).is_none());
    assert!(instant_set_system(10, false, &Target::entity(7, 0i64), &invoked_by).is_none());
}

#[test]
fn gauge_sustained_removal_and_first_entity() {
    assert_eq!(sustained_modifier_remove(false, Some(3)), SustainedRemoval::NoModifiers);
    assert_eq!(sustained_modifier_remove(true, None), SustainedRemoval::NoSustainedTarget);
    assert_eq!(sustained_modifier_remove(true, Some(3)), SustainedRemoval::Remove(3));
    let ts: Vec<(Target<i64>, Scope<i64>)> = vec![
        (Target::position(1), vec![]),
        (Target::entity(8, 2), vec![]),
        (Target::entity(9, 3), vec![]),
    ];
    assert_eq!(first_entity_target(&ts), Some(8));
    let none: Vec<(Target<i64>, Scope<i64>)> = vec![(Target::position(1), vec![])];
    assert_eq!(first_entity_target(&none), None);
}

#[test]
fn invoker_resolution_and_sources() {
    let mut invoked_by = Relation::new();
    invoked_by.relate(12, 11); // sub-state 12 invoked by ability 11
    invoked_by.relate(11, 1); // ability 11 invoked by player 1
    let mut substate_of = Relation::new();
    substate_of.relate(12, 11);
    let mut abilities = EntitySet::new();
    abilities.insert(11);
    assert_eq!(resolve_invoker(&invoked_by, 12), 1);
    assert_eq!(resolve_root(&substate_of, 12), 11);
    assert_eq!(find_ability(12, &invoked_by, &abilities), Some(11));
    assert_eq!(find_ability(1, &invoked_by, &abilities), None);
    assert_eq!(invoker_sources(12, &invoked_by, &abilities), vec![("invoker", 1), ("ability", 11)]);
    assert_eq!(invoker_sources(1, &invoked_by, &abilities), vec![("invoker", 1)]);
}
