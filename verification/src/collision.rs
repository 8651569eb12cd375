//! Collision messages: which collisions fire an ability's effect, with or
//! without a user filter (factions, teams, ...).

use vstd::prelude::*;

use crate::component::ComponentMap;
use crate::events::HasDieselTarget;
use crate::relation::{root_of, Entity, EntitySet, Relation};
use crate::target::Target;

verus! {

/// An ability collided with an entity target.
#[derive(Clone, Copy, Debug)]
pub struct CollidedEntity<P> {
    pub entity: Entity,
    pub target: Target<P>,
}

/// An ability collided at a contact point.
#[derive(Clone, Copy, Debug)]
pub struct CollidedPosition<P> {
    pub entity: Entity,
    pub target: Target<P>,
}

impl<P: Copy> CollidedEntity<P> {
    /// `entity` collided with `target`.
    pub fn new(entity: Entity, target: Target<P>) -> (m: Self)
        ensures
            m.entity == entity,
            m.target == target,
    {
        CollidedEntity { entity, target }
    }
}

impl<P: Copy> CollidedPosition<P> {
    /// `entity` collided at `target`.
    pub fn new(entity: Entity, target: Target<P>) -> (m: Self)
        ensures
            m.entity == entity,
            m.target == target,
    {
        CollidedPosition { entity, target }
    }
}

impl<P: Copy> HasDieselTarget<P> for CollidedEntity<P> {
    open spec fn payload_target(&self) -> Target<P> {
        self.target
    }

    fn diesel_target(&self) -> (t: Target<P>) {
        self.target
    }
}

impl<P: Copy> HasDieselTarget<P> for CollidedPosition<P> {
    open spec fn payload_target(&self) -> Target<P> {
        self.target
    }

    fn diesel_target(&self) -> (t: Target<P>) {
        self.target
    }
}

/// Decides whether an ability may affect a target. The filter sits on the
/// ability entity; its `Lookup` component is read on the invoker and the
/// target.
pub trait CollisionFilter: Sized {
    /// The component read on the invoker and on the target.
    type Lookup: Copy;

    /// Whether the ability affects a target, given the invoker's and the
    /// target's lookup components.
    spec fn permits(&self, invoker_data: Option<Self::Lookup>, target_data: Option<Self::Lookup>) -> bool;

    /// Whether the ability affects a target (see [`CollisionFilter::permits`]).
    fn can_target(&self, invoker_data: Option<Self::Lookup>, target_data: Option<Self::Lookup>) -> (b:
        bool)
        ensures
            b == self.permits(invoker_data, target_data),
    ;
}

/// Where an entity collision is reported: the ability's position, else the
/// target's, else `default`.
pub open spec fn collision_position<P>(positions: Map<Entity, P>, ability: Entity, target: Entity, default: P) -> P {
    if positions.contains_key(ability) {
        positions[ability]
    } else if positions.contains_key(target) {
        positions[target]
    } else {
        default
    }
}

/// The collision position (see [`collision_position`]).
fn collision_pos<P: Copy>(positions: &ComponentMap<P>, ability: Entity, target: Entity, default: P) -> (r: P)
    requires
        positions.wf(),
    ensures
        r == collision_position(positions@, ability, target, default),
{
    match positions.get(ability) {
        Some(p) => p,
        None => match positions.get(target) {
            Some(p) => p,
            None => default,
        },
    }
}

/// An entity collision message for an ability marked `Collides`, unless the
/// target is the ability's own invoker (root of `InvokedBy`).
pub fn emit_entity_if<P: Copy>(
    collides: &EntitySet,
    invoked_by: &Relation,
    positions: &ComponentMap<P>,
    default: P,
    ability: Entity,
    target: Entity,
) -> (r: Option<CollidedEntity<P>>)
    requires
        invoked_by.wf(),
        positions.wf(),
    ensures
        r is Some <==> collides@.contains(ability) && target != root_of(invoked_by.parents(), ability),
        r matches Some(m) ==> m.entity == ability && m.target == (Target {
            entity: Some(target),
            position: collision_position(positions@, ability, target, default),
        }),
{
    if !collides.contains(ability) {
        return None;
    }
    let invoker = invoked_by.root_ancestor(ability);
    if target == invoker {
        return None;
    }
    let position = collision_pos(positions, ability, target, default);
    Some(CollidedEntity::new(ability, Target::entity(target, position)))
}

/// A contact-point collision message for an ability marked `Collides`.
pub fn emit_position_if<P: Copy>(collides: &EntitySet, position: P, ability: Entity, target: Entity) -> (r:
    Option<CollidedPosition<P>>)
    ensures
        r is Some <==> collides@.contains(ability),
        r matches Some(m) ==> m.entity == ability && m.target == (Target {
            entity: Some(target),
            position,
        }),
{
    if !collides.contains(ability) {
        return None;
    }
    Some(CollidedPosition::new(ability, Target::entity(target, position)))
}

/// The lookup component of an entity, if it has one.
pub open spec fn lookup_of<L>(lookups: Map<Entity, L>, e: Entity) -> Option<L> {
    if lookups.contains_key(e) {
        Some(lookups[e])
    } else {
        None
    }
}

/// Whether a filtered ability may affect `target`: it needs a filter, the
/// target must not be its invoker (root of `InvokedBy`), and the filter must
/// permit the invoker's and the target's lookup components.
pub open spec fn filter_allows<F: CollisionFilter>(
    filter: Option<&F>,
    lookups: Map<Entity, F::Lookup>,
    invoked_by: Map<Entity, Entity>,
    ability: Entity,
    target: Entity,
) -> bool {
    match filter {
        None => false,
        Some(f) => {
            let invoker = root_of(invoked_by, ability);
            target != invoker && f.permits(lookup_of(lookups, invoker), lookup_of(lookups, target))
        },
    }
}

/// Whether a filtered ability may affect `target` (see [`filter_allows`]).
pub fn can_target_filtered<F: CollisionFilter>(
    filter: Option<&F>,
    lookups: &ComponentMap<F::Lookup>,
    invoked_by: &Relation,
    ability: Entity,
    target: Entity,
) -> (b: bool)
    requires
        invoked_by.wf(),
        lookups.wf(),
    ensures
        b == filter_allows(filter, lookups@, invoked_by.parents(), ability, target),
{
    let f = match filter {
        Some(f) => f,
        None => {
            return false;
        },
    };
    let invoker = invoked_by.root_ancestor(ability);
    if target == invoker {
        return false;
    }
    f.can_target(lookups.get(invoker), lookups.get(target))
}

/// An entity collision message for a filtered ability the filter lets
/// affect `target`.
pub fn emit_entity_filtered<P: Copy, F: CollisionFilter>(
    filter: Option<&F>,
    lookups: &ComponentMap<F::Lookup>,
    invoked_by: &Relation,
    positions: &ComponentMap<P>,
    default: P,
    ability: Entity,
    target: Entity,
) -> (r: Option<CollidedEntity<P>>)
    requires
        invoked_by.wf(),
        lookups.wf(),
        positions.wf(),
    ensures
        r is Some <==> filter_allows(filter, lookups@, invoked_by.parents(), ability, target),
        r matches Some(m) ==> m.entity == ability && m.target == (Target {
            entity: Some(target),
            position: collision_position(positions@, ability, target, default),
        }),
{
    if !can_target_filtered(filter, lookups, invoked_by, ability, target) {
        return None;
    }
    let position = collision_pos(positions, ability, target, default);
    Some(CollidedEntity::new(ability, Target::entity(target, position)))
}

/// A contact-point collision message for a filtered ability the filter lets
/// affect `target`.
pub fn emit_position_filtered<P: Copy, F: CollisionFilter>(
    filter: Option<&F>,
    lookups: &ComponentMap<F::Lookup>,
    invoked_by: &Relation,
    position: P,
    ability: Entity,
    target: Entity,
) -> (r: Option<CollidedPosition<P>>)
    requires
        invoked_by.wf(),
        lookups.wf(),
    ensures
        r is Some <==> filter_allows(filter, lookups@, invoked_by.parents(), ability, target),
        r matches Some(m) ==> m.entity == ability && m.target == (Target {
            entity: Some(target),
            position,
        }),
{
    if !can_target_filtered(filter, lookups, invoked_by, ability, target) {
        return None;
    }
    Some(CollidedPosition::new(ability, Target::entity(target, position)))
}

/// The messages of one collision start between `collider1` and `collider2`
/// for abilities marked `Collides`: an entity message for each direction
/// (first 1 hitting 2, then 2 hitting 1), and, when the colliders touch at
/// a deepest contact point, a position message for each direction.
pub fn unfiltered_collision_system<P: Copy>(
    collides: &EntitySet,
    invoked_by: &Relation,
    positions: &ComponentMap<P>,
    default: P,
    collider1: Entity,
    collider2: Entity,
    contact: Option<P>,
) -> (r: (Vec<CollidedEntity<P>>, Vec<CollidedPosition<P>>))
    requires
        invoked_by.wf(),
        positions.wf(),
    ensures
        r.0@.len() == (if collides@.contains(collider1) && collider2 != root_of(invoked_by.parents(), collider1) { 1int } else { 0int })
            + (if collides@.contains(collider2) && collider1 != root_of(invoked_by.parents(), collider2) { 1int } else { 0int }),
        forall|i: int| 0 <= i < r.0@.len() ==> {
            let m = #[trigger] r.0@[i];
            let (a, t) = if i == 0 && collides@.contains(collider1) && collider2 != root_of(invoked_by.parents(), collider1) {
                (collider1, collider2)
            } else {
                (collider2, collider1)
            };
            m.entity == a && m.target == (Target {
                entity: Some(t),
                position: collision_position(positions@, a, t, default),
            })
        },
        contact is None ==> r.1@.len() == 0,
        contact matches Some(p) ==> {
            &&& r.1@.len() == (if collides@.contains(collider1) { 1int } else { 0int }) + (if collides@.contains(collider2) { 1int } else { 0int })
            &&& forall|i: int| 0 <= i < r.1@.len() ==> {
                let m = #[trigger] r.1@[i];
                let (a, t) = if i == 0 && collides@.contains(collider1) {
                    (collider1, collider2)
                } else {
                    (collider2, collider1)
                };
                m.entity == a && m.target == (Target { entity: Some(t), position: p })
            }
        },
{
    let mut entities: Vec<CollidedEntity<P>> = Vec::new();
    let mut contacts: Vec<CollidedPosition<P>> = Vec::new();
    if let Some(m) = emit_entity_if(collides, invoked_by, positions, default, collider1, collider2) {
        entities.push(m);
    }
    if let Some(m) = emit_entity_if(collides, invoked_by, positions, default, collider2, collider1) {
        entities.push(m);
    }
    if let Some(p) = contact {
        if let Some(m) = emit_position_if(collides, p, collider1, collider2) {
            contacts.push(m);
        }
        if let Some(m) = emit_position_if(collides, p, collider2, collider1) {
            contacts.push(m);
        }
    }
    (entities, contacts)
}

/// The messages of one collision start between `collider1` (whose filter,
/// if any, is `filter1`) and `collider2` (`filter2`): an entity message for
/// each direction the filter allows (first 1 hitting 2, then 2 hitting 1),
/// and, when the colliders touch at a deepest contact point, a position
/// message for each allowed direction.
pub fn filtered_collision_system<P: Copy, F: CollisionFilter>(
    filter1: Option<&F>,
    filter2: Option<&F>,
    lookups: &ComponentMap<F::Lookup>,
    invoked_by: &Relation,
    positions: &ComponentMap<P>,
    default: P,
    collider1: Entity,
    collider2: Entity,
    contact: Option<P>,
) -> (r: (Vec<CollidedEntity<P>>, Vec<CollidedPosition<P>>))
    requires
        invoked_by.wf(),
        lookups.wf(),
        positions.wf(),
    ensures
        ({
            let ok1 = filter_allows(filter1, lookups@, invoked_by.parents(), collider1, collider2);
            let ok2 = filter_allows(filter2, lookups@, invoked_by.parents(), collider2, collider1);
            &&& r.0@.len() == (if ok1 { 1int } else { 0int }) + (if ok2 { 1int } else { 0int })
            &&& forall|i: int| 0 <= i < r.0@.len() ==> {
                let m = #[trigger] r.0@[i];
                let (a, t) = if i == 0 && ok1 { (collider1, collider2) } else { (collider2, collider1) };
                m.entity == a && m.target == (Target {
                    entity: Some(t),
                    position: collision_position(positions@, a, t, default),
                })
            }
            &&& contact is None ==> r.1@.len() == 0
            &&& contact matches Some(p) ==> {
                &&& r.1@.len() == (if ok1 { 1int } else { 0int }) + (if ok2 { 1int } else { 0int })
                &&& forall|i: int| 0 <= i < r.1@.len() ==> {
                    let m = #[trigger] r.1@[i];
                    let (a, t) = if i == 0 && ok1 { (collider1, collider2) } else { (collider2, collider1) };
                    m.entity == a && m.target == (Target { entity: Some(t), position: p })
                }
            }
        }),
{
    let mut entities: Vec<CollidedEntity<P>> = Vec::new();
    let mut contacts: Vec<CollidedPosition<P>> = Vec::new();
    if let Some(m) = emit_entity_filtered(filter1, lookups, invoked_by, positions, default, collider1, collider2) {
        entities.push(m);
    }
    if let Some(m) = emit_entity_filtered(filter2, lookups, invoked_by, positions, default, collider2, collider1) {
        entities.push(m);
    }
    if let Some(p) = contact {
        if let Some(m) = emit_position_filtered(filter1, lookups, invoked_by, p, collider1, collider2) {
            contacts.push(m);
        }
        if let Some(m) = emit_position_filtered(filter2, lookups, invoked_by, p, collider2, collider1) {
            contacts.push(m);
        }
    }
    (entities, contacts)
}

} // verus!
