//! Attribute effects: instant modifier sets applied on go-off with named
//! roles, and sustained modifiers applied while a state is active.

use vstd::prelude::*;

use crate::backend::SpatialBackend;
use crate::component::ComponentMap;
use crate::effect::{aim_of, invoker_aim};
use crate::pipeline::{base_entity, generate_targets, generated, targets_view};
use crate::relation::{root_of, Entity, Relation};
use crate::target::{InvokerTarget, Scope, Target, TargetGenerator, TargetType};

verus! {

/// An instant modifier set to apply: on `defender`, with expression roles
/// bound to entities.
pub struct InstantApplication {
    pub defender: Entity,
    pub roles: Vec<(&'static str, Entity)>,
}

/// The roles an instant set's expressions see: the attacker (and invoker) is
/// the root of the effect's `InvokedBy` chain, the defender (and target) the
/// go-off's target entity, the ability the effect entity itself.
pub open spec fn instant_roles(attacker: Entity, defender: Entity, ability: Entity) -> Seq<
    (&'static str, Entity),
> {
    seq![
        ("attacker", attacker),
        ("invoker", attacker),
        ("defender", defender),
        ("target", defender),
        ("ability", ability),
    ]
}

/// When a go-off fires on an effect: if the effect carries an instant
/// modifier set and the go-off targets an entity, apply the set to that
/// entity with the roles of [`instant_roles`]; otherwise nothing is applied.
pub fn instant_set_system<P>(
    effect: Entity,
    has_instant_set: bool,
    target: &Target<P>,
    invoked_by: &Relation,
) -> (r: Option<InstantApplication>)
    requires
        invoked_by.wf(),
    ensures
        r is Some <==> has_instant_set && target.entity is Some,
        r matches Some(a) ==> {
            &&& a.defender == target.entity.unwrap()
            &&& a.roles@ == instant_roles(
                root_of(invoked_by.parents(), effect),
                a.defender,
                effect,
            )
        },
{
    if !has_instant_set {
        return None;
    }
    let attacker = invoked_by.root_ancestor(effect);
    let defender = match target.entity {
        Some(d) => d,
        None => {
            return None;
        },
    };
    let mut roles: Vec<(&'static str, Entity)> = Vec::new();
    roles.push(("attacker", attacker));
    roles.push(("invoker", attacker));
    roles.push(("defender", defender));
    roles.push(("target", defender));
    roles.push(("ability", effect));
    proof {
        assert(roles@ =~= instant_roles(attacker, defender, effect));
    }
    Some(InstantApplication { defender, roles })
}

/// Configures a sustained modifier effect: the generator resolves the
/// target when the effect becomes active. Defaults to the invoker
/// (equipment buffs the player).
pub struct SustainedModifierConfig<B: SpatialBackend> {
    pub generator: TargetGenerator<B>,
}

impl<B: SpatialBackend> Default for SustainedModifierConfig<B> {
    /// The default config: the invoker (equipment buffs the player).
    fn default() -> (c: Self)
        ensures
            c.generator == TargetGenerator::<B>::spec_with_type(TargetType::Invoker),
    {
        SustainedModifierConfig { generator: TargetGenerator::at_invoker() }
    }
}

impl<B: SpatialBackend> SustainedModifierConfig<B> {
    /// Use a custom generator.
    pub fn new(generator: TargetGenerator<B>) -> (c: Self)
        ensures
            c.generator == generator,
    {
        SustainedModifierConfig { generator }
    }

    /// Target the invoker (the default).
    pub fn invoker() -> (c: Self)
        ensures
            c.generator == TargetGenerator::<B>::spec_with_type(TargetType::Invoker),
    {
        Self::default()
    }

    /// Target the invoker's current target.
    pub fn invoker_target() -> (c: Self)
        ensures
            c.generator == TargetGenerator::<B>::spec_with_type(TargetType::InvokerTarget),
    {
        Self::new(TargetGenerator::at_invoker_target())
    }
}

/// The first target that names an entity.
pub open spec fn first_entity<P, S>(ts: Seq<(Target<P>, S)>) -> Option<Entity>
    decreases ts.len(),
{
    if ts.len() == 0 {
        None
    } else if ts[0].0.entity is Some {
        ts[0].0.entity
    } else {
        first_entity(ts.drop_first())
    }
}

/// The entity a sustained effect applies to: the first resolved target that
/// names an entity (sustained modifiers are single-target).
pub fn first_entity_target<P, V>(targets: &Vec<(Target<P>, Scope<V>)>) -> (r: Option<Entity>)
    ensures
        r == first_entity(targets@),
{
    let mut i: usize = 0;
    proof {
        assert(targets@.skip(0) =~= targets@);
    }
    while i < targets.len()
        invariant
            i <= targets@.len(),
            first_entity(targets@) == first_entity(targets@.skip(i as int)),
        decreases targets@.len() - i,
    {
        proof {
            assert(targets@.skip(i as int).drop_first() =~= targets@.skip(i + 1));
            assert(targets@.skip(i as int)[0] == targets@[i as int]);
        }
        if let Some(e) = targets[i].0.entity {
            return Some(e);
        }
        i = i + 1;
    }
    proof {
        assert(targets@.skip(i as int).len() == 0);
    }
    None
}

/// When a sustained modifier effect becomes active: resolve its target with
/// the config's generator (the invoker's aim as the passed target) and pick
/// the first entity target; the modifiers are applied to it and it is
/// remembered (`SustainedTarget`) for removal. `None`: no target names an
/// entity, nothing is applied.
pub fn sustained_modifier_apply<B: SpatialBackend>(
    entity: Entity,
    config: &SustainedModifierConfig<B>,
    backend: &mut B,
    invoked_by: &Relation,
    child_of: &Relation,
    invoker_targets: &ComponentMap<InvokerTarget<B::Pos>>,
) -> (r: Option<Entity>)
    requires
        invoked_by.wf(),
        child_of.wf(),
        invoker_targets.wf(),
    ensures
        ({
            let invoker = root_of(invoked_by.parents(), entity);
            let aim = aim_of(invoker_targets@, invoker, B::spec_default_pos());
            let g = generated(
                *old(backend),
                config.generator,
                invoker,
                aim,
                root_of(child_of.parents(), entity),
                B::spec_default_pos(),
                aim,
            );
            &&& r == first_entity(g.1)
            &&& *final(backend) == g.0
        }),
        config.generator.gatherer is None ==> {
            let invoker = root_of(invoked_by.parents(), entity);
            let aim = aim_of(invoker_targets@, invoker, B::spec_default_pos());
            r == base_entity(
                config.generator.target_type,
                invoker,
                aim,
                root_of(child_of.parents(), entity),
                aim,
            )
        },
{
    let invoker = invoked_by.root_ancestor(entity);
    let root = child_of.root_ancestor(entity);
    let invoker_target = invoker_aim(invoker_targets, invoker, B::default_pos());
    let targets = generate_targets(
        &config.generator,
        backend,
        invoker,
        invoker_target,
        root,
        B::default_pos(),
        invoker_target,
    );
    let r = first_entity_target(&targets);
    proof {
        lemma_first_entity_view(targets@);
        if config.generator.gatherer is None {
            assert(targets@.drop_first().len() == 0);
            assert(first_entity(targets@.drop_first()) == None::<Entity>);
        }
    }
    r
}

/// The first entity of a target list does not depend on how its scopes
/// are held.
proof fn lemma_first_entity_view<P, V>(ts: Seq<(Target<P>, Scope<V>)>)
    ensures
        first_entity(targets_view(ts)) == first_entity(ts),
    decreases ts.len(),
{
    if ts.len() > 0 {
        assert(targets_view(ts).drop_first() =~= targets_view(ts.drop_first()));
        lemma_first_entity_view(ts.drop_first());
    }
}

/// What deactivating a sustained modifier effect does.
#[derive(Clone, Copy, Debug, PartialEq, Eq, Structural)]
pub enum SustainedRemoval {
    /// The entity carries no attribute modifiers: nothing to do.
    NoModifiers,
    /// Modifiers but no remembered target: they may have leaked (warned).
    NoSustainedTarget,
    /// Remove the modifiers from this entity and forget it.
    Remove(Entity),
}

/// When a sustained modifier effect stops being active: remove its modifiers
/// from the remembered target.
pub fn sustained_modifier_remove(has_modifiers: bool, sustained_target: Option<Entity>) -> (r:
    SustainedRemoval)
    ensures
        r == (if !has_modifiers {
            SustainedRemoval::NoModifiers
        } else {
            match sustained_target {
                Some(t) => SustainedRemoval::Remove(t),
                None => SustainedRemoval::NoSustainedTarget,
            }
        }),
{
    if !has_modifiers {
        return SustainedRemoval::NoModifiers;
    }
    match sustained_target {
        Some(t) => SustainedRemoval::Remove(t),
        None => SustainedRemoval::NoSustainedTarget,
    }
}

} // verus!
