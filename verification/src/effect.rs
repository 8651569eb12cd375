//! Effect entry: the `GoOffConfig` that fires the pipeline when a state
//! becomes active, and the message-scope hook of transition messages.

use vstd::prelude::*;

use crate::backend::SpatialBackend;
use crate::component::ComponentMap;
use crate::pipeline::{generate_targets, generated, scoped_view, targets_view, GoOffOrigin};
use crate::relation::{root_of, Entity, Relation};
use crate::target::{InvokerTarget, Scope, Target, TargetGenerator, TargetType};

verus! {

/// Exposes a message's payload to downstream effects as scope entries
/// (keys use the `@go_off` suffix by convention). Empty unless overridden.
pub trait MessageScope<V>: Sized {
    /// The message's scope entries (none unless overridden).
    fn scope(&self) -> (r: Scope<V>)
        default_ensures
            r@ == Seq::<(&'static str, V)>::empty(),
    {
        Vec::new()
    }
}

/// The invoker's aim as a target: its `InvokerTarget`, or a position-only
/// target at `default` when it has none.
pub open spec fn aim_of<P>(its: Map<Entity, InvokerTarget<P>>, invoker: Entity, default: P) -> Target<
    P,
> {
    if its.contains_key(invoker) {
        Target { entity: its[invoker].entity, position: its[invoker].position }
    } else {
        Target { entity: None, position: default }
    }
}

/// The invoker's aim as a target (see [`aim_of`]).
pub fn invoker_aim<P: Copy>(invoker_targets: &ComponentMap<InvokerTarget<P>>, invoker: Entity, default: P) -> (r:
    Target<P>)
    requires
        invoker_targets.wf(),
    ensures
        r == aim_of(invoker_targets@, invoker, default),
{
    match invoker_targets.get(invoker) {
        Some(it) => Target::from_invoker_target(it),
        None => Target { entity: None, position: default },
    }
}

/// Fires the effect pipeline when its state becomes active. The generator
/// resolves 1..N targets; one `GoOffOrigin` is emitted per target.
pub struct GoOffConfig<B: SpatialBackend> {
    pub generator: TargetGenerator<B>,
}

impl<B: SpatialBackend> Default for GoOffConfig<B> {
    /// The default config: the invoker's current target.
    fn default() -> (c: Self)
        ensures
            c.generator == TargetGenerator::<B>::spec_with_type(TargetType::InvokerTarget),
    {
        GoOffConfig { generator: TargetGenerator::at_invoker_target() }
    }
}

impl<B: SpatialBackend> GoOffConfig<B> {

    /// Use a custom generator.
    pub fn new(generator: TargetGenerator<B>) -> (c: Self)
        ensures
            c.generator == generator,
    {
        GoOffConfig { generator }
    }

    /// Target the invoker entity (e.g. a self-heal).
    pub fn invoker() -> (c: Self)
        ensures
            c.generator == TargetGenerator::<B>::spec_with_type(TargetType::Invoker),
    {
        Self::new(TargetGenerator::at_invoker())
    }

    /// Target the invoker's current target.
    pub fn invoker_target() -> (c: Self)
        ensures
            c.generator == TargetGenerator::<B>::spec_with_type(TargetType::InvokerTarget),
    {
        Self::new(TargetGenerator::at_invoker_target())
    }

    /// Target the root of the ability hierarchy.
    pub fn root() -> (c: Self)
        ensures
            c.generator == TargetGenerator::<B>::spec_with_type(TargetType::Root),
    {
        Self::new(TargetGenerator::at_root())
    }

    /// Target the spawn position.
    pub fn spawn() -> (c: Self)
        ensures
            c.generator == TargetGenerator::<B>::spec_with_type(TargetType::Spawn),
    {
        Self::new(TargetGenerator::at_spawn())
    }

    /// Target a fixed position.
    pub fn at_position(position: B::Pos) -> (c: Self)
        ensures
            c.generator == TargetGenerator::<B>::spec_with_type(TargetType::Position(position)),
    {
        Self::new(TargetGenerator::at_position(position))
    }

    /// Set the gatherer.
    pub fn with_gatherer(self, gatherer: B::Gatherer) -> (c: Self)
        ensures
            c.generator == (TargetGenerator::<B> { gatherer: Some(gatherer), ..self.generator }),
    {
        GoOffConfig { generator: self.generator.with_gatherer(gatherer) }
    }

    /// Set the offset.
    pub fn with_offset(self, offset: B::Offset) -> (c: Self)
        ensures
            c.generator == (TargetGenerator::<B> { offset, ..self.generator }),
    {
        GoOffConfig { generator: self.generator.with_offset(offset) }
    }

    /// Set the filter.
    pub fn with_filter(self, filter: B::Filter) -> (c: Self)
        ensures
            c.generator == (TargetGenerator::<B> { filter, ..self.generator }),
    {
        GoOffConfig { generator: self.generator.with_filter(filter) }
    }
}

/// An origin as values: its entity, target and scope.
pub open spec fn origin_view<P, V>(o: GoOffOrigin<P, V>) -> (Entity, Target<P>, Seq<(&'static str, V)>) {
    (o.entity, o.target, o.gather@)
}

/// A list of origins as values.
pub open spec fn origins_view<P, V>(os: Seq<GoOffOrigin<P, V>>) -> Seq<
    (Entity, Target<P>, Seq<(&'static str, V)>),
> {
    os.map_values(|o: GoOffOrigin<P, V>| origin_view(o))
}

/// The origins, as values, that `origins_from_targets` makes of `targets`.
pub open spec fn origins_for<P, V>(entity: Entity, targets: Seq<(Target<P>, Scope<V>)>) -> Seq<
    (Entity, Target<P>, Seq<(&'static str, V)>),
> {
    targets.map_values(|x: (Target<P>, Scope<V>)| (entity, x.0, x.1@))
}

/// One origin per resolved target, all rooted at `entity`, in order.
pub fn origins_from_targets<P: Copy, V>(entity: Entity, targets: Vec<(Target<P>, Scope<V>)>) -> (r:
    Vec<GoOffOrigin<P, V>>)
    ensures
        r@.len() == targets@.len(),
        forall|i: int|
            0 <= i < r@.len() ==> (#[trigger] r@[i]).entity == entity && (r@[i].target, r@[i].gather@)
                == scoped_view(targets@[i]),
{
    let ghost ts = targets@;
    let n = targets.len();
    let mut r: Vec<GoOffOrigin<P, V>> = Vec::new();
    let mut rest = targets;
    let mut i: usize = 0;
    while rest.len() > 0
        invariant
            ts.len() == n,
            i + rest@.len() == ts.len(),
            rest@ == ts.skip(i as int),
            r@.len() == i,
            forall|j: int|
                0 <= j < i ==> (#[trigger] r@[j]).entity == entity && (r@[j].target, r@[j].gather@)
                    == scoped_view(ts[j]),
        decreases rest@.len(),
    {
        let (t, g) = rest.remove(0);
        proof {
            assert(ts[i as int] == ts.skip(i as int)[0]);
            assert(rest@ =~= ts.skip(i + 1));
        }
        r.push(GoOffOrigin::with_gather(entity, t, g));
        i = i + 1;
    }
    r
}

/// When a state carrying a `GoOffConfig` becomes active: resolve its invoker
/// (root of `InvokedBy`), its root (root of `ChildOf`) and the invoker's aim,
/// run the config's generator with the aim as the passed target, filter the
/// targets with the config's filter, and emit one origin per target.
///
/// Without a gatherer the generator yields exactly one target before
/// filtering; which of them the backend's filter keeps is the backend's.
pub fn go_off_on_entry<B: SpatialBackend>(
    entity: Entity,
    config: &GoOffConfig<B>,
    backend: &mut B,
    invoked_by: &Relation,
    child_of: &Relation,
    invoker_targets: &ComponentMap<InvokerTarget<B::Pos>>,
) -> (r: Vec<GoOffOrigin<B::Pos, B::Scalar>>)
    requires
        invoked_by.wf(),
        child_of.wf(),
        invoker_targets.wf(),
    ensures
        forall|i: int| 0 <= i < r@.len() ==> (#[trigger] r@[i]).entity == entity,
        ({
            let invoker = root_of(invoked_by.parents(), entity);
            let aim = aim_of(invoker_targets@, invoker, B::spec_default_pos());
            exists|targets: Vec<(Target<B::Pos>, Scope<B::Scalar>)>, generated_by: B|
                {
                    &&& (generated_by, targets_view(targets@)) == generated(
                        *old(backend),
                        config.generator,
                        invoker,
                        aim,
                        root_of(child_of.parents(), entity),
                        B::spec_default_pos(),
                        aim,
                    )
                    &&& #[trigger] generated_by.spec_apply_filter(
                        targets,
                        config.generator.filter,
                        invoker,
                        aim.position,
                    ).0 == *final(backend)
                    &&& origins_view(r@) == origins_for(
                        entity,
                        generated_by.spec_apply_filter(
                            targets,
                            config.generator.filter,
                            invoker,
                            aim.position,
                        ).1@,
                    )
                }
        }),
{
    let invoker = invoked_by.root_ancestor(entity);
    let root = child_of.root_ancestor(entity);
    let invoker_target = invoker_aim(invoker_targets, invoker, B::default_pos());
    let targets = generate_targets(
        &config.generator,
        backend,
        invoker,
        invoker_target,
        root,
        B::default_pos(),
        invoker_target,
    );
    let ghost generated_targets = targets;
    let ghost generated_by = *backend;
    let targets = backend.apply_filter(
        targets,
        &config.generator.filter,
        invoker,
        invoker_target.position,
    );
    let r = origins_from_targets(entity, targets);
    proof {
        assert(origins_view(r@) =~= origins_for(entity, targets@));
        assert(generated_by.spec_apply_filter(
            generated_targets,
            config.generator.filter,
            invoker,
            invoker_target.position,
        ).0 == *backend);
    }
    r
}

} // verus!
