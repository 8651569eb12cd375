//! Spawning templates from the effect tree: the template registry, the
//! spawn configuration, and what one spawn effect decides to spawn.

use vstd::prelude::*;

use crate::backend::SpatialBackend;
use crate::component::ComponentMap;
use crate::effect::{aim_of, invoker_aim};
use crate::invoker::{find_ability, nearest_marked};
use crate::pipeline::{base_entity, generate_targets, generated, targets_view};
use crate::relation::{root_of, Entity, EntitySet, Relation};
use crate::target::{key_eq, InvokerTarget, Scope, Target, TargetGenerator, TargetType};

verus! {

// ---------------------------------------------------------------------------
// TemplateRegistry
// ---------------------------------------------------------------------------

/// Maps template ids to templates (the spawning functions).
pub struct TemplateRegistry<F> {
    templates: Vec<(String, F)>,
}

impl<F> TemplateRegistry<F> {
    /// The registry's ids, with their templates.
    pub closed spec fn entries(&self) -> Seq<(String, F)> {
        self.templates@
    }

    /// The registered ids.
    pub open spec fn ids(&self) -> Seq<Seq<char>> {
        self.entries().map_values(|e: (String, F)| e.0@)
    }

    /// The registry's invariant: no id twice.
    pub open spec fn wf(&self) -> bool {
        self.ids().no_duplicates()
    }

    /// The template registered under `id`, if any.
    pub open spec fn lookup(&self, id: Seq<char>) -> Option<F> {
        if exists|i: int| 0 <= i < self.entries().len() && #[trigger] self.entries()[i].0@ == id {
            Some(
                self.entries()[choose|i: int|
                    0 <= i < self.entries().len() && #[trigger] self.entries()[i].0@ == id].1,
            )
        } else {
            None
        }
    }

    /// An empty registry.
    pub fn new() -> (r: Self)
        ensures
            r.wf(),
            r.entries() == Seq::<(String, F)>::empty(),
    {
        let r = TemplateRegistry { templates: Vec::new() };
        assert(r.ids() =~= Seq::<Seq<char>>::empty());
        r
    }

    fn position(&self, id: &str) -> (r: Option<usize>)
        ensures
            match r {
                Some(i) => i < self.entries().len() && self.entries()[i as int].0@ == id@,
                None => forall|i: int|
                    0 <= i < self.entries().len() ==> #[trigger] self.entries()[i].0@ != id@,
            },
    {
        let mut i: usize = 0;
        while i < self.templates.len()
            invariant
                i <= self.templates@.len(),
                forall|j: int| 0 <= j < i ==> #[trigger] self.templates@[j].0@ != id@,
            decreases self.templates@.len() - i,
        {
            if key_eq(self.templates[i].0.as_str(), id) {
                return Some(i);
            }
            i = i + 1;
        }
        None
    }

    /// Register `template` under `id`, replacing an earlier template with
    /// that id in place.
    pub fn register(&mut self, id: &str, template: F)
        requires
            old(self).wf(),
        ensures
            final(self).wf(),
            final(self).lookup(id@) == Some(template),
            forall|other: Seq<char>| other != id@ ==> #[trigger] final(self).lookup(other) == old(
                self,
            ).lookup(other),
    {
        let ghost s = self.templates@;
        match self.position(id) {
            Some(i) => {
                self.templates.set(i, (id.to_owned(), template));
                proof {
                    let s2 = self.templates@;
                    assert(self.ids() =~= old(self).ids());
                    assert forall|other: Seq<char>| #[trigger] self.lookup(other) == old(self).lookup(
                        other,
                    ) || other == id@ by {
                        if other != id@ {
                            if exists|j: int| 0 <= j < s.len() && #[trigger] s[j].0@ == other {
                                let j = choose|j: int| 0 <= j < s.len() && #[trigger] s[j].0@ == other;
                                assert(s2[j] == s[j]);
                                let k = choose|k: int| 0 <= k < s2.len() && #[trigger] s2[k].0@ == other;
                                assert(self.ids()[k] == self.ids()[j]);
                                let k0 = choose|k0: int| 0 <= k0 < s.len() && #[trigger] s[k0].0@ == other;
                                assert(old(self).ids()[k0] == old(self).ids()[j]);
                            } else {
                                assert forall|j: int| 0 <= j < s2.len() implies #[trigger] s2[j].0@ != other by {
                                    if j != i {
                                        assert(s2[j] == s[j]);
                                    }
                                }
                            }
                        }
                    }
                    let k = choose|k: int| 0 <= k < s2.len() && #[trigger] s2[k].0@ == id@;
                    assert(self.ids()[k] == self.ids()[i as int]);
                }
            },
            None => {
                self.templates.push((id.to_owned(), template));
                proof {
                    let s2 = self.templates@;
                    assert(self.ids() =~= old(self).ids().push(id@));
                    assert(self.ids().no_duplicates()) by {
                        assert forall|a: int, b: int|
                            0 <= a < self.ids().len() && 0 <= b < self.ids().len() && a != b implies self.ids()[a]
                            != self.ids()[b] by {
                            if a < s.len() && b < s.len() {
                                assert(self.ids()[a] == old(self).ids()[a]);
                                assert(self.ids()[b] == old(self).ids()[b]);
                            } else if a < s.len() {
                                assert(s2[a] == s[a]);
                            } else {
                                assert(s2[b] == s[b]);
                            }
                        }
                    }
                    assert forall|other: Seq<char>| other != id@ implies #[trigger] self.lookup(other)
                        == old(self).lookup(other) by {
                        if exists|j: int| 0 <= j < s.len() && #[trigger] s[j].0@ == other {
                            let j = choose|j: int| 0 <= j < s.len() && #[trigger] s[j].0@ == other;
                            assert(s2[j] == s[j]);
                            let k = choose|k: int| 0 <= k < s2.len() && #[trigger] s2[k].0@ == other;
                            assert(self.ids()[k] == self.ids()[j]);
                            let k0 = choose|k0: int| 0 <= k0 < s.len() && #[trigger] s[k0].0@ == other;
                            assert(old(self).ids()[k0] == old(self).ids()[j]);
                        } else {
                            assert forall|j: int| 0 <= j < s2.len() implies #[trigger] s2[j].0@ != other by {
                                if j < s.len() {
                                    assert(s2[j] == s[j]);
                                }
                            }
                        }
                    }
                    let k = choose|k: int| 0 <= k < s2.len() && #[trigger] s2[k].0@ == id@;
                    assert(self.ids()[k] == self.ids()[s.len() as int]);
                }
            },
        }
    }

    /// The template registered under `id`, if any.
    pub fn get(&self, id: &str) -> (r: Option<&F>)
        requires
            self.wf(),
        ensures
            match r {
                Some(f) => self.lookup(id@) == Some(*f),
                None => self.lookup(id@) is None,
            },
    {
        match self.position(id) {
            Some(i) => {
                proof {
                    let k = choose|k: int|
                        0 <= k < self.entries().len() && #[trigger] self.entries()[k].0@ == id@;
                    assert(self.ids()[k] == self.ids()[i as int]);
                }
                Some(&self.templates[i].1)
            },
            None => None,
        }
    }

    /// The registered ids, in registration order.
    pub fn keys(&self) -> (r: Vec<&str>)
        ensures
            r@.map_values(|k: &str| k@) == self.ids(),
    {
        let mut r: Vec<&str> = Vec::new();
        let mut i: usize = 0;
        while i < self.templates.len()
            invariant
                i <= self.templates@.len(),
                r@.len() == i,
                forall|j: int| 0 <= j < i ==> (#[trigger] r@[j])@ == self.templates@[j].0@,
            decreases self.templates@.len() - i,
        {
            r.push(self.templates[i].0.as_str());
            i = i + 1;
        }
        proof {
            assert(r@.map_values(|k: &str| k@) =~= self.ids());
        }
        r
    }
}

// ---------------------------------------------------------------------------
// SpawnConfig
// ---------------------------------------------------------------------------

/// Configures entity spawning within the effect tree.
pub struct SpawnConfig<B: SpatialBackend> {
    pub template_id: String,
    pub spawn_position_generator: TargetGenerator<B>,
    pub spawn_target_generator: Option<TargetGenerator<B>>,
    pub as_child_of: Option<TargetType<B::Pos>>,
    /// Copy the gather scope onto the spawned entity as base attributes
    /// (key suffix stripped).
    pub inherit_scope: bool,
}

impl<B: SpatialBackend> SpawnConfig<B> {
    /// A fresh configuration spawning `template_id` at `target_type`.
    pub open spec fn spec_new(template_id: Seq<char>, target_type: TargetType<B::Pos>, r: Self) -> bool {
        &&& r.template_id@ == template_id
        &&& r.spawn_position_generator == TargetGenerator::<B>::spec_with_type(target_type)
        &&& r.spawn_target_generator is None
        &&& r.as_child_of is None
        &&& !r.inherit_scope
    }

    fn new(template_id: &str, target_type: TargetType<B::Pos>) -> (r: Self)
        ensures
            Self::spec_new(template_id@, target_type, r),
    {
        SpawnConfig {
            template_id: template_id.to_owned(),
            spawn_position_generator: TargetGenerator::with_type(target_type),
            spawn_target_generator: None,
            as_child_of: None,
            inherit_scope: false,
        }
    }

    /// Spawn at the invoker.
    pub fn invoker(template_id: &str) -> (r: Self)
        ensures
            Self::spec_new(template_id@, TargetType::Invoker, r),
    {
        Self::new(template_id, TargetType::Invoker)
    }

    /// Spawn at the invoker's target.
    pub fn target(template_id: &str) -> (r: Self)
        ensures
            Self::spec_new(template_id@, TargetType::InvokerTarget, r),
    {
        Self::new(template_id, TargetType::InvokerTarget)
    }

    /// Spawn at the spawn position.
    pub fn spawn(template_id: &str) -> (r: Self)
        ensures
            Self::spec_new(template_id@, TargetType::Spawn, r),
    {
        Self::new(template_id, TargetType::Spawn)
    }

    /// Spawn at the root.
    pub fn root(template_id: &str) -> (r: Self)
        ensures
            Self::spec_new(template_id@, TargetType::Root, r),
    {
        Self::new(template_id, TargetType::Root)
    }

    /// Spawn at the passed target.
    pub fn passed(template_id: &str) -> (r: Self)
        ensures
            Self::spec_new(template_id@, TargetType::Passed, r),
    {
        Self::new(template_id, TargetType::Passed)
    }

    /// Spawn at a fixed position.
    pub fn at_position(template_id: &str, position: B::Pos) -> (r: Self)
        ensures
            Self::spec_new(template_id@, TargetType::Position(position), r),
    {
        Self::new(template_id, TargetType::Position(position))
    }

    /// Spawn at the backend's default position.
    pub fn at_zero(template_id: &str) -> (r: Self)
        ensures
            Self::spec_new(template_id@, TargetType::Position(B::spec_default_pos()), r),
    {
        Self::at_position(template_id, B::default_pos())
    }

    /// Set the spawn position's offset.
    pub fn with_offset(self, offset: B::Offset) -> (r: Self)
        ensures
            r.spawn_position_generator == (TargetGenerator::<B> {
                offset,
                ..self.spawn_position_generator
            }),
            r.template_id == self.template_id,
            r.spawn_target_generator == self.spawn_target_generator,
            r.as_child_of == self.as_child_of,
            r.inherit_scope == self.inherit_scope,
    {
        SpawnConfig {
            spawn_position_generator: self.spawn_position_generator.with_offset(offset),
            ..self
        }
    }

    /// Set the spawn position's gatherer.
    pub fn with_gatherer(self, gatherer: B::Gatherer) -> (r: Self)
        ensures
            r.spawn_position_generator == (TargetGenerator::<B> {
                gatherer: Some(gatherer),
                ..self.spawn_position_generator
            }),
            r.template_id == self.template_id,
            r.spawn_target_generator == self.spawn_target_generator,
            r.as_child_of == self.as_child_of,
            r.inherit_scope == self.inherit_scope,
    {
        SpawnConfig {
            spawn_position_generator: self.spawn_position_generator.with_gatherer(gatherer),
            ..self
        }
    }

    /// Set the spawn position's filter.
    pub fn with_filter(self, filter: B::Filter) -> (r: Self)
        ensures
            r.spawn_position_generator == (TargetGenerator::<B> {
                filter,
                ..self.spawn_position_generator
            }),
            r.template_id == self.template_id,
            r.spawn_target_generator == self.spawn_target_generator,
            r.as_child_of == self.as_child_of,
            r.inherit_scope == self.inherit_scope,
    {
        SpawnConfig {
            spawn_position_generator: self.spawn_position_generator.with_filter(filter),
            ..self
        }
    }

    /// Give each spawned entity a target from `target_generator`.
    pub fn with_target_generator(self, target_generator: TargetGenerator<B>) -> (r: Self)
        ensures
            r == (SpawnConfig::<B> { spawn_target_generator: Some(target_generator), ..self }),
    {
        SpawnConfig { spawn_target_generator: Some(target_generator), ..self }
    }

    /// Parent spawned entities to the invoker.
    pub fn as_child_of_invoker(self) -> (r: Self)
        ensures
            r == (SpawnConfig::<B> { as_child_of: Some(TargetType::Invoker), ..self }),
    {
        SpawnConfig { as_child_of: Some(TargetType::Invoker), ..self }
    }

    /// Parent spawned entities to the invoker's target.
    pub fn as_child_of_target(self) -> (r: Self)
        ensures
            r == (SpawnConfig::<B> { as_child_of: Some(TargetType::InvokerTarget), ..self }),
    {
        SpawnConfig { as_child_of: Some(TargetType::InvokerTarget), ..self }
    }

    /// Parent spawned entities to the root.
    pub fn as_child_of_root(self) -> (r: Self)
        ensures
            r == (SpawnConfig::<B> { as_child_of: Some(TargetType::Root), ..self }),
    {
        SpawnConfig { as_child_of: Some(TargetType::Root), ..self }
    }

    /// Parent spawned entities to the passed target.
    pub fn as_child_of_passed(self) -> (r: Self)
        ensures
            r == (SpawnConfig::<B> { as_child_of: Some(TargetType::Passed), ..self }),
    {
        SpawnConfig { as_child_of: Some(TargetType::Passed), ..self }
    }

    /// Inject the gather scope as base attributes on spawned entities.
    pub fn with_scope_inheritance(self) -> (r: Self)
        ensures
            r == (SpawnConfig::<B> { inherit_scope: true, ..self }),
    {
        SpawnConfig { inherit_scope: true, ..self }
    }
}

// ---------------------------------------------------------------------------
// Spawn decisions
// ---------------------------------------------------------------------------

/// Where spawned entities are parented.
#[derive(Clone, Copy, Debug, PartialEq, Eq, Structural)]
pub enum SpawnParent {
    /// No parenting configured.
    Unparented,
    /// `ChildOf` this entity.
    Parent(Entity),
    /// Parenting configured but the target type names no entity: skip.
    Unresolved,
}

/// The parent an `as_child_of` target type resolves to.
pub open spec fn spec_spawn_parent<P>(
    as_child_of: Option<TargetType<P>>,
    invoker: Entity,
    invoker_target: Target<P>,
    root: Entity,
    passed: Target<P>,
) -> SpawnParent {
    match as_child_of {
        None => SpawnParent::Unparented,
        Some(t) => match t {
            TargetType::Invoker => SpawnParent::Parent(invoker),
            TargetType::InvokerTarget => match invoker_target.entity {
                Some(e) => SpawnParent::Parent(e),
                None => SpawnParent::Unresolved,
            },
            TargetType::Root => SpawnParent::Parent(root),
            TargetType::Passed => match passed.entity {
                Some(e) => SpawnParent::Parent(e),
                None => SpawnParent::Unresolved,
            },
            TargetType::Spawn => SpawnParent::Unresolved,
            TargetType::Position(_) => SpawnParent::Unresolved,
        },
    }
}

/// Resolve `as_child_of` to the parent of spawned entities.
pub fn resolve_spawn_parent<P: Copy>(
    as_child_of: &Option<TargetType<P>>,
    invoker: Entity,
    invoker_target: Target<P>,
    root: Entity,
    passed: Target<P>,
) -> (r: SpawnParent)
    ensures
        r == spec_spawn_parent(*as_child_of, invoker, invoker_target, root, passed),
{
    match as_child_of {
        None => SpawnParent::Unparented,
        Some(t) => {
            let parent = match t {
                TargetType::Invoker => Some(invoker),
                TargetType::InvokerTarget => invoker_target.entity,
                TargetType::Root => Some(root),
                TargetType::Passed => passed.entity,
                TargetType::Spawn => None,
                TargetType::Position(_) => None,
            };
            match parent {
                Some(e) => SpawnParent::Parent(e),
                None => SpawnParent::Unresolved,
            }
        },
    }
}

/// One entity to spawn: where, with which target, under which parent.
#[derive(Clone, Copy, Debug)]
pub struct SpawnPlan<P> {
    pub position: P,
    pub target: Option<Target<P>>,
    pub parent: Option<Entity>,
}

/// Sent to a spawned entity that got a target: that target.
#[derive(Clone, Copy, Debug)]
pub struct OnSpawnTarget<P> {
    pub entity: Entity,
    pub target: Target<P>,
}

/// Sent to every spawned entity: itself at its spawn position.
#[derive(Clone, Copy, Debug)]
pub struct OnSpawnOrigin<P> {
    pub entity: Entity,
    pub target: Target<P>,
}

/// Sent to every spawned entity: its invoker at the invoker's position.
#[derive(Clone, Copy, Debug)]
pub struct OnSpawnInvoker<P> {
    pub entity: Entity,
    pub target: Target<P>,
}

/// What one spawned entity gets: `InvokedBy(invoked_by)`, its position,
/// its parent and target (when planned), and the spawn messages.
#[derive(Clone, Copy, Debug)]
pub struct SpawnedEntity<P> {
    pub invoked_by: Entity,
    pub position: P,
    pub parent: Option<Entity>,
    pub target: Option<Target<P>>,
    pub on_spawn_target: Option<OnSpawnTarget<P>>,
    pub on_spawn_origin: OnSpawnOrigin<P>,
    pub on_spawn_invoker: OnSpawnInvoker<P>,
}

/// What entity `spawned`, spawned for `plan`, gets: invoked by `invoker`,
/// placed and parented as planned, the planned target with an
/// `OnSpawnTarget` carrying it (none without a target), an `OnSpawnOrigin`
/// naming itself at its position, and an `OnSpawnInvoker` naming the
/// invoker at `invoker_position`.
pub fn spawned_entity<P: Copy>(
    plan: &SpawnPlan<P>,
    spawned: Entity,
    invoker: Entity,
    invoker_position: P,
) -> (r: SpawnedEntity<P>)
    ensures
        r.invoked_by == invoker,
        r.position == plan.position,
        r.parent == plan.parent,
        r.target == plan.target,
        r.on_spawn_target == match plan.target {
            Some(t) => Some(OnSpawnTarget { entity: spawned, target: t }),
            None => None::<OnSpawnTarget<P>>,
        },
        r.on_spawn_origin == (OnSpawnOrigin {
            entity: spawned,
            target: Target { entity: Some(spawned), position: plan.position },
        }),
        r.on_spawn_invoker == (OnSpawnInvoker {
            entity: spawned,
            target: Target { entity: Some(invoker), position: invoker_position },
        }),
{
    let on_spawn_target = match plan.target {
        Some(t) => Some(OnSpawnTarget { entity: spawned, target: t }),
        None => None,
    };
    SpawnedEntity {
        invoked_by: invoker,
        position: plan.position,
        parent: plan.parent,
        target: plan.target,
        on_spawn_target,
        on_spawn_origin: OnSpawnOrigin {
            entity: spawned,
            target: Target { entity: Some(spawned), position: plan.position },
        },
        on_spawn_invoker: OnSpawnInvoker {
            entity: spawned,
            target: Target { entity: Some(invoker), position: invoker_position },
        },
    }
}

/// Spawned entity `i` is placed at spawn target `i`; when targets were
/// generated it gets target `i % len` (targets are reused round-robin).
pub fn assign_spawn_targets<P: Copy>(
    spawn_targets: &Vec<Target<P>>,
    target_targets: &Option<Vec<Target<P>>>,
    parent: Option<Entity>,
) -> (r: Vec<SpawnPlan<P>>)
    requires
        target_targets matches Some(ts) ==> ts@.len() > 0,
    ensures
        r@.len() == spawn_targets@.len(),
        forall|i: int|
            0 <= i < r@.len() ==> {
                &&& (#[trigger] r@[i]).position == spawn_targets@[i].position
                &&& r@[i].parent == parent
                &&& r@[i].target == match *target_targets {
                    Some(ts) => Some(ts@[i % ts@.len() as int]),
                    None => None::<Target<P>>,
                }
            },
{
    let mut r: Vec<SpawnPlan<P>> = Vec::new();
    let mut i: usize = 0;
    while i < spawn_targets.len()
        invariant
            i <= spawn_targets@.len(),
            r@.len() == i,
            target_targets matches Some(ts) ==> ts@.len() > 0,
            forall|j: int|
                0 <= j < i ==> {
                    &&& (#[trigger] r@[j]).position == spawn_targets@[j].position
                    &&& r@[j].parent == parent
                    &&& r@[j].target == match *target_targets {
                        Some(ts) => Some(ts@[j % ts@.len() as int]),
                        None => None::<Target<P>>,
                    }
                },
        decreases spawn_targets@.len() - i,
    {
        let target = match target_targets {
            Some(ts) => Some(ts[i % ts.len()]),
            None => None,
        };
        r.push(SpawnPlan { position: spawn_targets[i].position, target, parent });
        i = i + 1;
    }
    r
}

/// The attribute name a scope key maps to: the key up to its first `@`
/// (the whole key when it has none).
pub open spec fn attribute_name(key: Seq<char>) -> Seq<char> {
    if exists|i: int| 0 <= i < key.len() && key[i] == '@' {
        key.take(
            choose|i: int|
                0 <= i < key.len() && key[i] == '@' && forall|j: int| 0 <= j < i ==> key[j] != '@',
        )
    } else {
        key
    }
}

/// The attribute name of a scope key (suffix after `@` stripped).
pub fn scope_attribute_name(key: &str) -> (r: &str)
    ensures
        r@ == attribute_name(key@),
{
    let n = key.unicode_len();
    let mut i: usize = 0;
    while i < n
        invariant
            n == key@.len(),
            i <= n,
            forall|j: int| 0 <= j < i ==> key@[j] != '@',
        decreases n - i,
    {
        if key.get_char(i) == '@' {
            proof {
                let c = choose|c: int|
                    0 <= c < key@.len() && key@[c] == '@' && forall|j: int|
                        0 <= j < c ==> key@[j] != '@';
                if c < i {
                } else if c > i {
                    assert(key@[i as int] == '@');
                }
                assert(c == i);
            }
            return key.substring_char(0, i);
        }
        i = i + 1;
    }
    proof {
        assert(key@.take(n as int) =~= key@);
    }
    key.substring_char(0, n)
}

/// The base attributes a spawned entity inherits from the gather scope: each
/// entry under its attribute name, in order.
pub fn inherited_attributes<V: Copy>(gather: &Scope<V>) -> (r: Vec<(&'static str, V)>)
    ensures
        r@.len() == gather@.len(),
        forall|i: int|
            0 <= i < r@.len() ==> (#[trigger] r@[i]).0@ == attribute_name(gather@[i].0@) && r@[i].1
                == gather@[i].1,
{
    let mut r: Vec<(&'static str, V)> = Vec::new();
    let mut i: usize = 0;
    while i < gather.len()
        invariant
            i <= gather@.len(),
            r@.len() == i,
            forall|j: int|
                0 <= j < i ==> (#[trigger] r@[j]).0@ == attribute_name(gather@[j].0@) && r@[j].1
                    == gather@[j].1,
        decreases gather@.len() - i,
    {
        let (k, v) = gather[i];
        r.push((scope_attribute_name(k), v));
        i = i + 1;
    }
    r
}

/// The targets of a generation result, without their scopes.
pub open spec fn target_list<P, S>(ts: Seq<(Target<P>, S)>) -> Seq<Target<P>> {
    ts.map_values(|x: (Target<P>, S)| x.0)
}

/// The generator run once per step `(spawn position, passed target)`, in
/// order, each run on the backend that the previous one left: the targets of
/// all runs concatenated, with the backend afterwards.
pub open spec fn chain_generated<B: SpatialBackend>(
    b: B,
    generator: TargetGenerator<B>,
    steps: Seq<(B::Pos, Target<B::Pos>)>,
    invoker: Entity,
    invoker_target: Target<B::Pos>,
    root: Entity,
) -> (B, Seq<Target<B::Pos>>)
    decreases steps.len(),
{
    if steps.len() == 0 {
        (b, Seq::empty())
    } else {
        let prev = chain_generated(b, generator, steps.drop_last(), invoker, invoker_target, root);
        let g = generated(
            prev.0,
            generator,
            invoker,
            invoker_target,
            root,
            steps.last().0,
            steps.last().1,
        );
        (g.0, prev.1 + target_list(g.1))
    }
}

/// The runs of the second-stage generator: for a `Spawn` generator one per
/// spawn target, at its position, passed incoming target `i % len`;
/// otherwise one per incoming target, passed that target, at `default`.
pub open spec fn spawn_steps<P>(
    target_type: TargetType<P>,
    spawn_targets: Seq<Target<P>>,
    in_targets: Seq<Target<P>>,
    default: P,
) -> Seq<(P, Target<P>)> {
    if target_type is Spawn {
        Seq::new(
            spawn_targets.len(),
            |i: int| (spawn_targets[i].position, in_targets[i % in_targets.len() as int]),
        )
    } else {
        passed_steps(in_targets, default)
    }
}

/// One run per incoming target, passed that target, at `default`.
pub open spec fn passed_steps<P>(in_targets: Seq<Target<P>>, default: P) -> Seq<(P, Target<P>)> {
    Seq::new(in_targets.len(), |i: int| (default, in_targets[i]))
}

/// Without a gatherer every run of the chain gives exactly one target, which
/// names the entity that its target type resolves to.
pub proof fn lemma_chain_without_gatherer<B: SpatialBackend>(
    b: B,
    generator: TargetGenerator<B>,
    steps: Seq<(B::Pos, Target<B::Pos>)>,
    invoker: Entity,
    invoker_target: Target<B::Pos>,
    root: Entity,
)
    requires
        generator.gatherer is None,
    ensures
        chain_generated(b, generator, steps, invoker, invoker_target, root).1.len() == steps.len(),
        forall|i: int|
            0 <= i < steps.len() ==> (#[trigger] chain_generated(
                b,
                generator,
                steps,
                invoker,
                invoker_target,
                root,
            ).1[i]).entity == base_entity(
                generator.target_type,
                invoker,
                invoker_target,
                root,
                steps[i].1,
            ),
    decreases steps.len(),
{
    if steps.len() > 0 {
        lemma_chain_without_gatherer(b, generator, steps.drop_last(), invoker, invoker_target, root);
        let prev = chain_generated(b, generator, steps.drop_last(), invoker, invoker_target, root);
        let c = chain_generated(b, generator, steps, invoker, invoker_target, root);
        assert forall|i: int| 0 <= i < steps.len() implies (#[trigger] c.1[i]).entity == base_entity(
            generator.target_type,
            invoker,
            invoker_target,
            root,
            steps[i].1,
        ) by {
            if i < steps.len() - 1 {
                assert(c.1[i] == prev.1[i]);
                assert(steps.drop_last()[i] == steps[i]);
            }
        }
    }
}

/// Second-stage targets for spawned entities. For a `Spawn` generator, each
/// spawn target is used as the spawn position, paired with incoming target
/// `idx % len`; otherwise each incoming target is generated from once.
pub fn generate_targets_with_spawn_positions<B: SpatialBackend>(
    generator: &TargetGenerator<B>,
    spawn_targets: &Vec<Target<B::Pos>>,
    in_targets: &Vec<Target<B::Pos>>,
    invoker: Entity,
    invoker_target: Target<B::Pos>,
    root: Entity,
    backend: &mut B,
) -> (r: Vec<Target<B::Pos>>)
    requires
        generator.target_type is Spawn && spawn_targets@.len() > 0 ==> in_targets@.len() > 0,
    ensures
        (*final(backend), r@) == chain_generated(
            *old(backend),
            *generator,
            spawn_steps(generator.target_type, spawn_targets@, in_targets@, B::spec_default_pos()),
            invoker,
            invoker_target,
            root,
        ),
{
    let ghost b0 = *backend;
    let ghost steps = spawn_steps(
        generator.target_type,
        spawn_targets@,
        in_targets@,
        B::spec_default_pos(),
    );
    let is_spawn = generator.target_type.is_spawn();
    let n = if is_spawn {
        spawn_targets.len()
    } else {
        in_targets.len()
    };
    let mut all: Vec<Target<B::Pos>> = Vec::new();
    let mut idx: usize = 0;
    while idx < n
        invariant
            idx <= n,
            n == steps.len(),
            is_spawn == generator.target_type is Spawn,
            steps == spawn_steps(generator.target_type, spawn_targets@, in_targets@, B::spec_default_pos()),
            is_spawn ==> n == spawn_targets@.len() && (n > 0 ==> in_targets@.len() > 0),
            !is_spawn ==> n == in_targets@.len(),
            (*backend, all@) == chain_generated(
                b0,
                *generator,
                steps.take(idx as int),
                invoker,
                invoker_target,
                root,
            ),
        decreases n - idx,
    {
        let spawn_pos = if is_spawn {
            spawn_targets[idx].position
        } else {
            B::default_pos()
        };
        let passed = if is_spawn {
            in_targets[idx % in_targets.len()]
        } else {
            in_targets[idx]
        };
        proof {
            assert(steps[idx as int] == (spawn_pos, passed));
        }
        let ghost prev_backend = *backend;
        let ts = generate_targets(
            generator,
            backend,
            invoker,
            invoker_target,
            root,
            spawn_pos,
            passed,
        );
        let ghost before = all@;
        let mut j: usize = 0;
        while j < ts.len()
            invariant
                j <= ts@.len(),
                all@.len() == before.len() + j,
                forall|i: int| 0 <= i < before.len() ==> all@[i] == before[i],
                forall|i: int| 0 <= i < j ==> all@[before.len() + i] == ts@[i].0,
            decreases ts@.len() - j,
        {
            all.push(ts[j].0);
            j = j + 1;
        }
        proof {
            let g = generated(prev_backend, *generator, invoker, invoker_target, root, spawn_pos, passed);
            assert(steps.take(idx + 1).drop_last() =~= steps.take(idx as int));
            assert(steps.take(idx + 1).last() == steps[idx as int]);
            assert(target_list(g.1) =~= target_list(targets_view(ts@)));
            assert(all@ =~= before + target_list(g.1));
        }
        idx = idx + 1;
    }
    proof {
        assert(steps.take(n as int) =~= steps);
    }
    all
}

/// The attributes a spawned entity gets, as values: names and values.
pub open spec fn attributes_view<V>(a: Seq<(&'static str, V)>) -> Seq<(Seq<char>, V)> {
    a.map_values(|x: (&'static str, V)| (x.0@, x.1))
}

/// The base attributes inherited from a gather scope, as values: each entry
/// under its attribute name, in order.
pub open spec fn inherited_view<V>(gather: Seq<(&'static str, V)>) -> Seq<(Seq<char>, V)> {
    gather.map_values(|x: (&'static str, V)| (attribute_name(x.0@), x.1))
}

/// A position, or `default` where there is none.
pub open spec fn position_or<P>(p: Option<P>, default: P) -> P {
    match p {
        Some(q) => q,
        None => default,
    }
}

/// The first stage of a spawn effect: the spawn targets that the spawn
/// position generator resolves (spawn position: the default), with the
/// backend afterwards.
pub open spec fn spawn_stage<B: SpatialBackend>(
    b: B,
    config: SpawnConfig<B>,
    invoker: Entity,
    invoker_target: Target<B::Pos>,
    root: Entity,
    passed: Target<B::Pos>,
) -> (B, Seq<Target<B::Pos>>) {
    let g = generated(
        b,
        config.spawn_position_generator,
        invoker,
        invoker_target,
        root,
        B::spec_default_pos(),
        passed,
    );
    (g.0, target_list(g.1))
}

/// The second stage of a spawn effect, when a target generator is
/// configured: its targets for `spawn_targets` and `in_targets`, with the
/// backend afterwards.
pub open spec fn target_stage<B: SpatialBackend>(
    b: B,
    config: SpawnConfig<B>,
    spawn_targets: Seq<Target<B::Pos>>,
    in_targets: Seq<Target<B::Pos>>,
    invoker: Entity,
    invoker_target: Target<B::Pos>,
    root: Entity,
) -> Option<(B, Seq<Target<B::Pos>>)> {
    match config.spawn_target_generator {
        None => None,
        Some(g) => Some(
            chain_generated(
                b,
                g,
                spawn_steps(g.target_type, spawn_targets, in_targets, B::spec_default_pos()),
                invoker,
                invoker_target,
                root,
            ),
        ),
    }
}

/// Whether a second stage ran and resolved nothing.
pub open spec fn stage_empty<B>(stage: Option<(B, Seq<Target<B::Pos>>)>) -> bool where B: SpatialBackend {
    match stage {
        Some(s) => s.1.len() == 0,
        None => false,
    }
}

/// The targets a second stage gave, as the decision holds them.
pub open spec fn stage_targets<B: SpatialBackend>(
    stage: Option<(B, Seq<Target<B::Pos>>)>,
    held: Option<Vec<Target<B::Pos>>>,
) -> bool {
    match held {
        Some(ts) => stage matches Some(s) && ts@ == s.1,
        None => stage is None,
    }
}

/// The plans for `spawn_targets`: spawned entity `i` at spawn target `i`,
/// under `parent`, with target `i % len` of `target_targets` when some are
/// held.
pub open spec fn plans_for<P>(
    plans: Seq<SpawnPlan<P>>,
    spawn_targets: Seq<Target<P>>,
    target_targets: Option<Vec<Target<P>>>,
    parent: SpawnParent,
) -> bool {
    &&& plans.len() == spawn_targets.len()
    &&& forall|i: int|
        0 <= i < plans.len() ==> {
            &&& (#[trigger] plans[i]).position == spawn_targets[i].position
            &&& plans[i].parent == match parent {
                SpawnParent::Parent(p) => Some(p),
                _ => None::<Entity>,
            }
            &&& plans[i].target == match target_targets {
                Some(ts) => Some(ts@[i % ts@.len() as int]),
                None => None::<Target<P>>,
            }
        }
}

/// What one spawn effect's go-off decides.
pub enum SpawnDecision<P, V, F> {
    /// The spawn position pipeline resolved no target: nothing spawns.
    NoSpawnTargets,
    /// A target generator is configured but resolved no target.
    NoTargetTargets,
    /// `as_child_of` is configured but names no entity.
    ParentUnresolved,
    /// Spawn one entity per plan: each gets what [`spawned_entity`] gives
    /// for its plan with `invoker` and `invoker_position` (components and
    /// spawn messages), the gauge sources `@root` (and `@ability` when an
    /// ability encloses the effect); `template` runs on it, then
    /// `attributes` are set as its base attributes.
    Spawn {
        invoker: Entity,
        root: Entity,
        ability: Option<Entity>,
        template: F,
        invoker_position: P,
        attributes: Vec<(&'static str, V)>,
        spawn_targets: Vec<Target<P>>,
        target_targets: Option<Vec<Target<P>>>,
        plans: Vec<SpawnPlan<P>>,
    },
}

/// Decide what a go-off of a spawn effect spawns: resolve the invoker (root
/// of `InvokedBy`), the chart root (root of `ChildOf`) and the invoker's
/// target; generate the spawn positions from the passed target; optionally
/// generate the spawned entities' targets; resolve the parent; look up the
/// template, which must be registered once all that resolved; plan one spawn
/// per position. With `inherit_scope` the go-off's
/// gather scope becomes the spawned entities' base attributes.
pub fn plan_spawn_effect<B: SpatialBackend, F: Copy>(
    effect: Entity,
    passed: Target<B::Pos>,
    gather: &Scope<B::Scalar>,
    config: &SpawnConfig<B>,
    templates: &TemplateRegistry<F>,
    backend: &mut B,
    invoked_by: &Relation,
    child_of: &Relation,
    invoker_targets: &ComponentMap<InvokerTarget<B::Pos>>,
    abilities: &EntitySet,
) -> (r: SpawnDecision<B::Pos, B::Scalar, F>)
    requires
        templates.wf(),
        invoked_by.wf(),
        child_of.wf(),
        invoker_targets.wf(),
        ({
            let invoker = root_of(invoked_by.parents(), effect);
            let root = root_of(child_of.parents(), effect);
            let it = aim_of(invoker_targets@, invoker, B::spec_default_pos());
            let first = spawn_stage(*old(backend), *config, invoker, it, root, passed);
            let second = target_stage(first.0, *config, first.1, seq![passed], invoker, it, root);
            first.1.len() > 0 && !stage_empty(second) && spec_spawn_parent(
                config.as_child_of,
                invoker,
                it,
                root,
                passed,
            ) != SpawnParent::Unresolved ==> templates.lookup(config.template_id@) is Some
        }),
    ensures
        config.spawn_position_generator.gatherer is None ==> !(r is NoSpawnTargets),
        ({
            let invoker = root_of(invoked_by.parents(), effect);
            let root = root_of(child_of.parents(), effect);
            let it = aim_of(invoker_targets@, invoker, B::spec_default_pos());
            let first = spawn_stage(*old(backend), *config, invoker, it, root, passed);
            let second = target_stage(first.0, *config, first.1, seq![passed], invoker, it, root);
            let parent = spec_spawn_parent(config.as_child_of, invoker, it, root, passed);
            let after = match second {
                Some(st) => st.0,
                None => first.0,
            };
            &&& (r is NoSpawnTargets <==> first.1.len() == 0)
            &&& (r is NoTargetTargets <==> first.1.len() > 0 && stage_empty(second))
            &&& (r is ParentUnresolved <==> first.1.len() > 0 && !stage_empty(second) && parent
                == SpawnParent::Unresolved)
            &&& (r is Spawn <==> first.1.len() > 0 && !stage_empty(second) && parent
                != SpawnParent::Unresolved)
            &&& *final(backend) == (if first.1.len() == 0 {
                first.0
            } else {
                after
            })
            &&& (r matches SpawnDecision::Spawn {
                invoker: inv,
                root: rt,
                ability,
                template,
                invoker_position,
                attributes,
                spawn_targets,
                target_targets,
                plans,
            } ==> {
                &&& inv == invoker
                &&& rt == root
                &&& nearest_marked(invoked_by.parents(), abilities@, effect, ability)
                &&& templates.lookup(config.template_id@) == Some(template)
                &&& invoker_position == position_or(
                    after.spec_position_of(invoker),
                    B::spec_default_pos(),
                )
                &&& attributes_view(attributes@) == (if config.inherit_scope {
                    inherited_view(gather@)
                } else {
                    Seq::empty()
                })
                &&& spawn_targets@ == first.1
                &&& stage_targets(second, target_targets)
                &&& plans_for(plans@, spawn_targets@, target_targets, parent)
            })
        }),
{
    let ghost b0 = *backend;
    let invoker = invoked_by.root_ancestor(effect);
    let invoker_target = invoker_aim(invoker_targets, invoker, B::default_pos());
    let root = child_of.root_ancestor(effect);
    let generated = generate_targets(
        &config.spawn_position_generator,
        backend,
        invoker,
        invoker_target,
        root,
        B::default_pos(),
        passed,
    );
    let mut spawn_targets: Vec<Target<B::Pos>> = Vec::new();
    let mut i: usize = 0;
    while i < generated.len()
        invariant
            i <= generated@.len(),
            spawn_targets@.len() == i,
            forall|j: int| 0 <= j < i ==> #[trigger] spawn_targets@[j] == generated@[j].0,
        decreases generated@.len() - i,
    {
        spawn_targets.push(generated[i].0);
        i = i + 1;
    }
    let ghost first = spawn_stage(b0, *config, invoker, invoker_target, root, passed);
    proof {
        assert(spawn_targets@ =~= target_list(targets_view(generated@)));
        assert(spawn_targets@ == first.1);
        if config.spawn_position_generator.gatherer is None {
            assert(first.1.len() == 1);
        }
    }
    if spawn_targets.len() == 0 {
        return SpawnDecision::NoSpawnTargets;
    }
    let mut in_targets: Vec<Target<B::Pos>> = Vec::new();
    in_targets.push(passed);
    proof {
        assert(in_targets@ =~= seq![passed]);
    }
    let target_targets = match &config.spawn_target_generator {
        Some(target_generator) => {
            let ts = generate_targets_with_spawn_positions(
                target_generator,
                &spawn_targets,
                &in_targets,
                invoker,
                invoker_target,
                root,
                backend,
            );
            if ts.len() == 0 {
                return SpawnDecision::NoTargetTargets;
            }
            Some(ts)
        },
        None => None,
    };
    let parent = match resolve_spawn_parent(
        &config.as_child_of,
        invoker,
        invoker_target,
        root,
        passed,
    ) {
        SpawnParent::Unresolved => {
            return SpawnDecision::ParentUnresolved;
        },
        SpawnParent::Parent(p) => Some(p),
        SpawnParent::Unparented => None,
    };
    let template = *templates.get(config.template_id.as_str()).unwrap();
    let ability = find_ability(effect, invoked_by, abilities);
    let invoker_position = match backend.position_of(invoker) {
        Some(p) => p,
        None => B::default_pos(),
    };
    let attributes = if config.inherit_scope {
        inherited_attributes(gather)
    } else {
        Vec::new()
    };
    proof {
        if config.inherit_scope {
            assert(attributes_view(attributes@) =~= inherited_view(gather@));
        } else {
            assert(attributes_view(attributes@) =~= Seq::<(Seq<char>, B::Scalar)>::empty());
        }
    }
    let plans = assign_spawn_targets(&spawn_targets, &target_targets, parent);
    SpawnDecision::Spawn {
        invoker,
        root,
        ability,
        template,
        invoker_position,
        attributes,
        spawn_targets,
        target_targets,
        plans,
    }
}

/// What a spawn go-off carrying several incoming targets decides.
pub enum SpawnEntitiesDecision<P, F> {
    /// Nothing spawns: no incoming target, the invoker has no aim target,
    /// no spawn position, no generated target, or an unresolved parent.
    Skip,
    /// Spawn one entity per plan, as for [`SpawnDecision::Spawn`] without
    /// gauge sources or inherited attributes.
    Spawn {
        invoker: Entity,
        root: Entity,
        template: F,
        invoker_position: P,
        spawn_targets: Vec<Target<P>>,
        target_targets: Option<Vec<Target<P>>>,
        plans: Vec<SpawnPlan<P>>,
    },
}

/// Decide what a spawn go-off with several incoming targets spawns: the
/// invoker (root of `InvokedBy`) must carry an aim target; spawn positions
/// are generated from each incoming target in turn; targets for the spawned
/// entities are optionally generated from those positions; the parent is
/// resolved with the first incoming target as the passed one; the template
/// (which must be registered once all that resolved) is looked up; one spawn
/// is planned per position, with targets reused
/// round-robin.
pub fn spawn_entities_observer<B: SpatialBackend, F: Copy>(
    effect: Entity,
    in_targets: &Vec<Target<B::Pos>>,
    config: &SpawnConfig<B>,
    templates: &TemplateRegistry<F>,
    backend: &mut B,
    invoked_by: &Relation,
    child_of: &Relation,
    aim_targets: &ComponentMap<Target<B::Pos>>,
) -> (r: SpawnEntitiesDecision<B::Pos, F>)
    requires
        templates.wf(),
        invoked_by.wf(),
        child_of.wf(),
        aim_targets.wf(),
        ({
            let invoker = root_of(invoked_by.parents(), effect);
            let root = root_of(child_of.parents(), effect);
            let aim = aim_targets@[invoker];
            let first = chain_generated(
                *old(backend),
                config.spawn_position_generator,
                passed_steps(in_targets@, B::spec_default_pos()),
                invoker,
                aim,
                root,
            );
            let second = target_stage(first.0, *config, first.1, in_targets@, invoker, aim, root);
            in_targets@.len() > 0 && aim_targets@.contains_key(invoker) && first.1.len() > 0
                && !stage_empty(second) && spec_spawn_parent(
                config.as_child_of,
                invoker,
                aim,
                root,
                in_targets@[0],
            ) != SpawnParent::Unresolved ==> templates.lookup(config.template_id@) is Some
        }),
    ensures
        ({
            let invoker = root_of(invoked_by.parents(), effect);
            let root = root_of(child_of.parents(), effect);
            let aim = aim_targets@[invoker];
            let ready = in_targets@.len() > 0 && aim_targets@.contains_key(invoker);
            let first = chain_generated(
                *old(backend),
                config.spawn_position_generator,
                passed_steps(in_targets@, B::spec_default_pos()),
                invoker,
                aim,
                root,
            );
            let second = target_stage(first.0, *config, first.1, in_targets@, invoker, aim, root);
            let parent = spec_spawn_parent(config.as_child_of, invoker, aim, root, in_targets@[0]);
            let after = match second {
                Some(st) => st.0,
                None => first.0,
            };
            let skipped = first.1.len() == 0 || stage_empty(second) || parent
                == SpawnParent::Unresolved;
            &&& (!ready ==> r is Skip && *final(backend) == *old(backend))
            &&& (ready ==> {
                &&& (r is Skip <==> skipped)
                &&& (r is Spawn <==> !skipped)
                &&& *final(backend) == (if first.1.len() == 0 {
                    first.0
                } else {
                    after
                })
                &&& (config.spawn_position_generator.gatherer is None ==> first.1.len()
                    == in_targets@.len())
            })
            &&& (r matches SpawnEntitiesDecision::Spawn {
                invoker: inv,
                root: rt,
                template,
                invoker_position,
                spawn_targets,
                target_targets,
                plans,
            } ==> {
                &&& ready
                &&& inv == invoker
                &&& rt == root
                &&& templates.lookup(config.template_id@) == Some(template)
                &&& invoker_position == position_or(
                    after.spec_position_of(invoker),
                    B::spec_default_pos(),
                )
                &&& spawn_targets@ == first.1
                &&& stage_targets(second, target_targets)
                &&& plans_for(plans@, spawn_targets@, target_targets, parent)
            })
        }),
{
    if in_targets.len() == 0 {
        return SpawnEntitiesDecision::Skip;
    }
    let invoker = invoked_by.root_ancestor(effect);
    let aim = match aim_targets.get(invoker) {
        Some(t) => t,
        None => {
            return SpawnEntitiesDecision::Skip;
        },
    };
    let root = child_of.root_ancestor(effect);
    let ghost b0 = *backend;
    let ghost steps = passed_steps(in_targets@, B::spec_default_pos());
    let mut spawn_targets: Vec<Target<B::Pos>> = Vec::new();
    let mut k: usize = 0;
    while k < in_targets.len()
        invariant
            k <= in_targets@.len(),
            steps == passed_steps(in_targets@, B::spec_default_pos()),
            (*backend, spawn_targets@) == chain_generated(
                b0,
                config.spawn_position_generator,
                steps.take(k as int),
                invoker,
                aim,
                root,
            ),
        decreases in_targets@.len() - k,
    {
        let ghost prev_backend = *backend;
        let chunk = generate_targets(
            &config.spawn_position_generator,
            backend,
            invoker,
            aim,
            root,
            B::default_pos(),
            in_targets[k],
        );
        let mut j: usize = 0;
        let ghost before = spawn_targets@;
        while j < chunk.len()
            invariant
                j <= chunk@.len(),
                spawn_targets@.len() == before.len() + j,
                forall|i: int| 0 <= i < before.len() ==> spawn_targets@[i] == before[i],
                forall|i: int| 0 <= i < j ==> spawn_targets@[before.len() + i] == chunk@[i].0,
            decreases chunk@.len() - j,
        {
            spawn_targets.push(chunk[j].0);
            j = j + 1;
        }
        proof {
            let g = generated(
                prev_backend,
                config.spawn_position_generator,
                invoker,
                aim,
                root,
                B::spec_default_pos(),
                in_targets@[k as int],
            );
            assert(steps.take(k + 1).drop_last() =~= steps.take(k as int));
            assert(steps.take(k + 1).last() == steps[k as int]);
            assert(target_list(g.1) =~= target_list(targets_view(chunk@)));
            assert(spawn_targets@ =~= before + target_list(g.1));
        }
        k = k + 1;
    }
    proof {
        assert(steps.take(in_targets@.len() as int) =~= steps);
        if config.spawn_position_generator.gatherer is None {
            lemma_chain_without_gatherer(b0, config.spawn_position_generator, steps, invoker, aim, root);
        }
    }
    if spawn_targets.len() == 0 {
        return SpawnEntitiesDecision::Skip;
    }
    let target_targets = match &config.spawn_target_generator {
        Some(target_generator) => {
            let ts = generate_targets_with_spawn_positions(
                target_generator,
                &spawn_targets,
                in_targets,
                invoker,
                aim,
                root,
                backend,
            );
            if ts.len() == 0 {
                return SpawnEntitiesDecision::Skip;
            }
            Some(ts)
        },
        None => None,
    };
    let parent = match resolve_spawn_parent(&config.as_child_of, invoker, aim, root, in_targets[0]) {
        SpawnParent::Unresolved => {
            return SpawnEntitiesDecision::Skip;
        },
        SpawnParent::Parent(p) => Some(p),
        SpawnParent::Unparented => None,
    };
    let template = *templates.get(config.template_id.as_str()).unwrap();
    let invoker_position = match backend.position_of(invoker) {
        Some(p) => p,
        None => B::default_pos(),
    };
    let plans = assign_spawn_targets(&spawn_targets, &target_targets, parent);
    SpawnEntitiesDecision::Spawn {
        invoker,
        root,
        template,
        invoker_position,
        spawn_targets,
        target_targets,
        plans,
    }
}

} // verus!
