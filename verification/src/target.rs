//! Targets and the targeting pipeline's configuration.

use vstd::prelude::*;

use crate::backend::SpatialBackend;
use crate::relation::Entity;

verus! {

// ---------------------------------------------------------------------------
// Scope
// ---------------------------------------------------------------------------

/// Per-target key/value context gathered along the pipeline
/// (e.g. `"Distance@scope"`), in insertion order.
pub type Scope<V> = Vec<(&'static str, V)>;

/// Whether two keys hold the same characters.
pub fn key_eq(a: &str, b: &str) -> (r: bool)
    ensures
        r == (a@ == b@),
{
    let n = a.unicode_len();
    if n != b.unicode_len() {
        return false;
    }
    let mut i: usize = 0;
    while i < n
        invariant
            n == a@.len(),
            n == b@.len(),
            i <= n,
            forall|j: int| 0 <= j < i ==> a@[j] == b@[j],
        decreases n - i,
    {
        if a.get_char(i) != b.get_char(i) {
            return false;
        }
        i = i + 1;
    }
    proof {
        assert(a@ =~= b@);
    }
    true
}

/// The keys of a scope, as character sequences.
pub open spec fn scope_keys<V>(s: Seq<(&'static str, V)>) -> Seq<Seq<char>> {
    s.map_values(|kv: (&'static str, V)| kv.0@)
}

/// Whether a scope holds `key`.
pub fn scope_has_key<V>(scope: &Scope<V>, key: &str) -> (r: bool)
    ensures
        r == scope_keys(scope@).contains(key@),
{
    let mut i: usize = 0;
    while i < scope.len()
        invariant
            i <= scope@.len(),
            forall|j: int| 0 <= j < i ==> scope@[j].0@ != key@,
        decreases scope@.len() - i,
    {
        if key_eq(scope[i].0, key) {
            proof {
                assert(scope_keys(scope@)[i as int] == key@);
            }
            return true;
        }
        i = i + 1;
    }
    proof {
        if scope_keys(scope@).contains(key@) {
            let j = choose|j: int| 0 <= j < scope_keys(scope@).len() && scope_keys(scope@)[j] == key@;
            assert(scope@[j].0@ == key@);
        }
    }
    false
}

// ---------------------------------------------------------------------------
// Target / InvokerTarget
// ---------------------------------------------------------------------------

/// A resolved target: optionally an entity, always a position.
#[derive(Clone, Copy, Debug)]
pub struct Target<P> {
    pub entity: Option<Entity>,
    pub position: P,
}

impl<P: Copy> Target<P> {
    /// A target referencing `entity` at `position`.
    pub fn entity(entity: Entity, position: P) -> (t: Self)
        ensures
            t.entity == Some(entity),
            t.position == position,
    {
        Target { entity: Some(entity), position }
    }

    /// A position-only target.
    pub fn position(position: P) -> (t: Self)
        ensures
            t.entity is None,
            t.position == position,
    {
        Target { entity: None, position }
    }

    /// The invoker's aim as a target: same entity and position.
    pub fn from_invoker_target(it: InvokerTarget<P>) -> (t: Self)
        ensures
            t.entity == it.entity,
            t.position == it.position,
    {
        Target { entity: it.entity, position: it.position }
    }
}

/// The invoker's current aim target, placed on character/AI entities.
#[derive(Clone, Copy, Debug)]
pub struct InvokerTarget<P> {
    pub entity: Option<Entity>,
    pub position: P,
}

impl<P: Copy> InvokerTarget<P> {
    /// Aim at `entity`, located at `position`.
    pub fn entity(entity: Entity, position: P) -> (t: Self)
        ensures
            t.entity == Some(entity),
            t.position == position,
    {
        InvokerTarget { entity: Some(entity), position }
    }

    /// Aim at a bare position.
    pub fn position(position: P) -> (t: Self)
        ensures
            t.entity is None,
            t.position == position,
    {
        InvokerTarget { entity: None, position }
    }
}

// ---------------------------------------------------------------------------
// TargetType
// ---------------------------------------------------------------------------

/// Which entity/position the pipeline starts from.
#[derive(Clone, Copy, Debug)]
pub enum TargetType<P> {
    /// The entity that invoked the ability.
    Invoker,
    /// The root entity of the ability hierarchy.
    Root,
    /// The invoker's current target.
    InvokerTarget,
    /// The spawn position (passed as context).
    Spawn,
    /// The incoming target from the parent effect.
    Passed,
    /// A fixed position.
    Position(P),
}

impl<P> Default for TargetType<P> {
    /// The default target type: the passed target.
    fn default() -> (t: Self)
        ensures
            t is Passed,
    {
        TargetType::Passed
    }
}

impl<P> TargetType<P> {

    /// Whether this is `Spawn`.
    pub fn is_spawn(&self) -> (b: bool)
        ensures
            b == (*self is Spawn),
    {
        match self {
            TargetType::Spawn => true,
            _ => false,
        }
    }
}

// ---------------------------------------------------------------------------
// TargetGenerator
// ---------------------------------------------------------------------------

/// Targeting pipeline config: target type, offset, gatherer, filter.
pub struct TargetGenerator<B: SpatialBackend> {
    pub target_type: TargetType<B::Pos>,
    pub offset: B::Offset,
    /// `None` = identity gather (the resolved target as-is).
    pub gatherer: Option<B::Gatherer>,
    pub filter: B::Filter,
}

impl<B: SpatialBackend> Default for TargetGenerator<B> {
    /// The default generator: the passed target, default offset and filter,
    /// identity gather.
    fn default() -> (g: Self)
        ensures
            g == Self::spec_with_type(TargetType::Passed),
    {
        Self::with_type(TargetType::Passed)
    }
}

impl<B: SpatialBackend> TargetGenerator<B> {
    /// A generator with the backend's default offset and filter, no gatherer.
    pub open spec fn spec_with_type(target_type: TargetType<B::Pos>) -> Self {
        TargetGenerator {
            target_type,
            offset: B::spec_default_offset(),
            gatherer: None,
            filter: B::spec_default_filter(),
        }
    }

    /// A generator for `target_type` with default offset, filter and gather.
    pub fn with_type(target_type: TargetType<B::Pos>) -> (g: Self)
        ensures
            g == Self::spec_with_type(target_type),
    {
        TargetGenerator {
            target_type,
            offset: B::default_offset(),
            gatherer: None,
            filter: B::default_filter(),
        }
    }

    /// Start from the invoker.
    pub fn at_invoker() -> (g: Self)
        ensures
            g == Self::spec_with_type(TargetType::Invoker),
    {
        Self::with_type(TargetType::Invoker)
    }

    /// Start from the invoker's target.
    pub fn at_invoker_target() -> (g: Self)
        ensures
            g == Self::spec_with_type(TargetType::InvokerTarget),
    {
        Self::with_type(TargetType::InvokerTarget)
    }

    /// Start from the spawn position.
    pub fn at_spawn() -> (g: Self)
        ensures
            g == Self::spec_with_type(TargetType::Spawn),
    {
        Self::with_type(TargetType::Spawn)
    }

    /// Start from the ability root.
    pub fn at_root() -> (g: Self)
        ensures
            g == Self::spec_with_type(TargetType::Root),
    {
        Self::with_type(TargetType::Root)
    }

    /// Start from the passed target.
    pub fn at_passed() -> (g: Self)
        ensures
            g == Self::spec_with_type(TargetType::Passed),
    {
        Self::with_type(TargetType::Passed)
    }

    /// Start from a fixed position.
    pub fn at_position(position: B::Pos) -> (g: Self)
        ensures
            g == Self::spec_with_type(TargetType::Position(position)),
    {
        Self::with_type(TargetType::Position(position))
    }

    /// Set the gatherer.
    pub fn with_gatherer(self, gatherer: B::Gatherer) -> (g: Self)
        ensures
            g == (TargetGenerator::<B> { gatherer: Some(gatherer), ..self }),
    {
        TargetGenerator { gatherer: Some(gatherer), ..self }
    }

    /// Set the offset.
    pub fn with_offset(self, offset: B::Offset) -> (g: Self)
        ensures
            g == (TargetGenerator::<B> { offset, ..self }),
    {
        TargetGenerator { offset, ..self }
    }

    /// Set the filter.
    pub fn with_filter(self, filter: B::Filter) -> (g: Self)
        ensures
            g == (TargetGenerator::<B> { filter, ..self }),
    {
        TargetGenerator { filter, ..self }
    }
}

// ---------------------------------------------------------------------------
// TargetMutator
// ---------------------------------------------------------------------------

/// Rewrites the targets an effect receives: wraps a [`TargetGenerator`].
pub struct TargetMutator<B: SpatialBackend> {
    pub generator: TargetGenerator<B>,
}

impl<B: SpatialBackend> TargetMutator<B> {
    /// A mutator for `target_type` with default offset, filter and gather.
    pub fn new(target_type: TargetType<B::Pos>) -> (m: Self)
        ensures
            m.generator == TargetGenerator::<B>::spec_with_type(target_type),
    {
        TargetMutator { generator: TargetGenerator::with_type(target_type) }
    }

    /// Target the invoker.
    pub fn invoker() -> (m: Self)
        ensures
            m.generator == TargetGenerator::<B>::spec_with_type(TargetType::Invoker),
    {
        Self::new(TargetType::Invoker)
    }

    /// Target the invoker's current target.
    pub fn invoker_target() -> (m: Self)
        ensures
            m.generator == TargetGenerator::<B>::spec_with_type(TargetType::InvokerTarget),
    {
        Self::new(TargetType::InvokerTarget)
    }

    /// Target the root entity.
    pub fn root() -> (m: Self)
        ensures
            m.generator == TargetGenerator::<B>::spec_with_type(TargetType::Root),
    {
        Self::new(TargetType::Root)
    }

    /// Target the spawn position.
    pub fn spawn() -> (m: Self)
        ensures
            m.generator == TargetGenerator::<B>::spec_with_type(TargetType::Spawn),
    {
        Self::new(TargetType::Spawn)
    }

    /// Target the passed target.
    pub fn passed() -> (m: Self)
        ensures
            m.generator == TargetGenerator::<B>::spec_with_type(TargetType::Passed),
    {
        Self::new(TargetType::Passed)
    }

    /// Target a fixed position.
    pub fn at_position(position: B::Pos) -> (m: Self)
        ensures
            m.generator == TargetGenerator::<B>::spec_with_type(TargetType::Position(position)),
    {
        Self::new(TargetType::Position(position))
    }

    /// Set the offset.
    pub fn with_offset(self, offset: B::Offset) -> (m: Self)
        ensures
            m.generator == (TargetGenerator::<B> { offset, ..self.generator }),
    {
        TargetMutator { generator: self.generator.with_offset(offset) }
    }

    /// Set the gatherer.
    pub fn with_gatherer(self, gatherer: B::Gatherer) -> (m: Self)
        ensures
            m.generator == (TargetGenerator::<B> { gatherer: Some(gatherer), ..self.generator }),
    {
        TargetMutator { generator: self.generator.with_gatherer(gatherer) }
    }

    /// Set the filter.
    pub fn with_filter(self, filter: B::Filter) -> (m: Self)
        ensures
            m.generator == (TargetGenerator::<B> { filter, ..self.generator }),
    {
        TargetMutator { generator: self.generator.with_filter(filter) }
    }
}

} // verus!
