//! The targeting pipeline (resolve -> offset -> gather) and the effect
//! propagation walk over the `SubEffects` tree.

use vstd::prelude::*;

use crate::backend::SpatialBackend;
use crate::component::ComponentMap;
use crate::effect::{aim_of, invoker_aim};
use crate::relation::{
    ancestor, children_seq, is_depth, lemma_ancestor_add, lemma_depth_bound, lemma_depth_child,
    lemma_children_seq_step, lemma_depth_exists, lemma_depth_unique, lemma_parent_map_at,
    parent_is, parent_map, root_of, step,
    unique_children, Entity, Relation,
};
use crate::target::{
    key_eq, scope_has_key, scope_keys, InvokerTarget, Scope, Target, TargetGenerator,
    TargetMutator, TargetType,
};

verus! {

/// The scope key under which the pipeline records the distance from the
/// invoker to each resolved target.
pub const INVOKER_DISTANCE_KEY: &'static str = "InvokerDistance@scope";

// ---------------------------------------------------------------------------
// Views of target lists
// ---------------------------------------------------------------------------

/// A target with its scope, as values.
pub open spec fn scoped_view<P, V>(x: (Target<P>, Scope<V>)) -> (Target<P>, Seq<(&'static str, V)>) {
    (x.0, x.1@)
}

/// A list of targets with their scopes, as values.
pub open spec fn targets_view<P, V>(ts: Seq<(Target<P>, Scope<V>)>) -> Seq<
    (Target<P>, Seq<(&'static str, V)>),
> {
    ts.map_values(|x: (Target<P>, Scope<V>)| scoped_view(x))
}

/// Copy a scope.
pub fn clone_scope<V: Copy>(s: &Scope<V>) -> (r: Scope<V>)
    ensures
        r@ == s@,
{
    let mut r: Scope<V> = Vec::new();
    let mut i: usize = 0;
    while i < s.len()
        invariant
            i <= s@.len(),
            r@ == s@.take(i as int),
        decreases s@.len() - i,
    {
        r.push(s[i]);
        proof {
            assert(s@.take(i + 1) =~= s@.take(i as int).push(s@[i as int]));
        }
        i = i + 1;
    }
    proof {
        assert(s@.take(i as int) =~= s@);
    }
    r
}

/// Copy a list of targets with their scopes.
pub fn clone_targets<P: Copy, V: Copy>(ts: &Vec<(Target<P>, Scope<V>)>) -> (r: Vec<
    (Target<P>, Scope<V>),
>)
    ensures
        targets_view(r@) == targets_view(ts@),
{
    let mut r: Vec<(Target<P>, Scope<V>)> = Vec::new();
    let mut i: usize = 0;
    while i < ts.len()
        invariant
            i <= ts@.len(),
            r@.len() == i,
            forall|j: int| 0 <= j < i ==> #[trigger] scoped_view(r@[j]) == scoped_view(ts@[j]),
        decreases ts@.len() - i,
    {
        let s = clone_scope(&ts[i].1);
        r.push((ts[i].0, s));
        i = i + 1;
    }
    proof {
        assert(targets_view(r@) =~= targets_view(ts@));
    }
    r
}

// ---------------------------------------------------------------------------
// Scope merging
// ---------------------------------------------------------------------------

/// `s` with the entries of `parent` appended, in order, skipping every entry
/// whose key is already present (so existing keys win).
pub open spec fn merged_scope<V>(s: Seq<(&'static str, V)>, parent: Seq<(&'static str, V)>) -> Seq<
    (&'static str, V),
>
    decreases parent.len(),
{
    if parent.len() == 0 {
        s
    } else {
        let acc = merged_scope(s, parent.drop_last());
        if scope_keys(acc).contains(parent.last().0@) {
            acc
        } else {
            acc.push(parent.last())
        }
    }
}

/// Merging keeps the scope's own entries first and unchanged (existing keys
/// win), appends only entries whose keys are new, and afterwards holds
/// every key of either scope.
pub proof fn lemma_merge_keeps_existing<V>(s: Seq<(&'static str, V)>, parent: Seq<(&'static str, V)>)
    ensures
        merged_scope(s, parent).len() >= s.len(),
        merged_scope(s, parent).take(s.len() as int) == s,
        forall|i: int|
            s.len() <= i < merged_scope(s, parent).len() ==> !scope_keys(s).contains(
                #[trigger] merged_scope(s, parent)[i].0@,
            ),
        forall|k: Seq<char>|
            #[trigger] scope_keys(merged_scope(s, parent)).contains(k) <==> (scope_keys(s).contains(k)
                || scope_keys(parent).contains(k)),
    decreases parent.len(),
{
    if parent.len() == 0 {
        assert(merged_scope(s, parent).take(s.len() as int) =~= s);
    } else {
        let init = parent.drop_last();
        let last = parent.last();
        lemma_merge_keeps_existing(s, init);
        let acc = merged_scope(s, init);
        let r = merged_scope(s, parent);
        assert(acc.take(s.len() as int) == s);
        lemma_scope_keys_push(acc, last);
        lemma_scope_keys_push(init, last);
        assert(init.push(last) =~= parent);
        if scope_keys(acc).contains(last.0@) {
            assert(r == acc);
        } else {
            assert(r == acc.push(last));
            assert(r.take(s.len() as int) =~= acc.take(s.len() as int));
            assert forall|i: int| s.len() <= i < r.len() implies !scope_keys(s).contains(
                #[trigger] r[i].0@,
            ) by {
                if i == acc.len() {
                    if scope_keys(s).contains(last.0@) {
                        assert(scope_keys(acc).contains(last.0@));
                    }
                } else {
                    assert(r[i] == acc[i]);
                }
            }
        }
    }
}

/// The keys of a scope with one more entry.
pub proof fn lemma_scope_keys_push<V>(s: Seq<(&'static str, V)>, e: (&'static str, V))
    ensures
        scope_keys(s.push(e)) == scope_keys(s).push(e.0@),
        forall|k: Seq<char>|
            #[trigger] scope_keys(s.push(e)).contains(k) <==> (scope_keys(s).contains(k) || k == e.0@),
{
    assert(scope_keys(s.push(e)) =~= scope_keys(s).push(e.0@));
    assert forall|k: Seq<char>| #[trigger] scope_keys(s.push(e)).contains(k) <==> (scope_keys(
        s,
    ).contains(k) || k == e.0@) by {
        let ks = scope_keys(s);
        if ks.push(e.0@).contains(k) {
            let i = choose|i: int| 0 <= i < ks.push(e.0@).len() && ks.push(e.0@)[i] == k;
            if i < ks.len() {
                assert(ks[i] == k);
            }
        }
        if ks.contains(k) {
            let i = choose|i: int| 0 <= i < ks.len() && ks[i] == k;
            assert(ks.push(e.0@)[i] == k);
        }
        if k == e.0@ {
            assert(ks.push(e.0@)[ks.len() as int] == k);
        }
    }
}

/// Add `parent` keys to `scope`; existing keys win.
pub fn merge_scope<V: Copy>(scope: &mut Scope<V>, parent: &Scope<V>)
    ensures
        final(scope)@ == merged_scope(old(scope)@, parent@),
{
    let ghost s0 = scope@;
    let mut i: usize = 0;
    while i < parent.len()
        invariant
            i <= parent@.len(),
            scope@ == merged_scope(s0, parent@.take(i as int)),
        decreases parent@.len() - i,
    {
        proof {
            assert(parent@.take(i + 1).drop_last() =~= parent@.take(i as int));
        }
        if !scope_has_key(scope, parent[i].0) {
            scope.push(parent[i]);
        }
        i = i + 1;
    }
    proof {
        assert(parent@.take(i as int) =~= parent@);
    }
}

/// Add `parent_scope` keys to every target's scope; existing keys win.
pub fn merge_scope_into_targets<P: Copy, V: Copy>(
    targets: &mut Vec<(Target<P>, Scope<V>)>,
    parent_scope: &Scope<V>,
)
    ensures
        final(targets)@.len() == old(targets)@.len(),
        forall|i: int|
            0 <= i < old(targets)@.len() ==> (#[trigger] final(targets)@[i]).0 == old(
                targets,
            )@[i].0 && final(targets)@[i].1@ == merged_scope(old(targets)@[i].1@, parent_scope@),
{
    if parent_scope.len() == 0 {
        proof {
            assert forall|i: int| 0 <= i < old(targets)@.len() implies (#[trigger] targets@[i]).1@
                == merged_scope(old(targets)@[i].1@, parent_scope@) by {
                assert(parent_scope@.len() == 0);
            }
        }
        return ;
    }
    let mut out: Vec<(Target<P>, Scope<V>)> = Vec::new();
    let mut i: usize = 0;
    while i < targets.len()
        invariant
            i <= targets@.len(),
            targets@ == old(targets)@,
            out@.len() == i,
            forall|j: int|
                0 <= j < i ==> (#[trigger] out@[j]).0 == targets@[j].0 && out@[j].1@
                    == merged_scope(targets@[j].1@, parent_scope@),
        decreases targets@.len() - i,
    {
        let mut s = clone_scope(&targets[i].1);
        merge_scope(&mut s, parent_scope);
        out.push((targets[i].0, s));
        i = i + 1;
    }
    *targets = out;
}

// ---------------------------------------------------------------------------
// Target generation
// ---------------------------------------------------------------------------

/// The entity the pipeline's first stage resolves `target_type` to.
pub open spec fn base_entity<P>(
    target_type: TargetType<P>,
    invoker: Entity,
    invoker_target: Target<P>,
    root: Entity,
    passed: Target<P>,
) -> Option<Entity> {
    match target_type {
        TargetType::Invoker => Some(invoker),
        TargetType::Root => Some(root),
        TargetType::InvokerTarget => invoker_target.entity,
        TargetType::Spawn => None,
        TargetType::Passed => passed.entity,
        TargetType::Position(_) => None,
    }
}

/// The base target that stage one resolves `target_type` to, given the
/// invoker's and root's positions (`default` where an entity has none).
pub open spec fn base_target<P>(
    target_type: TargetType<P>,
    invoker: Entity,
    invoker_pos: Option<P>,
    invoker_target: Target<P>,
    root: Entity,
    root_pos: Option<P>,
    spawn_pos: P,
    passed: Target<P>,
    default: P,
) -> Target<P> {
    match target_type {
        TargetType::Invoker => Target {
            entity: Some(invoker),
            position: match invoker_pos {
                Some(p) => p,
                None => default,
            },
        },
        TargetType::Root => Target {
            entity: Some(root),
            position: match root_pos {
                Some(p) => p,
                None => default,
            },
        },
        TargetType::InvokerTarget => invoker_target,
        TargetType::Spawn => Target { entity: None, position: spawn_pos },
        TargetType::Passed => passed,
        TargetType::Position(p) => Target { entity: None, position: p },
    }
}

/// Stage one targets an entity at its own position: the invoker (or the
/// root) at the position it has, the default standing in only when it has
/// none; the aim and the passed target are taken as they are, and a spawn
/// or fixed position names no entity. The resolved entity is always
/// [`base_entity`].
pub proof fn lemma_base_target_at_own_position<P>(
    target_type: TargetType<P>,
    invoker: Entity,
    invoker_pos: Option<P>,
    invoker_target: Target<P>,
    root: Entity,
    root_pos: Option<P>,
    spawn_pos: P,
    passed: Target<P>,
    default: P,
)
    ensures
        ({
            let t = base_target(
                target_type,
                invoker,
                invoker_pos,
                invoker_target,
                root,
                root_pos,
                spawn_pos,
                passed,
                default,
            );
            &&& t.entity == base_entity(target_type, invoker, invoker_target, root, passed)
            &&& (target_type is Invoker && invoker_pos is Some) ==> t == Target {
                entity: Some(invoker),
                position: invoker_pos->0,
            }
            &&& (target_type is Invoker && invoker_pos is None) ==> t == Target {
                entity: Some(invoker),
                position: default,
            }
            &&& (target_type is Root && root_pos is Some) ==> t == Target {
                entity: Some(root),
                position: root_pos->0,
            }
            &&& (target_type is Root && root_pos is None) ==> t == Target {
                entity: Some(root),
                position: default,
            }
            &&& target_type is InvokerTarget ==> t == invoker_target
            &&& target_type is Passed ==> t == passed
            &&& target_type is Spawn ==> t == Target { entity: None, position: spawn_pos }
            &&& (target_type matches TargetType::Position(p) ==> t == Target {
                entity: None,
                position: p,
            })
        }),
{
}

/// Stage one of the pipeline: the base target for `target_type`, given the
/// invoker's and root's positions (`default` where an entity has none).
pub fn resolve_base_target<P: Copy>(
    target_type: &TargetType<P>,
    invoker: Entity,
    invoker_pos: Option<P>,
    invoker_target: Target<P>,
    root: Entity,
    root_pos: Option<P>,
    spawn_pos: P,
    passed: Target<P>,
    default: P,
) -> (t: Target<P>)
    ensures
        t == base_target(
            *target_type,
            invoker,
            invoker_pos,
            invoker_target,
            root,
            root_pos,
            spawn_pos,
            passed,
            default,
        ),
{
    match target_type {
        TargetType::Invoker => {
            let pos = match invoker_pos {
                Some(p) => p,
                None => default,
            };
            Target::entity(invoker, pos)
        },
        TargetType::Root => {
            let pos = match root_pos {
                Some(p) => p,
                None => default,
            };
            Target::entity(root, pos)
        },
        TargetType::InvokerTarget => invoker_target,
        TargetType::Spawn => Target::position(spawn_pos),
        TargetType::Passed => passed,
        TargetType::Position(p) => Target::position(*p),
    }
}

/// The targets of `generated` before the distances are recorded: the
/// offset base target alone, or what the backend gathers around it; with the
/// backend afterwards.
pub open spec fn gathered<B: SpatialBackend>(
    b: B,
    generator: TargetGenerator<B>,
    invoker: Entity,
    invoker_target: Target<B::Pos>,
    root: Entity,
    spawn_pos: B::Pos,
    passed: Target<B::Pos>,
) -> (B, Seq<(Target<B::Pos>, Seq<(&'static str, B::Scalar)>)>) {
    let base = base_target(
        generator.target_type,
        invoker,
        b.spec_position_of(invoker),
        invoker_target,
        root,
        b.spec_position_of(root),
        spawn_pos,
        passed,
        B::spec_default_pos(),
    );
    let moved = b.spec_apply_offset(base.position, generator.offset);
    match generator.gatherer {
        None => (
            moved.0,
            seq![(Target { entity: base.entity, position: moved.1 }, Seq::<(&'static str, B::Scalar)>::empty())],
        ),
        Some(g) => {
            let found = moved.0.spec_gather(moved.1, g, invoker);
            (found.0, targets_view(found.1@))
        },
    }
}

/// What `generate_targets` gives on backend `b`: the gathered targets, each
/// scope extended by the distance from the invoker's position (the default
/// where it has none), both read from the backend after the gather; with the
/// backend afterwards.
pub open spec fn generated<B: SpatialBackend>(
    b: B,
    generator: TargetGenerator<B>,
    invoker: Entity,
    invoker_target: Target<B::Pos>,
    root: Entity,
    spawn_pos: B::Pos,
    passed: Target<B::Pos>,
) -> (B, Seq<(Target<B::Pos>, Seq<(&'static str, B::Scalar)>)>) {
    let g = gathered(b, generator, invoker, invoker_target, root, spawn_pos, passed);
    let from = match g.0.spec_position_of(invoker) {
        Some(p) => p,
        None => B::spec_default_pos(),
    };
    (
        g.0,
        g.1.map_values(
            |x: (Target<B::Pos>, Seq<(&'static str, B::Scalar)>)|
                (x.0, x.1.push((INVOKER_DISTANCE_KEY, g.0.spec_distance(from, x.0.position)))),
        ),
    )
}

/// Resolve -> offset -> gather, then record each target's distance from the
/// invoker under [`INVOKER_DISTANCE_KEY`]. Unfiltered.
///
/// Without a gatherer the result is the single resolved target, moved by the
/// backend's offset (entity kept). With one, the backend gathers around the
/// offset position.
pub fn generate_targets<B: SpatialBackend>(
    generator: &TargetGenerator<B>,
    backend: &mut B,
    invoker: Entity,
    invoker_target: Target<B::Pos>,
    root: Entity,
    spawn_pos: B::Pos,
    passed: Target<B::Pos>,
) -> (r: Vec<(Target<B::Pos>, Scope<B::Scalar>)>)
    ensures
        generator.gatherer is None ==> {
            &&& r@.len() == 1
            &&& r@[0].0.entity == base_entity(
                generator.target_type,
                invoker,
                invoker_target,
                root,
                passed,
            )
            &&& r@[0].1@.len() == 1
        },
        forall|i: int|
            0 <= i < r@.len() ==> (#[trigger] r@[i]).1@.len() > 0 && r@[i].1@.last().0
                == INVOKER_DISTANCE_KEY,
        (*final(backend), targets_view(r@)) == generated(
            *old(backend),
            *generator,
            invoker,
            invoker_target,
            root,
            spawn_pos,
            passed,
        ),
{
    let ghost b0 = *backend;
    let invoker_pos = backend.position_of(invoker);
    let root_pos = backend.position_of(root);
    let base = resolve_base_target(
        &generator.target_type,
        invoker,
        invoker_pos,
        invoker_target,
        root,
        root_pos,
        spawn_pos,
        passed,
        B::default_pos(),
    );
    let offset_pos = backend.apply_offset(base.position, &generator.offset);
    let results = match &generator.gatherer {
        None => {
            let mut v: Vec<(Target<B::Pos>, Scope<B::Scalar>)> = Vec::new();
            v.push((Target { entity: base.entity, position: offset_pos }, Vec::new()));
            v
        },
        Some(g) => backend.gather(offset_pos, g, invoker),
    };
    let from = match backend.position_of(invoker) {
        Some(p) => p,
        None => B::default_pos(),
    };
    let ghost g = gathered(b0, *generator, invoker, invoker_target, root, spawn_pos, passed);
    proof {
        assert(*backend == g.0 && targets_view(results@) =~= g.1);
    }
    let mut out: Vec<(Target<B::Pos>, Scope<B::Scalar>)> = Vec::new();
    let mut i: usize = 0;
    while i < results.len()
        invariant
            i <= results@.len(),
            out@.len() == i,
            *backend == g.0,
            forall|j: int|
                0 <= j < i ==> (#[trigger] out@[j]).0 == results@[j].0 && out@[j].1@
                    == results@[j].1@.push((INVOKER_DISTANCE_KEY, out@[j].1@.last().1)),
            forall|j: int|
                0 <= j < i ==> (#[trigger] out@[j]).1@.last().1 == backend.spec_distance(
                    from,
                    results@[j].0.position,
                ),
        decreases results@.len() - i,
    {
        let mut s = clone_scope(&results[i].1);
        let dist = backend.distance(&from, &results[i].0.position);
        s.push((INVOKER_DISTANCE_KEY, dist));
        out.push((results[i].0, s));
        i = i + 1;
    }
    proof {
        if generator.gatherer is None {
            assert(out@[0].1@ == results@[0].1@.push((INVOKER_DISTANCE_KEY, out@[0].1@.last().1)));
        }
        assert(targets_view(out@) =~= generated(
            b0,
            *generator,
            invoker,
            invoker_target,
            root,
            spawn_pos,
            passed,
        ).1);
    }
    out
}

// ---------------------------------------------------------------------------
// GoOff messages
// ---------------------------------------------------------------------------

/// Root trigger: the propagation walk starts at `entity`, whose incoming
/// target is `target` with scope `gather`.
pub struct GoOffOrigin<P, V> {
    pub entity: Entity,
    pub target: Target<P>,
    pub gather: Scope<V>,
}

impl<P: Copy, V> GoOffOrigin<P, V> {
    /// An origin with an empty scope.
    pub fn new(entity: Entity, target: Target<P>) -> (o: Self)
        ensures
            o.entity == entity,
            o.target == target,
            o.gather@ == Seq::<(&'static str, V)>::empty(),
    {
        GoOffOrigin { entity, target, gather: Vec::new() }
    }

    /// An origin carrying `gather` as its scope.
    pub fn with_gather(entity: Entity, target: Target<P>, gather: Scope<V>) -> (o: Self)
        ensures
            o.entity == entity,
            o.target == target,
            o.gather == gather,
    {
        GoOffOrigin { entity, target, gather }
    }
}

/// A resolved "go off" for a single effect entity and one target.
pub struct GoOff<P, V> {
    pub entity: Entity,
    pub target: Target<P>,
    pub gather: Scope<V>,
}

impl<P: Copy, V> GoOff<P, V> {
    /// A go-off with an empty scope.
    pub fn new(entity: Entity, target: Target<P>) -> (g: Self)
        ensures
            g.entity == entity,
            g.target == target,
            g.gather@ == Seq::<(&'static str, V)>::empty(),
    {
        GoOff { entity, target, gather: Vec::new() }
    }

    /// A go-off carrying `gather` as its scope.
    pub fn with_gather(entity: Entity, target: Target<P>, gather: Scope<V>) -> (g: Self)
        ensures
            g.entity == entity,
            g.target == target,
            g.gather == gather,
    {
        GoOff { entity, target, gather }
    }
}

/// All go-offs for one effect entity: one per target, in order.
pub struct GoOffBatch<P, V> {
    pub entity: Entity,
    pub targets: Vec<(Target<P>, Scope<V>)>,
}

/// The effect entities of a list of batches, in order.
pub open spec fn batch_entities<P, V>(b: Seq<GoOffBatch<P, V>>) -> Seq<Entity> {
    b.map_values(|x: GoOffBatch<P, V>| x.entity)
}

// ---------------------------------------------------------------------------
// Target mutators per effect entity
// ---------------------------------------------------------------------------

/// The `TargetMutator` component of effect entities.
pub struct Mutators<B: SpatialBackend> {
    items: Vec<(Entity, TargetMutator<B>)>,
}

impl<B: SpatialBackend> Mutators<B> {
    /// The entities that carry a mutator.
    pub closed spec fn keys(&self) -> Set<Entity> {
        Set::new(|e: Entity| exists|i: int| 0 <= i < self.items@.len() && #[trigger] self.items@[i].0 == e)
    }

    /// No mutators.
    pub fn new() -> (m: Self)
        ensures
            m.keys() == Set::<Entity>::empty(),
    {
        let m = Mutators { items: Vec::new() };
        assert(m.keys() =~= Set::<Entity>::empty());
        m
    }

    /// Give `e` the mutator `mutator`, replacing any earlier one.
    pub fn insert(&mut self, e: Entity, mutator: TargetMutator<B>)
        ensures
            final(self).keys() == old(self).keys().insert(e),
    {
        let mut i: usize = 0;
        while i < self.items.len()
            invariant
                i <= self.items@.len(),
                self.keys().remove(e) == old(self).keys().remove(e),
                forall|j: int| 0 <= j < i ==> #[trigger] self.items@[j].0 != e,
            decreases self.items@.len() - i,
        {
            if self.items[i].0 == e {
                let ghost before = self.items@;
                let ghost kb = self.keys();
                self.items.remove(i);
                proof {
                    assert(self.keys().remove(e) =~= kb.remove(e)) by {
                        assert forall|x: Entity| x != e implies (self.keys().contains(x)
                            <==> kb.contains(x)) by {
                            if kb.contains(x) {
                                let j = choose|j: int| 0 <= j < before.len() && #[trigger] before[j].0 == x;
                                assert(j != i);
                                let j2 = if j < i { j } else { j - 1 };
                                assert(self.items@[j2] == before[j]);
                            }
                            if self.keys().contains(x) {
                                let j = choose|j: int| 0 <= j < self.items@.len() && #[trigger] self.items@[j].0 == x;
                                let j2 = if j < i { j } else { j + 1 };
                                assert(self.items@[j] == before[j2]);
                            }
                        }
                    }
                    assert forall|j: int| 0 <= j < i implies #[trigger] self.items@[j].0 != e by {
                        assert(self.items@[j] == before[j]);
                    }
                }
            } else {
                i = i + 1;
            }
        }
        let ghost kb = self.keys();
        let ghost before = self.items@;
        self.items.push((e, mutator));
        proof {
            assert(!kb.contains(e));
            assert(self.keys() =~= old(self).keys().insert(e)) by {
                assert forall|x: Entity| self.keys().contains(x) <==> old(self).keys().insert(e).contains(x) by {
                    if x == e {
                        assert(self.items@[before.len() as int].0 == e);
                    } else {
                        if kb.contains(x) {
                            let j = choose|j: int| 0 <= j < before.len() && #[trigger] before[j].0 == x;
                            assert(self.items@[j] == before[j]);
                        }
                        if self.keys().contains(x) {
                            let j = choose|j: int| 0 <= j < self.items@.len() && #[trigger] self.items@[j].0 == x;
                            assert(j < before.len());
                            assert(self.items@[j] == before[j]);
                        }
                        assert(kb.remove(e).contains(x) == old(self).keys().remove(e).contains(x));
                    }
                }
            }
        }
    }

    /// The mutator that `e` carries (meaningful where `e` is a key).
    pub closed spec fn mutator_of(&self, e: Entity) -> TargetMutator<B> {
        self.items@[choose|i: int|
            0 <= i < self.items@.len() && self.items@[i].0 == e && forall|j: int|
                0 <= j < i ==> #[trigger] self.items@[j].0 != e].1
    }

    /// `e`'s mutator, if it has one.
    pub fn get(&self, e: Entity) -> (r: Option<&TargetMutator<B>>)
        ensures
            r is Some <==> self.keys().contains(e),
            r matches Some(m) ==> *m == self.mutator_of(e),
    {
        let mut i: usize = 0;
        while i < self.items.len()
            invariant
                i <= self.items@.len(),
                forall|j: int| 0 <= j < i ==> #[trigger] self.items@[j].0 != e,
            decreases self.items@.len() - i,
        {
            if self.items[i].0 == e {
                proof {
                    let c = choose|c: int|
                        0 <= c < self.items@.len() && self.items@[c].0 == e && forall|j: int|
                            0 <= j < c ==> #[trigger] self.items@[j].0 != e;
                    assert(0 <= i < self.items@.len() && self.items@[i as int].0 == e && forall|j: int|
                        0 <= j < i ==> #[trigger] self.items@[j].0 != e);
                    if c < i {
                        assert(self.items@[c].0 != e);
                    } else if c > i {
                        assert(self.items@[i as int].0 != e);
                    }
                    assert(c == i);
                }
                return Some(&self.items[i].1);
            }
            i = i + 1;
        }
        None
    }
}

// ---------------------------------------------------------------------------
// The propagation walk
// ---------------------------------------------------------------------------

/// The effect entities, in order, whose batches the walk writes below `n`:
/// first all children of `n` in order, then the walks below those children,
/// last child first.
pub open spec fn expand_order(s: Seq<(Entity, Entity)>, n: Entity, fuel: nat) -> Seq<Entity>
    decreases fuel, 0nat,
{
    if fuel == 0 {
        Seq::empty()
    } else {
        children_seq(s, n) + walk_rev(s, children_seq(s, n), (fuel - 1) as nat)
    }
}

/// The walks below `cs`, last entity first.
pub open spec fn walk_rev(s: Seq<(Entity, Entity)>, cs: Seq<Entity>, fuel: nat) -> Seq<Entity>
    decreases fuel, cs.len() + 1,
{
    if cs.len() == 0 {
        Seq::empty()
    } else {
        expand_order(s, cs.last(), fuel) + walk_rev(s, cs.drop_last(), fuel)
    }
}

/// The number of steps from `e` to its root.
pub open spec fn depth_of(m: Map<Entity, Entity>, e: Entity) -> nat {
    choose|d: nat| is_depth(m, e, d)
}

/// Every batch after the first belongs to a child entity, and an earlier
/// batch belongs to its parent; an entity without mutator receives exactly
/// its parent's targets.
pub open spec fn batches_inherit<P, V>(
    m: Map<Entity, Entity>,
    mutated: Set<Entity>,
    b: Seq<GoOffBatch<P, V>>,
) -> bool {
    forall|j: int|
        1 <= j < b.len() ==> {
            &&& m.contains_key(#[trigger] b[j].entity)
            &&& exists|k: int|
                0 <= k < j && b[k].entity == m[b[j].entity] && (!mutated.contains(b[j].entity)
                    ==> targets_view(b[j].targets@) == targets_view(b[k].targets@))
        }
}

/// One batch's targets and the backend around it: for an entity with a
/// mutator, that mutator run over the incoming targets; otherwise the
/// incoming targets as they are, the backend untouched.
pub open spec fn batch_from<B: SpatialBackend>(
    mutators: Mutators<B>,
    entity: Entity,
    incoming: TargetsView<B::Pos, B::Scalar>,
    invoker: Entity,
    invoker_target: Target<B::Pos>,
    root: Entity,
    before: B,
    out: TargetsView<B::Pos, B::Scalar>,
    after: B,
) -> bool {
    if mutators.keys().contains(entity) {
        mutated(
            before,
            mutators.mutator_of(entity),
            incoming,
            invoker,
            invoker_target,
            root,
            out,
            after,
        )
    } else {
        out == incoming && after == before
    }
}

/// The walk's batches with the backend after each one: every batch after
/// the first belongs to a child whose parent's batch comes earlier, and is
/// made from that parent's targets on the backend that the batch before it
/// left.
pub open spec fn walk_follows<B: SpatialBackend>(
    m: Map<Entity, Entity>,
    mutators: Mutators<B>,
    invoker: Entity,
    invoker_target: Target<B::Pos>,
    root: Entity,
    b: Seq<GoOffBatch<B::Pos, B::Scalar>>,
    states: Seq<B>,
) -> bool {
    &&& states.len() == b.len()
    &&& forall|j: int|
        1 <= j < b.len() ==> {
            &&& m.contains_key(#[trigger] b[j].entity)
            &&& exists|k: int|
                0 <= k < j && b[k].entity == m[b[j].entity] && batch_from(
                    mutators,
                    b[j].entity,
                    targets_view(b[k].targets@),
                    invoker,
                    invoker_target,
                    root,
                    states[j - 1],
                    targets_view(b[j].targets@),
                    states[j],
                )
        }
}

/// A walk that follows its batches also lets every entity without a
/// mutator inherit exactly its parent's targets.
pub proof fn lemma_walk_inherits<B: SpatialBackend>(
    m: Map<Entity, Entity>,
    mutators: Mutators<B>,
    invoker: Entity,
    invoker_target: Target<B::Pos>,
    root: Entity,
    b: Seq<GoOffBatch<B::Pos, B::Scalar>>,
    states: Seq<B>,
)
    requires
        walk_follows(m, mutators, invoker, invoker_target, root, b, states),
    ensures
        batches_inherit(m, mutators.keys(), b),
{
    assert forall|j: int| 1 <= j < b.len() implies {
        &&& m.contains_key(#[trigger] b[j].entity)
        &&& exists|k: int|
            0 <= k < j && b[k].entity == m[b[j].entity] && (!mutators.keys().contains(b[j].entity)
                ==> targets_view(b[j].targets@) == targets_view(b[k].targets@))
    } by {
        let k = choose|k: int|
            0 <= k < j && b[k].entity == m[b[j].entity] && batch_from(
                mutators,
                b[j].entity,
                targets_view(b[k].targets@),
                invoker,
                invoker_target,
                root,
                states[j - 1],
                targets_view(b[j].targets@),
                states[j],
            );
        assert(0 <= k < j && b[k].entity == m[b[j].entity] && (!mutators.keys().contains(b[j].entity)
            ==> targets_view(b[j].targets@) == targets_view(b[k].targets@)));
    }
}

/// A child listed for `p` has `p` as parent.
pub proof fn lemma_children_parent(s: Seq<(Entity, Entity)>, p: Entity, i: int)
    requires
        crate::relation::unique_children(s),
        0 <= i < children_seq(s, p).len(),
    ensures
        parent_map(s).contains_key(children_seq(s, p)[i]),
        parent_map(s)[children_seq(s, p)[i]] == p,
{
    let f = s.filter(crate::relation::parent_is(p));
    assert(children_seq(s, p)[i] == f[i].0);
    s.lemma_filter_pred(crate::relation::parent_is(p), i);
    assert(f.contains(f[i]));
    crate::relation::lemma_filter_subset(s, crate::relation::parent_is(p), f[i]);
    let j = choose|j: int| 0 <= j < s.len() && s[j] == f[i];
    crate::relation::lemma_parent_map_at(s, j);
}


// ---------------------------------------------------------------------------
// What the walk visits
// ---------------------------------------------------------------------------

/// `x` lies strictly below `n`: walking up from `x` reaches `n` after at
/// least one step, every step following an edge.
pub open spec fn strictly_below(m: Map<Entity, Entity>, x: Entity, n: Entity) -> bool {
    exists|k: nat|
        {
            &&& k >= 1
            &&& #[trigger] ancestor(m, x, k) == n
            &&& forall|i: nat| i < k ==> m.contains_key(#[trigger] ancestor(m, x, i))
        }
}

/// An entity whose parent is `p` is among `p`'s children.
pub proof fn lemma_child_listed(s: Seq<(Entity, Entity)>, p: Entity, x: Entity)
    requires
        unique_children(s),
        parent_map(s).contains_key(x),
        parent_map(s)[x] == p,
    ensures
        children_seq(s, p).contains(x),
{
    broadcast use vstd::seq_lib::group_filter_ensures;

    let i = choose|i: int| 0 <= i < s.len() && #[trigger] s[i].0 == x;
    lemma_parent_map_at(s, i);
    let f = s.filter(parent_is(p));
    assert(parent_is(p)(s[i]));
    assert(f.contains(s[i]));
    let j = choose|j: int| 0 <= j < f.len() && f[j] == s[i];
    assert(children_seq(s, p)[j] == x);
}

/// Everything the walk below `n` visits lies strictly below `n`.
pub proof fn lemma_expand_sound(s: Seq<(Entity, Entity)>, n: Entity, fuel: nat, x: Entity)
    requires
        unique_children(s),
        expand_order(s, n, fuel).contains(x),
    ensures
        strictly_below(parent_map(s), x, n),
    decreases fuel, 0nat,
{
    let m = parent_map(s);
    let cs = children_seq(s, n);
    let rest = walk_rev(s, cs, (fuel - 1) as nat);
    let idx = choose|idx: int| 0 <= idx < expand_order(s, n, fuel).len() && expand_order(s, n, fuel)[idx] == x;
    if idx < cs.len() {
        assert(cs[idx] == x);
        lemma_children_parent(s, n, idx);
        assert(ancestor(m, x, 0) == x);
        assert(ancestor(m, x, 1) == n);
        assert forall|i: nat| i < 1 implies m.contains_key(#[trigger] ancestor(m, x, i)) by {}
    } else {
        assert(rest[idx - cs.len()] == x);
        assert(rest.contains(x));
        let j = lemma_walk_rev_sound(s, cs, (fuel - 1) as nat, x);
        let c = cs[j];
        lemma_children_parent(s, n, j);
        let k = choose|k: nat|
            {
                &&& k >= 1
                &&& #[trigger] ancestor(m, x, k) == c
                &&& forall|i: nat| i < k ==> m.contains_key(#[trigger] ancestor(m, x, i))
            };
        assert(ancestor(m, x, k + 1) == n);
        assert forall|i: nat| i < k + 1 implies m.contains_key(#[trigger] ancestor(m, x, i)) by {
            if i == k {
                assert(ancestor(m, x, i) == c);
            }
        }
    }
}

/// Everything the walks below `cs` visit lies strictly below one of `cs`.
pub proof fn lemma_walk_rev_sound(s: Seq<(Entity, Entity)>, cs: Seq<Entity>, fuel: nat, x: Entity) -> (j: int)
    requires
        unique_children(s),
        walk_rev(s, cs, fuel).contains(x),
    ensures
        0 <= j < cs.len(),
        strictly_below(parent_map(s), x, cs[j]),
    decreases fuel, cs.len() + 1,
{
    let first = expand_order(s, cs.last(), fuel);
    let second = walk_rev(s, cs.drop_last(), fuel);
    let w = walk_rev(s, cs, fuel);
    let idx = choose|idx: int| 0 <= idx < w.len() && w[idx] == x;
    if idx < first.len() {
        assert(first[idx] == x);
        assert(first.contains(x));
        lemma_expand_sound(s, cs.last(), fuel, x);
        cs.len() - 1
    } else {
        assert(second[idx - first.len()] == x);
        assert(second.contains(x));
        let j = lemma_walk_rev_sound(s, cs.drop_last(), fuel, x);
        assert(cs.drop_last()[j] == cs[j]);
        j
    }
}

/// The walks below `cs` visit everything the walk below any of `cs` does.
pub proof fn lemma_walk_rev_contains(
    s: Seq<(Entity, Entity)>,
    cs: Seq<Entity>,
    fuel: nat,
    c: Entity,
    x: Entity,
)
    requires
        cs.contains(c),
        expand_order(s, c, fuel).contains(x),
    ensures
        walk_rev(s, cs, fuel).contains(x),
    decreases cs.len(),
{
    let first = expand_order(s, cs.last(), fuel);
    let second = walk_rev(s, cs.drop_last(), fuel);
    let w = walk_rev(s, cs, fuel);
    assert(w == first + second);
    if cs.last() == c {
        let idx = choose|idx: int| 0 <= idx < first.len() && first[idx] == x;
        assert(w[idx] == x);
    } else {
        let i = choose|i: int| 0 <= i < cs.len() && cs[i] == c;
        assert(i != cs.len() - 1);
        assert(cs.drop_last()[i] == c);
        lemma_walk_rev_contains(s, cs.drop_last(), fuel, c, x);
        let idx = choose|idx: int| 0 <= idx < second.len() && second[idx] == x;
        assert(w[first.len() + idx] == x);
    }
}

/// The walk below `n` visits everything strictly below `n` within `fuel`
/// steps.
pub proof fn lemma_expand_complete(s: Seq<(Entity, Entity)>, n: Entity, fuel: nat, x: Entity, k: nat)
    requires
        unique_children(s),
        1 <= k <= fuel,
        ancestor(parent_map(s), x, k) == n,
        forall|i: nat| i < k ==> parent_map(s).contains_key(#[trigger] ancestor(parent_map(s), x, i)),
    ensures
        expand_order(s, n, fuel).contains(x),
    decreases k,
{
    let m = parent_map(s);
    let cs = children_seq(s, n);
    let e = expand_order(s, n, fuel);
    assert(e == cs + walk_rev(s, cs, (fuel - 1) as nat));
    if k == 1 {
        assert(ancestor(m, x, 0) == x);
        assert(m.contains_key(x));
        lemma_child_listed(s, n, x);
        let idx = choose|idx: int| 0 <= idx < cs.len() && cs[idx] == x;
        assert(e[idx] == x);
    } else {
        let km1 = (k - 1) as nat;
        let c = ancestor(m, x, km1);
        assert(m.contains_key(c));
        assert(ancestor(m, x, k) == step(m, c));
        lemma_child_listed(s, n, c);
        lemma_expand_complete(s, c, (fuel - 1) as nat, x, km1);
        lemma_walk_rev_contains(s, cs, (fuel - 1) as nat, c, x);
        let rest = walk_rev(s, cs, (fuel - 1) as nat);
        let idx = choose|idx: int| 0 <= idx < rest.len() && rest[idx] == x;
        assert(e[cs.len() + idx] == x);
    }
}

/// Walking `k` edge steps up from `x` to `n` adds `k` to the depth.
pub proof fn lemma_depth_below(m: Map<Entity, Entity>, x: Entity, n: Entity, k: nat, d: nat)
    requires
        ancestor(m, x, k) == n,
        forall|i: nat| i < k ==> m.contains_key(#[trigger] ancestor(m, x, i)),
        is_depth(m, n, d),
    ensures
        is_depth(m, x, k + d),
{
    lemma_ancestor_add(m, x, k, d);
    assert forall|i: nat| i < k + d implies m.contains_key(#[trigger] ancestor(m, x, i)) by {
        if i >= k {
            let t = (i - k) as nat;
            lemma_ancestor_add(m, x, k, t);
            assert(ancestor(m, x, i) == ancestor(m, n, t));
        }
    }
}

/// The propagation walk from `n` (with the fuel the walk is given) visits
/// exactly the entities strictly below `n` in the sub-effect relation.
pub proof fn lemma_walk_visits_exactly_below(s: Seq<(Entity, Entity)>, n: Entity, x: Entity)
    requires
        unique_children(s),
        crate::relation::acyclic(parent_map(s)),
    ensures
        expand_order(s, n, (s.len() - depth_of(parent_map(s), n)) as nat).contains(x)
            <==> strictly_below(parent_map(s), x, n),
{
    let m = parent_map(s);
    let d0 = lemma_depth_exists(m, n);
    let dn = depth_of(m, n);
    lemma_depth_unique(m, n, d0, dn);
    lemma_depth_bound(s, n, dn);
    let fuel = (s.len() - dn) as nat;
    if expand_order(s, n, fuel).contains(x) {
        lemma_expand_sound(s, n, fuel, x);
    }
    if strictly_below(m, x, n) {
        let k = choose|k: nat|
            {
                &&& k >= 1
                &&& #[trigger] ancestor(m, x, k) == n
                &&& forall|i: nat| i < k ==> m.contains_key(#[trigger] ancestor(m, x, i))
            };
        lemma_depth_below(m, x, n, k, dn);
        lemma_depth_bound(s, x, k + dn);
        lemma_expand_complete(s, n, fuel, x, k);
    }
}

/// A parent's children are listed once each, and each is an edge's child.
pub proof fn lemma_children_distinct(s: Seq<(Entity, Entity)>, p: Entity, n: int)
    requires
        unique_children(s),
        0 <= n <= s.len(),
    ensures
        children_seq(s.take(n), p).no_duplicates(),
        forall|x: Entity|
            children_seq(s.take(n), p).contains(x) ==> exists|j: int| 0 <= j < n && #[trigger] s[j].0 == x,
    decreases n,
{
    if n == 0 {
        assert(children_seq(s.take(0), p) =~= Seq::<Entity>::empty());
    } else {
        lemma_children_distinct(s, p, n - 1);
        lemma_children_seq_step(s, p, n - 1);
        let prev = children_seq(s.take(n - 1), p);
        if s[n - 1].1 == p {
            assert forall|x: Entity| prev.contains(x) implies x != s[n - 1].0 by {
                let j = choose|j: int| 0 <= j < n - 1 && #[trigger] s[j].0 == x;
            }
            let cur = prev.push(s[n - 1].0);
            assert forall|a: int, b: int| 0 <= a < cur.len() && 0 <= b < cur.len() && a != b implies cur[a] != cur[b] by {
                if a < prev.len() && b < prev.len() {
                } else if a < prev.len() {
                    assert(prev.contains(prev[a]));
                } else {
                    assert(prev.contains(prev[b]));
                }
            }
            assert forall|x: Entity| cur.contains(x) implies exists|j: int| 0 <= j < n && #[trigger] s[j].0 == x by {
                let i = choose|i: int| 0 <= i < cur.len() && cur[i] == x;
                if i < prev.len() {
                    assert(prev.contains(x));
                } else {
                    assert(s[n - 1].0 == x);
                }
            }
        }
    }
}

/// Walking up `k` edge steps from `x` reaches `n` only at depth
/// `depth(n) + k`.
proof fn lemma_below_depth(s: Seq<(Entity, Entity)>, x: Entity, n: Entity) -> (k: nat)
    requires
        unique_children(s),
        crate::relation::acyclic(parent_map(s)),
        strictly_below(parent_map(s), x, n),
    ensures
        k >= 1,
        ancestor(parent_map(s), x, k) == n,
        depth_of(parent_map(s), x) == depth_of(parent_map(s), n) + k,
{
    let m = parent_map(s);
    let k = choose|k: nat|
        {
            &&& k >= 1
            &&& #[trigger] ancestor(m, x, k) == n
            &&& forall|i: nat| i < k ==> m.contains_key(#[trigger] ancestor(m, x, i))
        };
    let dn0 = lemma_depth_exists(m, n);
    lemma_depth_unique(m, n, dn0, depth_of(m, n));
    lemma_depth_below(m, x, n, k, depth_of(m, n));
    lemma_depth_unique(m, x, k + depth_of(m, n), depth_of(m, x));
    k
}

/// Nothing lies strictly below two different children of the same parent,
/// nor both below a child of `n` and directly below `n`.
proof fn lemma_subtrees_disjoint(s: Seq<(Entity, Entity)>, n: Entity, c1: Entity, c2: Entity, x: Entity)
    requires
        unique_children(s),
        crate::relation::acyclic(parent_map(s)),
        parent_map(s).contains_key(c1),
        parent_map(s)[c1] == n,
        parent_map(s).contains_key(c2),
        parent_map(s)[c2] == n,
        strictly_below(parent_map(s), x, c1),
    ensures
        strictly_below(parent_map(s), x, c2) ==> c1 == c2,
        !(parent_map(s).contains_key(x) && parent_map(s)[x] == n),
{
    let m = parent_map(s);
    let k1 = lemma_below_depth(s, x, c1);
    let dn0 = lemma_depth_exists(m, n);
    lemma_depth_unique(m, n, dn0, depth_of(m, n));
    lemma_depth_child(m, c1, depth_of(m, n));
    lemma_depth_unique(m, c1, depth_of(m, n) + 1, depth_of(m, c1));
    if strictly_below(m, x, c2) {
        let k2 = lemma_below_depth(s, x, c2);
        lemma_depth_child(m, c2, depth_of(m, n));
        lemma_depth_unique(m, c2, depth_of(m, n) + 1, depth_of(m, c2));
        assert(k1 == k2);
    }
    if m.contains_key(x) && m[x] == n {
        lemma_depth_child(m, x, depth_of(m, n));
        lemma_depth_unique(m, x, depth_of(m, n) + 1, depth_of(m, x));
    }
}

/// The walk below `n` visits no entity twice.
pub proof fn lemma_expand_no_duplicates(s: Seq<(Entity, Entity)>, n: Entity, fuel: nat)
    requires
        unique_children(s),
        crate::relation::acyclic(parent_map(s)),
    ensures
        expand_order(s, n, fuel).no_duplicates(),
    decreases fuel, 0nat,
{
    if fuel > 0 {
        let m = parent_map(s);
        let cs = children_seq(s, n);
        let rest = walk_rev(s, cs, (fuel - 1) as nat);
        lemma_children_distinct(s, n, s.len() as int);
        assert(s.take(s.len() as int) =~= s);
        assert forall|i: int| 0 <= i < cs.len() implies m.contains_key(#[trigger] cs[i]) && m[cs[i]] == n by {
            lemma_children_parent(s, n, i);
        }
        lemma_walk_rev_no_duplicates(s, cs, (fuel - 1) as nat, n);
        let e = cs + rest;
        assert forall|a: int, b: int| 0 <= a < e.len() && 0 <= b < e.len() && a != b implies e[a] != e[b] by {
            if a < cs.len() && b >= cs.len() {
                lemma_child_not_in_walk(s, cs, (fuel - 1) as nat, n, e[a]);
                assert(rest[b - cs.len()] == e[b]);
                assert(rest.contains(e[b]));
            } else if b < cs.len() && a >= cs.len() {
                lemma_child_not_in_walk(s, cs, (fuel - 1) as nat, n, e[b]);
                assert(rest[a - cs.len()] == e[a]);
                assert(rest.contains(e[a]));
            } else if a >= cs.len() {
                assert(rest[a - cs.len()] == e[a]);
                assert(rest[b - cs.len()] == e[b]);
            }
        }
        assert(expand_order(s, n, fuel) == e);
    }
}

/// A child of `n` is not visited by the walks below `n`'s children.
proof fn lemma_child_not_in_walk(s: Seq<(Entity, Entity)>, cs: Seq<Entity>, fuel: nat, n: Entity, x: Entity)
    requires
        unique_children(s),
        crate::relation::acyclic(parent_map(s)),
        forall|i: int| 0 <= i < cs.len() ==> parent_map(s).contains_key(#[trigger] cs[i]) && parent_map(s)[cs[i]] == n,
        parent_map(s).contains_key(x),
        parent_map(s)[x] == n,
    ensures
        !walk_rev(s, cs, fuel).contains(x),
{
    if walk_rev(s, cs, fuel).contains(x) {
        let j = lemma_walk_rev_sound(s, cs, fuel, x);
        lemma_subtrees_disjoint(s, n, cs[j], cs[j], x);
    }
}

/// The walks below distinct children of `n` visit no entity twice.
pub proof fn lemma_walk_rev_no_duplicates(s: Seq<(Entity, Entity)>, cs: Seq<Entity>, fuel: nat, n: Entity)
    requires
        unique_children(s),
        crate::relation::acyclic(parent_map(s)),
        cs.no_duplicates(),
        forall|i: int| 0 <= i < cs.len() ==> parent_map(s).contains_key(#[trigger] cs[i]) && parent_map(s)[cs[i]] == n,
    ensures
        walk_rev(s, cs, fuel).no_duplicates(),
    decreases fuel, cs.len() + 1,
{
    if cs.len() > 0 {
        let last = cs.last();
        let first = expand_order(s, last, fuel);
        let init = cs.drop_last();
        let second = walk_rev(s, init, fuel);
        lemma_expand_no_duplicates(s, last, fuel);
        assert forall|i: int| 0 <= i < init.len() implies parent_map(s).contains_key(#[trigger] init[i]) && parent_map(s)[init[i]] == n by {
            assert(init[i] == cs[i]);
        }
        assert forall|a: int, b: int| 0 <= a < init.len() && 0 <= b < init.len() && a != b implies init[a] != init[b] by {
            assert(init[a] == cs[a] && init[b] == cs[b]);
        }
        lemma_walk_rev_no_duplicates(s, init, fuel, n);
        let w = first + second;
        assert forall|a: int, b: int| 0 <= a < w.len() && 0 <= b < w.len() && a != b implies w[a] != w[b] by {
            if a < first.len() && b >= first.len() {
                lemma_not_in_both(s, cs, fuel, n, w[a]);
                assert(second[b - first.len()] == w[b]);
                assert(second.contains(w[b]));
                assert(first.contains(w[a]));
            } else if b < first.len() && a >= first.len() {
                lemma_not_in_both(s, cs, fuel, n, w[b]);
                assert(second[a - first.len()] == w[a]);
                assert(second.contains(w[a]));
                assert(first.contains(w[b]));
            } else if a >= first.len() {
                assert(second[a - first.len()] == w[a]);
                assert(second[b - first.len()] == w[b]);
            }
        }
        assert(walk_rev(s, cs, fuel) == w);
    }
}

/// The walk below the last of `cs` and the walks below the others share no
/// entity.
proof fn lemma_not_in_both(s: Seq<(Entity, Entity)>, cs: Seq<Entity>, fuel: nat, n: Entity, x: Entity)
    requires
        unique_children(s),
        crate::relation::acyclic(parent_map(s)),
        cs.len() > 0,
        cs.no_duplicates(),
        forall|i: int| 0 <= i < cs.len() ==> parent_map(s).contains_key(#[trigger] cs[i]) && parent_map(s)[cs[i]] == n,
    ensures
        !(expand_order(s, cs.last(), fuel).contains(x) && walk_rev(s, cs.drop_last(), fuel).contains(x)),
{
    if expand_order(s, cs.last(), fuel).contains(x) && walk_rev(s, cs.drop_last(), fuel).contains(x) {
        lemma_expand_sound(s, cs.last(), fuel, x);
        let j = lemma_walk_rev_sound(s, cs.drop_last(), fuel, x);
        assert(cs.drop_last()[j] == cs[j]);
        assert(parent_map(s).contains_key(cs[cs.len() - 1]));
        lemma_subtrees_disjoint(s, n, cs.last(), cs[j], x);
        assert(cs[j] != cs[cs.len() - 1]);
    }
}

/// The batches of one origin's propagation cover the origin and everything
/// strictly below it in the sub-effect relation, each exactly once.
pub proof fn lemma_propagation_covers_subtree(s: Seq<(Entity, Entity)>, origin: Entity, x: Entity)
    requires
        unique_children(s),
        crate::relation::acyclic(parent_map(s)),
    ensures
        ({
            let visited = seq![origin] + expand_order(
                s,
                origin,
                (s.len() - depth_of(parent_map(s), origin)) as nat,
            );
            &&& visited.contains(x) <==> (x == origin || strictly_below(parent_map(s), x, origin))
            &&& visited.no_duplicates()
        }),
{
    let fuel = (s.len() - depth_of(parent_map(s), origin)) as nat;
    let rest = expand_order(s, origin, fuel);
    let visited = seq![origin] + rest;
    lemma_walk_visits_exactly_below(s, origin, x);
    lemma_expand_no_duplicates(s, origin, fuel);
    if visited.contains(x) && x != origin {
        let i = choose|i: int| 0 <= i < visited.len() && visited[i] == x;
        assert(rest[i - 1] == x);
    }
    if strictly_below(parent_map(s), x, origin) {
        let i = choose|i: int| 0 <= i < rest.len() && rest[i] == x;
        assert(visited[i + 1] == x);
    }
    assert(visited[0] == origin);
    lemma_walk_visits_exactly_below(s, origin, origin);
    if strictly_below(parent_map(s), origin, origin) {
        let k = lemma_below_depth(s, origin, origin);
    }
    assert forall|a: int, b: int| 0 <= a < visited.len() && 0 <= b < visited.len() && a != b implies visited[a] != visited[b] by {
        if a == 0 {
            assert(rest[b - 1] == visited[b]);
            assert(rest.contains(visited[b]));
        } else if b == 0 {
            assert(rest[a - 1] == visited[a]);
            assert(rest.contains(visited[a]));
        } else {
            assert(rest[a - 1] == visited[a]);
            assert(rest[b - 1] == visited[b]);
        }
    }
}

/// What the walk needs besides the relations: the invoker, its target and
/// the root entity.
struct WalkContext<P> {
    invoker: Entity,
    invoker_target: Target<P>,
    root: Entity,
}

/// Targets with their scopes, as values.
pub type TargetsView<P, V> = Seq<(Target<P>, Seq<(&'static str, V)>)>;

/// What the backend's filter makes of step `k` of a mutation: the backend
/// afterwards and the kept targets.
pub open spec fn filtered_at<B: SpatialBackend>(
    filter: B::Filter,
    invoker: Entity,
    incoming: TargetsView<B::Pos, B::Scalar>,
    trace: Seq<(B, Vec<(Target<B::Pos>, Scope<B::Scalar>)>)>,
    k: int,
) -> (B, Vec<(Target<B::Pos>, Scope<B::Scalar>)>) {
    trace[k].0.spec_apply_filter(trace[k].1, filter, invoker, incoming[k].0.position)
}

/// The backend before step `k` of a mutation: the starting backend, or what
/// the filter of step `k - 1` left.
pub open spec fn backend_before<B: SpatialBackend>(
    b0: B,
    filter: B::Filter,
    invoker: Entity,
    incoming: TargetsView<B::Pos, B::Scalar>,
    trace: Seq<(B, Vec<(Target<B::Pos>, Scope<B::Scalar>)>)>,
    k: int,
) -> B {
    if k == 0 {
        b0
    } else {
        filtered_at(filter, invoker, incoming, trace, k - 1).0
    }
}

/// `trace` records, for each incoming target in turn, the backend and the
/// targets that the mutator's generator gave with that target passed,
/// starting from backend `b0`, each step on the backend that the previous
/// filter left.
pub open spec fn mutation_follows<B: SpatialBackend>(
    b0: B,
    mutator: TargetMutator<B>,
    incoming: TargetsView<B::Pos, B::Scalar>,
    invoker: Entity,
    invoker_target: Target<B::Pos>,
    root: Entity,
    trace: Seq<(B, Vec<(Target<B::Pos>, Scope<B::Scalar>)>)>,
) -> bool {
    &&& trace.len() <= incoming.len()
    &&& forall|k: int|
        0 <= k < trace.len() ==> ((#[trigger] trace[k]).0, targets_view(trace[k].1@)) == generated(
            backend_before(b0, mutator.generator.filter, invoker, incoming, trace, k),
            mutator.generator,
            invoker,
            invoker_target,
            root,
            B::spec_default_pos(),
            incoming[k].0,
        )
}

/// Each run of a mutation is passed its own incoming target: run `k` of a
/// mutator that targets the passed target (without a gatherer) resolves to
/// exactly one target, naming incoming target `k`'s entity, before the
/// filter.
pub proof fn lemma_mutation_passes_each<B: SpatialBackend>(
    b0: B,
    mutator: TargetMutator<B>,
    incoming: TargetsView<B::Pos, B::Scalar>,
    invoker: Entity,
    invoker_target: Target<B::Pos>,
    root: Entity,
    trace: Seq<(B, Vec<(Target<B::Pos>, Scope<B::Scalar>)>)>,
)
    requires
        mutation_follows(b0, mutator, incoming, invoker, invoker_target, root, trace),
        mutator.generator.target_type is Passed,
        mutator.generator.gatherer is None,
    ensures
        forall|k: int|
            0 <= k < trace.len() ==> (#[trigger] trace[k]).1@.len() == 1 && trace[k].1@[0].0.entity
                == incoming[k].0.entity,
{
    assert forall|k: int| 0 <= k < trace.len() implies (#[trigger] trace[k]).1@.len() == 1
        && trace[k].1@[0].0.entity == incoming[k].0.entity by {
        let g = generated(
            backend_before(b0, mutator.generator.filter, invoker, incoming, trace, k),
            mutator.generator,
            invoker,
            invoker_target,
            root,
            B::spec_default_pos(),
            incoming[k].0,
        );
        assert((trace[k].0, targets_view(trace[k].1@)) == g);
        assert(targets_view(trace[k].1@).len() == trace[k].1@.len());
        assert(targets_view(trace[k].1@)[0].0 == trace[k].1@[0].0);
    }
}

/// A mutated batch comes from runs each passed its own incoming target (see
/// [`lemma_mutation_passes_each`]): there is a record of the runs, one per
/// incoming target, in which run `k` of a mutator targeting the passed
/// target (without a gatherer) resolved to incoming target `k`'s entity.
pub proof fn lemma_mutated_passes_each<B: SpatialBackend>(
    before: B,
    mutator: TargetMutator<B>,
    incoming: TargetsView<B::Pos, B::Scalar>,
    invoker: Entity,
    invoker_target: Target<B::Pos>,
    root: Entity,
    out: TargetsView<B::Pos, B::Scalar>,
    after: B,
)
    requires
        mutated(before, mutator, incoming, invoker, invoker_target, root, out, after),
        mutator.generator.target_type is Passed,
        mutator.generator.gatherer is None,
    ensures
        exists|trace: Seq<(B, Vec<(Target<B::Pos>, Scope<B::Scalar>)>)>|
            {
                &&& #[trigger] mutation_follows(
                    before,
                    mutator,
                    incoming,
                    invoker,
                    invoker_target,
                    root,
                    trace,
                )
                &&& trace.len() == incoming.len()
                &&& out == mutation_pieces(mutator, incoming, invoker, trace).flatten_alt()
                &&& forall|k: int|
                    0 <= k < trace.len() ==> (#[trigger] trace[k]).1@.len() == 1
                        && trace[k].1@[0].0.entity == incoming[k].0.entity
            },
{
    let trace = choose|trace: Seq<(B, Vec<(Target<B::Pos>, Scope<B::Scalar>)>)>|
        {
            &&& #[trigger] mutation_follows(
                before,
                mutator,
                incoming,
                invoker,
                invoker_target,
                root,
                trace,
            )
            &&& trace.len() == incoming.len()
            &&& after == backend_before(
                before,
                mutator.generator.filter,
                invoker,
                incoming,
                trace,
                trace.len() as int,
            )
            &&& out == mutation_pieces(mutator, incoming, invoker, trace).flatten_alt()
        };
    lemma_mutation_passes_each(before, mutator, incoming, invoker, invoker_target, root, trace);
}

/// The targets each step of `trace` contributes: the filter's kept targets,
/// each scope merged with the incoming target's scope.
pub open spec fn mutation_pieces<B: SpatialBackend>(
    mutator: TargetMutator<B>,
    incoming: TargetsView<B::Pos, B::Scalar>,
    invoker: Entity,
    trace: Seq<(B, Vec<(Target<B::Pos>, Scope<B::Scalar>)>)>,
) -> Seq<TargetsView<B::Pos, B::Scalar>> {
    Seq::new(
        trace.len(),
        |k: int|
            targets_view(
                filtered_at(mutator.generator.filter, invoker, incoming, trace, k).1@,
            ).map_values(
                |x: (Target<B::Pos>, Seq<(&'static str, B::Scalar)>)|
                    (x.0, merged_scope(x.1, incoming[k].1)),
            ),
    )
}

/// Each step of a mutation contributes the targets its filter kept, in
/// order and unchanged, each scope extended (its own entries first and
/// winning) so that it holds every key of that step's incoming scope.
pub proof fn lemma_mutation_pieces_inherit<B: SpatialBackend>(
    mutator: TargetMutator<B>,
    incoming: TargetsView<B::Pos, B::Scalar>,
    invoker: Entity,
    trace: Seq<(B, Vec<(Target<B::Pos>, Scope<B::Scalar>)>)>,
    k: int,
    j: int,
)
    requires
        trace.len() <= incoming.len(),
        0 <= k < trace.len(),
    ensures
        ({
            let kept = filtered_at(mutator.generator.filter, invoker, incoming, trace, k).1@;
            let piece = mutation_pieces(mutator, incoming, invoker, trace)[k];
            &&& piece.len() == kept.len()
            &&& 0 <= j < kept.len() ==> {
                &&& piece[j].0 == kept[j].0
                &&& piece[j].1.take(kept[j].1@.len() as int) == kept[j].1@
                &&& forall|key: Seq<char>|
                    #[trigger] scope_keys(incoming[k].1).contains(key) ==> scope_keys(
                        piece[j].1,
                    ).contains(key)
            }
        }),
{
    let kept = filtered_at(mutator.generator.filter, invoker, incoming, trace, k).1@;
    if 0 <= j < kept.len() {
        lemma_merge_keeps_existing(kept[j].1@, incoming[k].1);
    }
}

/// A mutator run over `incoming`: for each incoming target in order,
/// generate with it passed, filter (with its position as the origin), and
/// merge its scope into every kept target's scope; the backend goes from
/// `before` to `after`, and `out` is what all runs kept, concatenated.
pub open spec fn mutated<B: SpatialBackend>(
    before: B,
    mutator: TargetMutator<B>,
    incoming: TargetsView<B::Pos, B::Scalar>,
    invoker: Entity,
    invoker_target: Target<B::Pos>,
    root: Entity,
    out: TargetsView<B::Pos, B::Scalar>,
    after: B,
) -> bool {
    exists|trace: Seq<(B, Vec<(Target<B::Pos>, Scope<B::Scalar>)>)>|
        {
            &&& #[trigger] mutation_follows(
                before,
                mutator,
                incoming,
                invoker,
                invoker_target,
                root,
                trace,
            )
            &&& trace.len() == incoming.len()
            &&& after == backend_before(
                before,
                mutator.generator.filter,
                invoker,
                incoming,
                trace,
                trace.len() as int,
            )
            &&& out == mutation_pieces(mutator, incoming, invoker, trace).flatten_alt()
        }
}

/// Resolve the targets of a mutated effect entity: for every incoming target
/// generate, filter, and inherit the incoming scope.
fn mutate_targets<B: SpatialBackend>(
    mutator: &TargetMutator<B>,
    incoming: &Vec<(Target<B::Pos>, Scope<B::Scalar>)>,
    ctx: &WalkContext<B::Pos>,
    backend: &mut B,
) -> (r: Vec<(Target<B::Pos>, Scope<B::Scalar>)>)
    ensures
        mutated(
            *old(backend),
            *mutator,
            targets_view(incoming@),
            ctx.invoker,
            ctx.invoker_target,
            ctx.root,
            targets_view(r@),
            *final(backend),
        ),
{
    let ghost b0 = *backend;
    let ghost filter = mutator.generator.filter;
    let ghost inc = targets_view(incoming@);
    let ghost mut trace: Seq<(B, Vec<(Target<B::Pos>, Scope<B::Scalar>)>)> = Seq::empty();
    let mut aggregated: Vec<(Target<B::Pos>, Scope<B::Scalar>)> = Vec::new();
    let mut i: usize = 0;
    proof {
        assert(targets_view(aggregated@) =~= mutation_pieces(*mutator, inc, ctx.invoker, trace).flatten_alt());
    }
    while i < incoming.len()
        invariant
            i <= incoming@.len(),
            inc == targets_view(incoming@),
            filter == mutator.generator.filter,
            trace.len() == i,
            mutation_follows(b0, *mutator, inc, ctx.invoker, ctx.invoker_target, ctx.root, trace),
            *backend == backend_before(b0, filter, ctx.invoker, inc, trace, i as int),
            targets_view(aggregated@) == mutation_pieces(*mutator, inc, ctx.invoker, trace).flatten_alt(),
        decreases incoming@.len() - i,
    {
        let passed = incoming[i].0;
        let targets = generate_targets(
            &mutator.generator,
            backend,
            ctx.invoker,
            ctx.invoker_target,
            ctx.root,
            B::default_pos(),
            passed,
        );
        let ghost generated_by = *backend;
        let ghost generated_targets = targets;
        let mut targets = backend.apply_filter(
            targets,
            &mutator.generator.filter,
            ctx.invoker,
            passed.position,
        );
        let ghost kept = targets;
        merge_scope_into_targets(&mut targets, &incoming[i].1);
        let ghost merged = targets;
        let ghost before = aggregated@;
        let ghost old_trace = trace;
        aggregated.append(&mut targets);
        proof {
            trace = trace.push((generated_by, generated_targets));
            assert forall|k: int| 0 <= k <= i implies backend_before(
                b0,
                filter,
                ctx.invoker,
                inc,
                trace,
                k,
            ) == backend_before(b0, filter, ctx.invoker, inc, old_trace, k) by {
                if k > 0 {
                    assert(trace[k - 1] == old_trace[k - 1]);
                }
            }
            assert forall|k: int| 0 <= k < trace.len() implies ((#[trigger] trace[k]).0, targets_view(
                trace[k].1@,
            )) == generated(
                backend_before(b0, filter, ctx.invoker, inc, trace, k),
                mutator.generator,
                ctx.invoker,
                ctx.invoker_target,
                ctx.root,
                B::spec_default_pos(),
                inc[k].0,
            ) by {
                if k < i {
                    assert(trace[k] == old_trace[k]);
                }
            }
            assert(filtered_at(filter, ctx.invoker, inc, trace, i as int) == (*backend, kept));
            let pieces = mutation_pieces(*mutator, inc, ctx.invoker, trace);
            let old_pieces = mutation_pieces(*mutator, inc, ctx.invoker, old_trace);
            assert forall|k: int| 0 <= k < i implies filtered_at(filter, ctx.invoker, inc, trace, k)
                == filtered_at(filter, ctx.invoker, inc, old_trace, k) by {
                assert(trace[k] == old_trace[k]);
            }
            assert(pieces.drop_last() =~= old_pieces);
            assert(pieces.last() =~= targets_view(merged@));
            assert(targets_view(aggregated@) =~= targets_view(before) + targets_view(merged@));
        }
        i = i + 1;
    }
    proof {
        assert(mutation_follows(b0, *mutator, inc, ctx.invoker, ctx.invoker_target, ctx.root, trace));
    }
    aggregated
}

/// Write the batches of every entity below the one whose batch is `out[k]`.
#[verifier::rlimit(100)]
#[verifier::spinoff_prover]
fn expand<B: SpatialBackend>(
    out: &mut Vec<GoOffBatch<B::Pos, B::Scalar>>,
    k: usize,
    ctx: &WalkContext<B::Pos>,
    backend: &mut B,
    sub_effects: &Relation,
    mutators: &Mutators<B>,
    Ghost(fuel): Ghost<nat>,
    Ghost(d): Ghost<nat>,
    Ghost(states): Ghost<Seq<B>>,
)
    requires
        sub_effects.wf(),
        k < old(out)@.len(),
        is_depth(sub_effects.parents(), old(out)@[k as int].entity, d),
        fuel + d == sub_effects@.len(),
        walk_follows(
            sub_effects.parents(),
            *mutators,
            ctx.invoker,
            ctx.invoker_target,
            ctx.root,
            old(out)@,
            states,
        ),
        states.last() == *old(backend),
    ensures
        final(out)@.len() >= old(out)@.len(),
        final(out)@.take(old(out)@.len() as int) == old(out)@,
        batch_entities(final(out)@.skip(old(out)@.len() as int)) == expand_order(
            sub_effects@,
            old(out)@[k as int].entity,
            fuel,
        ),
        exists|st: Seq<B>|
            {
                &&& st.take(old(out)@.len() as int) == states
                &&& #[trigger] walk_follows(
                    sub_effects.parents(),
                    *mutators,
                    ctx.invoker,
                    ctx.invoker_target,
                    ctx.root,
                    final(out)@,
                    st,
                )
                &&& st.last() == *final(backend)
            },
    decreases fuel,
{
    let ghost s = sub_effects@;
    let ghost m = sub_effects.parents();
    let ghost out0 = out@;
    let node = out[k].entity;
    let children = sub_effects.children_of(node);
    let first = out.len();
    let ghost mut st = states;
    proof {
        assert(st.take(first as int) =~= states);
        if children@.len() > 0 {
            lemma_children_parent(s, node, 0);
            lemma_depth_child(m, children@[0], d);
            lemma_depth_bound(s, children@[0], d + 1);
        }
    }
    let mut i: usize = 0;
    while i < children.len()
        invariant
            sub_effects.wf(),
            s == sub_effects@,
            m == sub_effects.parents(),
            children@ == children_seq(s, node),
            first == out0.len(),
            k < first,
            out0[k as int].entity == node,
            i <= children@.len(),
            out@.len() == first + i,
            out@.take(first as int) == out0,
            forall|j: int| 0 <= j < i ==> (#[trigger] out@[first + j]).entity == children@[j],
            walk_follows(m, *mutators, ctx.invoker, ctx.invoker_target, ctx.root, out@, st),
            st.last() == *backend,
            st.take(first as int) == states,
        decreases children@.len() - i,
    {
        let child = children[i];
        let ghost backend_before_child = *backend;
        let targets = match mutators.get(child) {
            Some(mutator) => mutate_targets(mutator, &out[k].targets, ctx, backend),
            None => clone_targets(&out[k].targets),
        };
        let ghost before = out@;
        let ghost st_before = st;
        out.push(GoOffBatch { entity: child, targets });
        proof {
            st = st.push(*backend);
            lemma_children_parent(s, node, i as int);
            assert(out@[k as int] == before[k as int]);
            assert(before.take(first as int)[k as int] == out0[k as int]);
            assert(st_before.last() == st[before.len() - 1]);
            assert forall|j: int| 1 <= j < out@.len() implies {
                &&& m.contains_key(#[trigger] out@[j].entity)
                &&& exists|k2: int|
                    0 <= k2 < j && out@[k2].entity == m[out@[j].entity] && batch_from(
                        *mutators,
                        out@[j].entity,
                        targets_view(out@[k2].targets@),
                        ctx.invoker,
                        ctx.invoker_target,
                        ctx.root,
                        st[j - 1],
                        targets_view(out@[j].targets@),
                        st[j],
                    )
            } by {
                if j < before.len() {
                    assert(out@[j] == before[j]);
                    assert(st[j] == st_before[j] && st[j - 1] == st_before[j - 1]);
                    let k2 = choose|k2: int|
                        0 <= k2 < j && before[k2].entity == m[before[j].entity] && batch_from(
                            *mutators,
                            before[j].entity,
                            targets_view(before[k2].targets@),
                            ctx.invoker,
                            ctx.invoker_target,
                            ctx.root,
                            st_before[j - 1],
                            targets_view(before[j].targets@),
                            st_before[j],
                        );
                    assert(out@[k2] == before[k2]);
                } else {
                    assert(out@[k as int].entity == node);
                    assert(j == before.len());
                    assert(st[j - 1] == backend_before_child);
                    assert(st[j] == *backend);
                    assert(out@[j].entity == child);
                    assert(out@[k as int].targets == before[k as int].targets);
                    assert(batch_from(
                        *mutators,
                        child,
                        targets_view(before[k as int].targets@),
                        ctx.invoker,
                        ctx.invoker_target,
                        ctx.root,
                        backend_before_child,
                        targets_view(out@[j].targets@),
                        *backend,
                    ));
                    assert(0 <= k < j && out@[k as int].entity == m[out@[j].entity] && batch_from(
                        *mutators,
                        out@[j].entity,
                        targets_view(out@[k as int].targets@),
                        ctx.invoker,
                        ctx.invoker_target,
                        ctx.root,
                        st[j - 1],
                        targets_view(out@[j].targets@),
                        st[j],
                    ));
                }
            }
            assert(st.take(first as int) =~= states) by {
                assert forall|j: int| 0 <= j < first implies st[j] == states[j] by {
                    assert(st[j] == st_before[j]);
                    assert(st_before.take(first as int)[j] == st_before[j]);
                }
            }
            assert(out@.take(first as int) =~= out0) by {
                assert forall|j: int| 0 <= j < first implies out@[j] == out0[j] by {
                    assert(out@[j] == before[j]);
                    assert(before.take(first as int)[j] == before[j]);
                }
            }
            assert forall|j: int| 0 <= j < i + 1 implies (#[trigger] out@[first + j]).entity
                == children@[j] by {
                if j < i {
                    assert(out@[first + j] == before[first + j]);
                }
            }
        }
        i = i + 1;
    }
    let ghost after_children = out@;
    let ghost f: nat = if fuel > 0 {
        (fuel - 1) as nat
    } else {
        0
    };
    let mut i: usize = children.len();
    let total = out.len();
    proof {
        assert(children@.take(i as int) =~= children@);
        assert(out@.skip(after_children.len() as int) =~= Seq::<GoOffBatch<B::Pos, B::Scalar>>::empty());
        assert(batch_entities(out@.skip(after_children.len() as int)) =~= Seq::<Entity>::empty());
    }
    while i > 0
        invariant
            sub_effects.wf(),
            is_depth(m, node, d),
            fuel + d == s.len(),
            total == after_children.len(),
            s == sub_effects@,
            m == sub_effects.parents(),
            children@ == children_seq(s, node),
            first == out0.len(),
            i <= children@.len(),
            after_children.len() == first + children@.len(),
            children@.len() > 0 ==> fuel > 0 && f + d + 1 == s.len(),
            out@.len() >= after_children.len(),
            out@.take(after_children.len() as int) == after_children,
            forall|j: int| 0 <= j < children@.len() ==> (#[trigger] after_children[first + j]).entity
                == children@[j],
            after_children.take(first as int) == out0,
            batch_entities(out@.skip(after_children.len() as int)) + walk_rev(
                s,
                children@.take(i as int),
                f,
            ) == walk_rev(s, children@, f),
            walk_follows(m, *mutators, ctx.invoker, ctx.invoker_target, ctx.root, out@, st),
            st.last() == *backend,
            st.take(first as int) == states,
        decreases i,
    {
        i = i - 1;
        let ghost before = out@;
        proof {
            lemma_children_parent(s, node, i as int);
            lemma_depth_child(m, children@[i as int], d);
            assert(before[first + i] == after_children[first + i]);
            assert(f < fuel);
        }
        expand(
            out,
            first + i,
            ctx,
            backend,
            sub_effects,
            mutators,
            Ghost(f),
            Ghost(d + 1),
            Ghost(st),
        );
        proof {
            let st_before = st;
            st = choose|st2: Seq<B>|
                {
                    &&& st2.take(before.len() as int) == st_before
                    &&& #[trigger] walk_follows(
                        m,
                        *mutators,
                        ctx.invoker,
                        ctx.invoker_target,
                        ctx.root,
                        out@,
                        st2,
                    )
                    &&& st2.last() == *backend
                };
            assert(st.take(first as int) =~= states) by {
                assert forall|j: int| 0 <= j < first implies st[j] == states[j] by {
                    assert(st.take(before.len() as int)[j] == st_before[j]);
                    assert(st_before.take(first as int)[j] == st_before[j]);
                }
            }
            assert(out@.take(before.len() as int) == before);
            assert(out@.take(after_children.len() as int) =~= after_children) by {
                assert forall|j: int| 0 <= j < after_children.len() implies out@[j]
                    == after_children[j] by {
                    assert(out@.take(before.len() as int)[j] == before[j]);
                    assert(before.take(after_children.len() as int)[j] == before[j]);
                }
            }
            let ct = children@.take(i + 1);
            assert(ct.last() == children@[i as int]);
            assert(ct.drop_last() =~= children@.take(i as int));
            assert(batch_entities(out@.skip(after_children.len() as int)) =~= batch_entities(
                before.skip(after_children.len() as int),
            ) + batch_entities(out@.skip(before.len() as int))) by {
                assert(out@.skip(after_children.len() as int) =~= before.skip(
                    after_children.len() as int,
                ) + out@.skip(before.len() as int)) by {
                    assert forall|j: int|
                        after_children.len() <= j < before.len() implies #[trigger] out@[j]
                        == before[j] by {
                        assert(out@.take(before.len() as int)[j] == before[j]);
                    }
                }
            }
        }
    }
    proof {
        assert(children@.take(0) =~= Seq::<Entity>::empty());
        assert(out@.take(first as int) =~= out0) by {
            assert forall|j: int| 0 <= j < first implies out@[j] == out0[j] by {
                assert(out@.take(after_children.len() as int)[j] == after_children[j]);
                assert(after_children.take(first as int)[j] == after_children[j]);
            }
        }
        assert(batch_entities(after_children.skip(first as int)) =~= children@) by {
            assert forall|j: int| 0 <= j < children@.len() implies batch_entities(
                after_children.skip(first as int),
            )[j] == children@[j] by {
                assert(after_children[first + j].entity == children@[j]);
            }
        }
        assert(out@.skip(first as int) =~= after_children.skip(first as int) + out@.skip(
            after_children.len() as int,
        )) by {
            assert forall|j: int| first <= j < after_children.len() implies #[trigger] out@[j]
                == after_children[j] by {
                assert(out@.take(after_children.len() as int)[j] == after_children[j]);
            }
        }
        assert(walk_follows(m, *mutators, ctx.invoker, ctx.invoker_target, ctx.root, out@, st));
        if fuel == 0 {
            if children@.len() > 0 {
                assert(false);
            }
            assert(batch_entities(out@.skip(first as int)) =~= Seq::<Entity>::empty());
        } else {
            assert(batch_entities(out@.skip(first as int)) =~= children@ + walk_rev(s, children@, f));
        }
    }
}

/// The go-off batches for one origin.
///
/// The origin entity receives its targets first: the origin's target and
/// scope, or, when it carries a mutator, what the mutator generates from
/// them (filtered, inheriting the origin's scope). Then the walk writes, for
/// every entity below it in the `SubEffects` tree, a batch: the parent's
/// targets, or, for an entity with a mutator, what the mutator generates
/// from each of them.
pub fn propagate_origin<B: SpatialBackend>(
    origin: &GoOffOrigin<B::Pos, B::Scalar>,
    backend: &mut B,
    sub_effects: &Relation,
    mutators: &Mutators<B>,
    invoked_by: &Relation,
    child_of: &Relation,
    invoker_targets: &ComponentMap<InvokerTarget<B::Pos>>,
) -> (r: Vec<GoOffBatch<B::Pos, B::Scalar>>)
    requires
        sub_effects.wf(),
        invoked_by.wf(),
        child_of.wf(),
        invoker_targets.wf(),
    ensures
        r@.len() >= 1,
        r@[0].entity == origin.entity,
        batch_entities(r@) == seq![origin.entity] + expand_order(
            sub_effects@,
            origin.entity,
            (sub_effects@.len() - depth_of(sub_effects.parents(), origin.entity)) as nat,
        ),
        !mutators.keys().contains(origin.entity) ==> targets_view(r@[0].targets@) == seq![
            (origin.target, origin.gather@),
        ],
        batches_inherit(sub_effects.parents(), mutators.keys(), r@),
        ({
            let invoker = root_of(invoked_by.parents(), origin.entity);
            let aim = aim_of(invoker_targets@, invoker, B::spec_default_pos());
            let root = root_of(child_of.parents(), origin.entity);
            exists|states: Seq<B>|
                {
                    &&& #[trigger] walk_follows(
                        sub_effects.parents(),
                        *mutators,
                        invoker,
                        aim,
                        root,
                        r@,
                        states,
                    )
                    &&& batch_from(
                        *mutators,
                        origin.entity,
                        seq![(origin.target, origin.gather@)],
                        invoker,
                        aim,
                        root,
                        *old(backend),
                        targets_view(r@[0].targets@),
                        states[0],
                    )
                    &&& states.last() == *final(backend)
                }
        }),
{
    let root_entity = origin.entity;
    let invoker = invoked_by.root_ancestor(root_entity);
    let root = child_of.root_ancestor(root_entity);
    let invoker_target = invoker_aim(invoker_targets, invoker, B::default_pos());
    let ctx = WalkContext { invoker, invoker_target, root };
    let mut incoming: Vec<(Target<B::Pos>, Scope<B::Scalar>)> = Vec::new();
    incoming.push((origin.target, clone_scope(&origin.gather)));
    proof {
        assert(targets_view(incoming@) =~= seq![(origin.target, origin.gather@)]);
    }
    let root_targets = match mutators.get(root_entity) {
        Some(mutator) => mutate_targets(mutator, &incoming, &ctx, backend),
        None => incoming,
    };
    let mut out: Vec<GoOffBatch<B::Pos, B::Scalar>> = Vec::new();
    out.push(GoOffBatch { entity: root_entity, targets: root_targets });
    let ghost states = seq![*backend];
    let ghost m = sub_effects.parents();
    let ghost d = lemma_depth_exists(m, root_entity);
    proof {
        let dd = depth_of(m, root_entity);
        lemma_depth_unique(m, root_entity, d, dd);
        lemma_depth_bound(sub_effects@, root_entity, d);
        assert(walk_follows(m, *mutators, invoker, invoker_target, root, out@, states));
    }
    let ghost out0 = out@;
    expand(
        &mut out,
        0,
        &ctx,
        backend,
        sub_effects,
        mutators,
        Ghost((sub_effects@.len() - d) as nat),
        Ghost(d),
        Ghost(states),
    );
    proof {
        assert(out@.take(1) == out0);
        assert(out@[0] == out0[0]);
        assert(batch_entities(out@) =~= seq![root_entity] + batch_entities(out@.skip(1))) by {
            assert(out@ =~= out@.take(1) + out@.skip(1));
        }
        let st = choose|st: Seq<B>|
            {
                &&& st.take(1) == states
                &&& #[trigger] walk_follows(m, *mutators, invoker, invoker_target, root, out@, st)
                &&& st.last() == *backend
            };
        assert(st[0] == st.take(1)[0]);
        lemma_walk_inherits(m, *mutators, invoker, invoker_target, root, out@, st);
    }
    out
}

} // verus!
