//! Who invoked an effect, and which state-machine root it belongs to.

use vstd::prelude::*;

use crate::relation::{
    ancestor, is_depth, lemma_ancestor_stable, lemma_depth_exists, root_of, Entity, EntitySet,
    Relation,
};

verus! {

/// The nearest entity on the walk from `e` to its root that is in `marks`
/// (`e` itself included): `Some(a)` exactly when `a` is met before any other
/// marked entity.
pub open spec fn nearest_marked(
    m: Map<Entity, Entity>,
    marks: Set<Entity>,
    e: Entity,
    r: Option<Entity>,
) -> bool {
    match r {
        Some(a) => exists|i: nat|
            {
                &&& #[trigger] ancestor(m, e, i) == a
                &&& marks.contains(a)
                &&& forall|j: nat| j < i ==> !marks.contains(#[trigger] ancestor(m, e, j))
            },
        None => forall|i: nat| !marks.contains(#[trigger] ancestor(m, e, i)),
    }
}

/// Walk the `InvokedBy` relation to the root invoker (e.g. the character).
pub fn resolve_invoker(invoked_by: &Relation, entity: Entity) -> (r: Entity)
    requires
        invoked_by.wf(),
    ensures
        r == root_of(invoked_by.parents(), entity),
        !invoked_by.parents().contains_key(r),
{
    invoked_by.root_ancestor(entity)
}

/// Walk the state hierarchy (`SubstateOf`) to the state-machine root.
pub fn resolve_root(substate_of: &Relation, entity: Entity) -> (r: Entity)
    requires
        substate_of.wf(),
    ensures
        r == root_of(substate_of.parents(), entity),
        !substate_of.parents().contains_key(r),
{
    substate_of.root_ancestor(entity)
}

/// Walk the `InvokedBy` chain and return the first entity (starting with
/// `entity` itself) that is an ability.
pub fn find_ability(entity: Entity, invoked_by: &Relation, abilities: &EntitySet) -> (r: Option<
    Entity,
>)
    requires
        invoked_by.wf(),
    ensures
        nearest_marked(invoked_by.parents(), abilities@, entity, r),
{
    let ghost m = invoked_by.parents();
    let ghost d = lemma_depth_exists(m, entity);
    let mut current = entity;
    let ghost mut i: nat = 0;
    loop
        invariant
            invoked_by.wf(),
            m == invoked_by.parents(),
            current == ancestor(m, entity, i),
            i <= d,
            is_depth(m, entity, d),
            forall|j: nat| j < i ==> !abilities@.contains(#[trigger] ancestor(m, entity, j)),
        decreases d - i,
    {
        if abilities.contains(current) {
            return Some(current);
        }
        match invoked_by.parent_of(current) {
            Some(p) => {
                proof {
                    if i == d {
                        assert(false);
                    }
                    i = i + 1;
                }
                current = p;
            },
            None => {
                proof {
                    assert forall|j: nat| !abilities@.contains(#[trigger] ancestor(m, entity, j)) by {
                        if j >= i {
                            lemma_ancestor_stable(m, entity, i, j);
                        }
                    }
                }
                return None;
            },
        }
    }
}

/// The gauge sources an entity gets when its `InvokedBy` is inserted or
/// changes: `"invoker"`, the root of its `InvokedBy` chain (the player), and
/// `"ability"`, the nearest ability on that chain, when there is one, so
/// expressions like `"Cooldown@ability"` resolve.
pub fn invoker_sources(entity: Entity, invoked_by: &Relation, abilities: &EntitySet) -> (r: Vec<
    (&'static str, Entity),
>)
    requires
        invoked_by.wf(),
    ensures
        1 <= r@.len() <= 2,
        r@[0] == ("invoker", root_of(invoked_by.parents(), entity)),
        r@.len() == 2 ==> r@[1].0 == "ability" && nearest_marked(
            invoked_by.parents(),
            abilities@,
            entity,
            Some(r@[1].1),
        ),
        r@.len() == 1 ==> nearest_marked(invoked_by.parents(), abilities@, entity, None),
{
    let mut r: Vec<(&'static str, Entity)> = Vec::new();
    let invoker = invoked_by.root_ancestor(entity);
    r.push(("invoker", invoker));
    if let Some(ability) = find_ability(entity, invoked_by, abilities) {
        r.push(("ability", ability));
    }
    r
}

/// At most one entity is the nearest marked one.
pub proof fn lemma_nearest_marked_unique(
    m: Map<Entity, Entity>,
    marks: Set<Entity>,
    e: Entity,
    r1: Option<Entity>,
    r2: Option<Entity>,
)
    requires
        nearest_marked(m, marks, e, r1),
        nearest_marked(m, marks, e, r2),
    ensures
        r1 == r2,
{
    match (r1, r2) {
        (Some(a), Some(b)) => {
            let i = choose|i: nat|
                {
                    &&& #[trigger] ancestor(m, e, i) == a
                    &&& marks.contains(a)
                    &&& forall|j: nat| j < i ==> !marks.contains(#[trigger] ancestor(m, e, j))
                };
            let k = choose|k: nat|
                {
                    &&& #[trigger] ancestor(m, e, k) == b
                    &&& marks.contains(b)
                    &&& forall|j: nat| j < k ==> !marks.contains(#[trigger] ancestor(m, e, j))
                };
            if i < k {
                assert(!marks.contains(ancestor(m, e, i)));
            } else if k < i {
                assert(!marks.contains(ancestor(m, e, k)));
            }
        },
        (Some(a), None) => {
            let i = choose|i: nat|
                {
                    &&& #[trigger] ancestor(m, e, i) == a
                    &&& marks.contains(a)
                    &&& forall|j: nat| j < i ==> !marks.contains(#[trigger] ancestor(m, e, j))
                };
            assert(!marks.contains(ancestor(m, e, i)));
        },
        (None, Some(b)) => {
            let k = choose|k: nat|
                {
                    &&& #[trigger] ancestor(m, e, k) == b
                    &&& marks.contains(b)
                    &&& forall|j: nat| j < k ==> !marks.contains(#[trigger] ancestor(m, e, j))
                };
            assert(!marks.contains(ancestor(m, e, k)));
        },
        (None, None) => {},
    }
}

} // verus!
