//! One-to-many entity relationships (`ChildOf`, `InvokedBy`, `SubstateOf`,
//! `SubEffectOf`, ...), kept as an ordered list of `(child, parent)` edges.
//!
//! Each child has at most one parent, and the relation never holds a cycle,
//! so walking towards the root always ends.

use vstd::prelude::*;

verus! {

/// An entity handle.
pub type Entity = u64;

/// Placeholder entity used by relationship defaults.
pub const PLACEHOLDER: Entity = 0xFFFF_FFFF_FFFF_FFFFu64;

// ---------------------------------------------------------------------------
// Mathematical model
// ---------------------------------------------------------------------------

/// No child occurs in two edges.
pub open spec fn unique_children(s: Seq<(Entity, Entity)>) -> bool {
    forall|i: int, j: int|
        0 <= i < s.len() && 0 <= j < s.len() && i != j ==> #[trigger] s[i].0 != #[trigger] s[j].0
}

/// Whether `c` is the child of some edge.
pub open spec fn has_edge(s: Seq<(Entity, Entity)>, c: Entity) -> bool {
    exists|i: int| 0 <= i < s.len() && #[trigger] s[i].0 == c
}

/// The child -> parent map of an edge list.
pub open spec fn parent_map(s: Seq<(Entity, Entity)>) -> Map<Entity, Entity> {
    Map::new(
        |c: Entity| has_edge(s, c),
        |c: Entity| s[choose|i: int| 0 <= i < s.len() && #[trigger] s[i].0 == c].1,
    )
}

/// One step towards the root (a root stays where it is).
pub open spec fn step(m: Map<Entity, Entity>, e: Entity) -> Entity {
    if m.contains_key(e) {
        m[e]
    } else {
        e
    }
}

/// The entity reached after `k` steps towards the root.
pub open spec fn ancestor(m: Map<Entity, Entity>, e: Entity, k: nat) -> Entity
    decreases k,
{
    if k == 0 {
        e
    } else {
        step(m, ancestor(m, e, (k - 1) as nat))
    }
}

/// Walking up from `e` ends at an entity without parent.
pub open spec fn reaches_root(m: Map<Entity, Entity>, e: Entity) -> bool {
    exists|k: nat| !m.contains_key(#[trigger] ancestor(m, e, k))
}

/// Walking up from any entity ends at an entity without parent.
pub open spec fn acyclic(m: Map<Entity, Entity>) -> bool {
    forall|e: Entity| #[trigger] reaches_root(m, e)
}

/// The root reached from `e`.
pub open spec fn root_of(m: Map<Entity, Entity>, e: Entity) -> Entity {
    ancestor(m, e, choose|k: nat| !m.contains_key(#[trigger] ancestor(m, e, k)))
}

/// `a` lies on the path from `e` up to (and including) its root.
pub open spec fn is_ancestor_or_self(m: Map<Entity, Entity>, a: Entity, e: Entity) -> bool {
    exists|k: nat| #[trigger] ancestor(m, e, k) == a
}

/// Edges whose child is not `c`.
pub open spec fn other_than(c: Entity) -> spec_fn((Entity, Entity)) -> bool {
    |x: (Entity, Entity)| x.0 != c
}

/// Edges whose parent is `p`.
pub open spec fn parent_is(p: Entity) -> spec_fn((Entity, Entity)) -> bool {
    |x: (Entity, Entity)| x.1 == p
}

/// The child of an edge.
pub open spec fn child_part() -> spec_fn((Entity, Entity)) -> Entity {
    |x: (Entity, Entity)| x.0
}

/// The children of `p`, in the order their edges were made.
pub open spec fn children_seq(s: Seq<(Entity, Entity)>, p: Entity) -> Seq<Entity> {
    s.filter(parent_is(p)).map_values(child_part())
}

// ---------------------------------------------------------------------------
// Lemmas on walks
// ---------------------------------------------------------------------------

/// Once a root is reached, the walk stays there.
pub proof fn lemma_ancestor_stable(m: Map<Entity, Entity>, e: Entity, k: nat, j: nat)
    requires
        !m.contains_key(ancestor(m, e, k)),
        k <= j,
    ensures
        ancestor(m, e, j) == ancestor(m, e, k),
    decreases j,
{
    if j > k {
        lemma_ancestor_stable(m, e, k, (j - 1) as nat);
    }
}

/// Walking `a + b` steps is walking `a` steps then `b` steps.
pub proof fn lemma_ancestor_add(m: Map<Entity, Entity>, e: Entity, a: nat, b: nat)
    ensures
        ancestor(m, e, a + b) == ancestor(m, ancestor(m, e, a), b),
    decreases b,
{
    if b > 0 {
        lemma_ancestor_add(m, e, a, (b - 1) as nat);
        assert(ancestor(m, e, a + b) == step(m, ancestor(m, e, (a + b - 1) as nat)));
    }
}

/// Any index at which the walk is at a root gives the root.
pub proof fn lemma_root_at(m: Map<Entity, Entity>, e: Entity, k: nat)
    requires
        !m.contains_key(ancestor(m, e, k)),
    ensures
        reaches_root(m, e),
        root_of(m, e) == ancestor(m, e, k),
        !m.contains_key(root_of(m, e)),
{
    let c = choose|k: nat| !m.contains_key(#[trigger] ancestor(m, e, k));
    if c <= k {
        lemma_ancestor_stable(m, e, c, k);
    } else {
        lemma_ancestor_stable(m, e, k, c);
    }
}

/// The first index at which the walk reaches a root.
pub proof fn lemma_first_root(m: Map<Entity, Entity>, e: Entity, j: nat, k: nat) -> (d: nat)
    requires
        j <= k,
        !m.contains_key(ancestor(m, e, k)),
        forall|i: nat| i < j ==> m.contains_key(#[trigger] ancestor(m, e, i)),
    ensures
        d <= k,
        !m.contains_key(ancestor(m, e, d)),
        forall|i: nat| i < d ==> m.contains_key(#[trigger] ancestor(m, e, i)),
    decreases k - j,
{
    if !m.contains_key(ancestor(m, e, j)) {
        j
    } else {
        lemma_first_root(m, e, j + 1, k)
    }
}

/// The first index at which the walk meets `c`.
pub proof fn lemma_first_hit(m: Map<Entity, Entity>, e: Entity, c: Entity, j: nat, k: nat) -> (h: nat)
    requires
        j <= k,
        ancestor(m, e, k) == c,
        forall|i: nat| i < j ==> #[trigger] ancestor(m, e, i) != c,
    ensures
        h <= k,
        ancestor(m, e, h) == c,
        forall|i: nat| i < h ==> #[trigger] ancestor(m, e, i) != c,
    decreases k - j,
{
    if ancestor(m, e, j) == c {
        j
    } else {
        lemma_first_hit(m, e, c, j + 1, k)
    }
}

/// Two maps that agree off `c` give the same walk until the walk meets `c`.
pub proof fn lemma_walk_prefix(
    m: Map<Entity, Entity>,
    m2: Map<Entity, Entity>,
    e: Entity,
    c: Entity,
    j: nat,
)
    requires
        forall|x: Entity| x != c ==> (m.contains_key(x) <==> m2.contains_key(x)),
        forall|x: Entity| x != c && m.contains_key(x) ==> m[x] == m2[x],
        forall|i: nat| i < j ==> #[trigger] ancestor(m, e, i) != c,
    ensures
        forall|i: nat| i <= j ==> #[trigger] ancestor(m2, e, i) == ancestor(m, e, i),
    decreases j,
{
    if j > 0 {
        lemma_walk_prefix(m, m2, e, c, (j - 1) as nat);
        assert forall|i: nat| i <= j implies #[trigger] ancestor(m2, e, i) == ancestor(m, e, i) by {
            if i == j {
                assert(ancestor(m2, e, (j - 1) as nat) == ancestor(m, e, (j - 1) as nat));
            }
        }
    }
}

/// The root is never a child.
pub proof fn lemma_root_is_root(m: Map<Entity, Entity>, e: Entity)
    requires
        acyclic(m),
    ensures
        !m.contains_key(root_of(m, e)),
        is_ancestor_or_self(m, root_of(m, e), e),
{
    assert(reaches_root(m, e));
    let k = choose|k: nat| !m.contains_key(#[trigger] ancestor(m, e, k));
    lemma_root_at(m, e, k);
}

/// A child and its parent share their root.
pub proof fn lemma_root_of_child(m: Map<Entity, Entity>, c: Entity)
    requires
        acyclic(m),
        m.contains_key(c),
    ensures
        root_of(m, c) == root_of(m, m[c]),
{
    let p = m[c];
    assert(reaches_root(m, p));
    let k = choose|k: nat| !m.contains_key(#[trigger] ancestor(m, p, k));
    lemma_root_at(m, p, k);
    lemma_ancestor_add(m, c, 1, k);
    assert(ancestor(m, c, 1) == p) by {
        assert(ancestor(m, c, 0) == c);
    }
    lemma_root_at(m, c, 1 + k);
}

/// The root of an entity is its own root.
pub proof fn lemma_root_idempotent(m: Map<Entity, Entity>, e: Entity)
    requires
        acyclic(m),
    ensures
        root_of(m, root_of(m, e)) == root_of(m, e),
{
    lemma_root_is_root(m, e);
    let r = root_of(m, e);
    lemma_root_at(m, r, 0);
}

/// Relating `c` to `p` keeps a relation acyclic when `c` is not on `p`'s
/// path to its root.
pub proof fn lemma_insert_acyclic(m: Map<Entity, Entity>, c: Entity, p: Entity, dp: nat)
    requires
        acyclic(m),
        !m.contains_key(ancestor(m, p, dp)),
        forall|i: nat| i <= dp ==> #[trigger] ancestor(m, p, i) != c,
    ensures
        acyclic(m.insert(c, p)),
{
    let m2 = m.insert(c, p);
    lemma_walk_prefix(m, m2, p, c, dp);
    assert(!m2.contains_key(ancestor(m2, p, dp)));
    assert forall|x: Entity| #[trigger] reaches_root(m2, x) by {
        assert(reaches_root(m, x));
        let k = choose|k: nat| !m.contains_key(#[trigger] ancestor(m, x, k));
        let d = lemma_first_root(m, x, 0, k);
        if exists|i: nat| i <= d && #[trigger] ancestor(m, x, i) == c {
            let i0 = choose|i: nat| i <= d && #[trigger] ancestor(m, x, i) == c;
            let h = lemma_first_hit(m, x, c, 0, i0);
            lemma_walk_prefix(m, m2, x, c, h);
            assert(ancestor(m2, x, h + 1) == p) by {
                assert(ancestor(m2, x, h) == c);
            }
            lemma_ancestor_add(m2, x, h + 1, dp);
            assert(!m2.contains_key(ancestor(m2, x, h + 1 + dp)));
        } else {
            assert forall|i: nat| i < d implies #[trigger] ancestor(m, x, i) != c by {
                assert(i <= d);
            }
            lemma_walk_prefix(m, m2, x, c, d);
            assert(ancestor(m, x, d) != c);
            assert(!m2.contains_key(ancestor(m2, x, d)));
        }
    }
}

/// Removing an edge keeps a relation acyclic.
pub proof fn lemma_remove_acyclic(m: Map<Entity, Entity>, c: Entity)
    requires
        acyclic(m),
    ensures
        acyclic(m.remove(c)),
{
    let m2 = m.remove(c);
    assert forall|x: Entity| #[trigger] reaches_root(m2, x) by {
        assert(reaches_root(m, x));
        let k = choose|k: nat| !m.contains_key(#[trigger] ancestor(m, x, k));
        let d = lemma_first_root(m, x, 0, k);
        if exists|i: nat| i <= d && #[trigger] ancestor(m, x, i) == c {
            let i0 = choose|i: nat| i <= d && #[trigger] ancestor(m, x, i) == c;
            let h = lemma_first_hit(m, x, c, 0, i0);
            lemma_walk_prefix(m, m2, x, c, h);
            assert(!m2.contains_key(ancestor(m2, x, h)));
        } else {
            assert forall|i: nat| i < d implies #[trigger] ancestor(m, x, i) != c by {
                assert(i <= d);
            }
            lemma_walk_prefix(m, m2, x, c, d);
            assert(!m2.contains_key(ancestor(m2, x, d)));
        }
    }
}

/// The parent map of an edge list with unique children maps each edge's child
/// to that edge's parent.
pub proof fn lemma_parent_map_at(s: Seq<(Entity, Entity)>, i: int)
    requires
        unique_children(s),
        0 <= i < s.len(),
    ensures
        parent_map(s).contains_key(s[i].0),
        parent_map(s)[s[i].0] == s[i].1,
{
    let c = s[i].0;
    assert(has_edge(s, c));
    let j = choose|j: int| 0 <= j < s.len() && #[trigger] s[j].0 == c;
    assert(i == j);
}

// ---------------------------------------------------------------------------
// Relation
// ---------------------------------------------------------------------------

/// A relationship between entities: each child points at one parent, and the
/// parents' child lists keep the order in which the edges were made.
pub struct Relation {
    edges: Vec<(Entity, Entity)>,
}

impl View for Relation {
    type V = Seq<(Entity, Entity)>;

    closed spec fn view(&self) -> Seq<(Entity, Entity)> {
        self.edges@
    }
}

impl Relation {
    /// The relation's invariant: unique children and no cycle.
    pub open spec fn wf(&self) -> bool {
        &&& unique_children(self@)
        &&& acyclic(self.parents())
    }

    /// The child -> parent map.
    pub open spec fn parents(&self) -> Map<Entity, Entity> {
        parent_map(self@)
    }

    /// The children of `p`, in order.
    pub open spec fn children(&self, p: Entity) -> Seq<Entity> {
        children_seq(self@, p)
    }

    /// An empty relation.
    pub fn new() -> (r: Self)
        ensures
            r.wf(),
            r@ == Seq::<(Entity, Entity)>::empty(),
            r.parents() == Map::<Entity, Entity>::empty(),
    {
        let r = Relation { edges: Vec::new() };
        assert(r.parents() =~= Map::<Entity, Entity>::empty());
        assert forall|e: Entity| #[trigger] reaches_root(r.parents(), e) by {
            assert(!r.parents().contains_key(ancestor(r.parents(), e, 0)));
        }
        r
    }

    /// The number of edges.
    pub fn len(&self) -> (n: usize)
        ensures
            n == self@.len(),
    {
        self.edges.len()
    }

    /// Index of the edge whose child is `c`.
    fn find_child(&self, c: Entity) -> (r: Option<usize>)
        requires
            self.wf(),
        ensures
            match r {
                Some(i) => i < self@.len() && self@[i as int].0 == c,
                None => !has_edge(self@, c),
            },
    {
        let mut i: usize = 0;
        while i < self.edges.len()
            invariant
                i <= self@.len(),
                forall|j: int| 0 <= j < i ==> #[trigger] self@[j].0 != c,
            decreases self@.len() - i,
        {
            if self.edges[i].0 == c {
                return Some(i);
            }
            i = i + 1;
        }
        None
    }

    /// The parent of `c`, if it has one.
    pub fn parent_of(&self, c: Entity) -> (r: Option<Entity>)
        requires
            self.wf(),
        ensures
            r == (if self.parents().contains_key(c) {
                Some(self.parents()[c])
            } else {
                None::<Entity>
            }),
    {
        match self.find_child(c) {
            Some(i) => {
                proof {
                    lemma_parent_map_at(self@, i as int);
                }
                Some(self.edges[i].1)
            },
            None => None,
        }
    }

    /// The children of `p`, in the order their edges were made.
    pub fn children_of(&self, p: Entity) -> (r: Vec<Entity>)
        ensures
            r@ == self.children(p),
    {
        let mut r: Vec<Entity> = Vec::new();
        let mut i: usize = 0;
        while i < self.edges.len()
            invariant
                i <= self@.len(),
                r@ == children_seq(self@.take(i as int), p),
            decreases self@.len() - i,
        {
            proof {
                lemma_children_seq_step(self@, p, i as int);
            }
            if self.edges[i].1 == p {
                r.push(self.edges[i].0);
            }
            i = i + 1;
        }
        proof {
            assert(self@.take(i as int) =~= self@);
        }
        r
    }

    /// Walk up the relation from `e` to its root (an entity without parent).
    pub fn root_ancestor(&self, e: Entity) -> (r: Entity)
        requires
            self.wf(),
        ensures
            r == root_of(self.parents(), e),
            !self.parents().contains_key(r),
    {
        let ghost m = self.parents();
        proof {
            assert(reaches_root(m, e));
        }
        let ghost k = choose|k: nat| !m.contains_key(#[trigger] ancestor(m, e, k));
        let ghost d = lemma_first_root(m, e, 0, k);
        let mut cur = e;
        let ghost mut i: nat = 0;
        loop
            invariant
                self.wf(),
                m == self.parents(),
                cur == ancestor(m, e, i),
                i <= d,
                !m.contains_key(ancestor(m, e, d)),
                forall|j: nat| j < d ==> m.contains_key(#[trigger] ancestor(m, e, j)),
            decreases d - i,
        {
            match self.parent_of(cur) {
                Some(p) => {
                    proof {
                        if i == d {
                            assert(false);
                        }
                        i = i + 1;
                    }
                    cur = p;
                },
                None => {
                    proof {
                        lemma_root_at(m, e, i);
                    }
                    return cur;
                },
            }
        }
    }

    /// Whether `a` lies on the path from `e` up to its root.
    pub fn is_ancestor_or_self(&self, a: Entity, e: Entity) -> (b: bool)
        requires
            self.wf(),
        ensures
            b == is_ancestor_or_self(self.parents(), a, e),
    {
        let ghost m = self.parents();
        proof {
            assert(reaches_root(m, e));
        }
        let ghost k = choose|k: nat| !m.contains_key(#[trigger] ancestor(m, e, k));
        let ghost d = lemma_first_root(m, e, 0, k);
        let mut cur = e;
        let ghost mut i: nat = 0;
        loop
            invariant
                self.wf(),
                m == self.parents(),
                cur == ancestor(m, e, i),
                i <= d,
                !m.contains_key(ancestor(m, e, d)),
                forall|j: nat| j < d ==> m.contains_key(#[trigger] ancestor(m, e, j)),
                forall|j: nat| j < i ==> #[trigger] ancestor(m, e, j) != a,
            decreases d - i,
        {
            if cur == a {
                return true;
            }
            match self.parent_of(cur) {
                Some(p) => {
                    proof {
                        if i == d {
                            assert(false);
                        }
                        i = i + 1;
                    }
                    cur = p;
                },
                None => {
                    proof {
                        assert forall|j: nat| #[trigger] ancestor(m, e, j) != a by {
                            if j >= i {
                                lemma_ancestor_stable(m, e, i, j);
                            }
                        }
                    }
                    return false;
                },
            }
        }
    }

    /// Make `parent` the parent of `child`, replacing any earlier parent.
    /// Refused (returns `false`, relation unchanged) when it would close a
    /// cycle, that is when `child` lies on `parent`'s path to its root.
    pub fn relate(&mut self, child: Entity, parent: Entity) -> (ok: bool)
        requires
            old(self).wf(),
        ensures
            final(self).wf(),
            ok == !is_ancestor_or_self(old(self).parents(), child, parent),
            ok ==> final(self).parents() == old(self).parents().insert(child, parent),
            ok ==> final(self)@ == old(self)@.filter(other_than(child)).push((child, parent)),
            !ok ==> final(self)@ == old(self)@,
    {
        if self.is_ancestor_or_self(child, parent) {
            return false;
        }
        let ghost m = self.parents();
        proof {
            assert(reaches_root(m, parent));
        }
        let ghost k = choose|k: nat| !m.contains_key(#[trigger] ancestor(m, parent, k));
        proof {
            assert forall|i: nat| i <= k implies #[trigger] ancestor(m, parent, i) != child by {}
            lemma_insert_acyclic(m, child, parent, k);
        }
        self.unlink(child);
        let ghost s = self@;
        self.edges.push((child, parent));
        proof {
            lemma_push_edge(s, child, parent);
            assert(m.remove(child).insert(child, parent) =~= m.insert(child, parent));
        }
        true
    }

    /// Remove `child`'s edge, if it has one.
    pub fn unlink(&mut self, child: Entity)
        requires
            old(self).wf(),
        ensures
            final(self).wf(),
            final(self).parents() == old(self).parents().remove(child),
            final(self)@ == old(self)@.filter(other_than(child)),
    {
        let ghost s = self@;
        let ghost m = self.parents();
        let ghost pred = other_than(child);
        proof {
            lemma_remove_acyclic(m, child);
        }
        match self.find_child(child) {
            None => {
                proof {
                    assert(m.remove(child) =~= m);
                    lemma_filter_all(s, pred);
                }
            },
            Some(i) => {
                self.edges.remove(i);
                proof {
                    lemma_remove_edge(s, i as int);
                }
            },
        }
    }
}

/// Relating `c` under `p` (when that closes no cycle, so the relation
/// accepts it) gives `c` the root of `p`.
pub proof fn lemma_relate_root(m: Map<Entity, Entity>, c: Entity, p: Entity)
    requires
        acyclic(m),
        !is_ancestor_or_self(m, c, p),
    ensures
        root_of(m.insert(c, p), c) == root_of(m, p),
        root_of(m.insert(c, p), p) == root_of(m, p),
{
    let m2 = m.insert(c, p);
    assert(reaches_root(m, p));
    let k = choose|k: nat| !m.contains_key(#[trigger] ancestor(m, p, k));
    assert forall|i: nat| i <= k implies #[trigger] ancestor(m, p, i) != c by {}
    assert forall|i: nat| i < k implies #[trigger] ancestor(m, p, i) != c by {}
    lemma_walk_prefix(m, m2, p, c, k);
    lemma_root_at(m, p, k);
    assert(ancestor(m2, p, k) == ancestor(m, p, k));
    assert(ancestor(m, p, k) != c);
    assert(!m2.contains_key(ancestor(m2, p, k)));
    lemma_root_at(m2, p, k);
    assert(ancestor(m2, c, 1) == p) by {
        assert(ancestor(m2, c, 0) == c);
    }
    lemma_ancestor_add(m2, c, 1, k);
    lemma_root_at(m2, c, 1 + k);
}

/// Unlinking `c` makes it a root.
pub proof fn lemma_unlink_root(m: Map<Entity, Entity>, c: Entity)
    ensures
        root_of(m.remove(c), c) == c,
{
    lemma_root_at(m.remove(c), c, 0);
}

/// Linking `c` to another entity `p` makes `c` the last of `p`'s children
/// and takes it out of every other entity's children.
pub proof fn lemma_link_children(s: Seq<(Entity, Entity)>, c: Entity, p: Entity, q: Entity)
    requires
        c != p,
    ensures
        children_seq(linked_edges(s, c, p), p) == children_seq(s.filter(other_than(c)), p).push(c),
        q != p ==> children_seq(linked_edges(s, c, p), q) == children_seq(s.filter(other_than(c)), q),
        !children_seq(s.filter(other_than(c)), q).contains(c),
{
    let f = s.filter(other_than(c));
    f.lemma_filter_push((c, p), parent_is(p));
    f.filter(parent_is(p)).lemma_push_map_commute(child_part(), (c, p));
    f.lemma_filter_push((c, p), parent_is(q));
    if children_seq(f, q).contains(c) {
        let i = choose|i: int| 0 <= i < children_seq(f, q).len() && children_seq(f, q)[i] == c;
        let g = f.filter(parent_is(q));
        assert(g[i].0 == c);
        assert(g.contains(g[i]));
        lemma_filter_subset(f, parent_is(q), g[i]);
        lemma_filter_subset_pred(s, other_than(c), g[i]);
    }
}

/// Appending an edge for a child without one.
pub proof fn lemma_push_edge(s: Seq<(Entity, Entity)>, c: Entity, p: Entity)
    requires
        unique_children(s),
        !has_edge(s, c),
    ensures
        unique_children(s.push((c, p))),
        parent_map(s.push((c, p))) == parent_map(s).insert(c, p),
{
    let s2 = s.push((c, p));
    assert forall|i: int, j: int|
        0 <= i < s2.len() && 0 <= j < s2.len() && i != j implies #[trigger] s2[i].0
        != #[trigger] s2[j].0 by {
        if i == s.len() as int {
            assert(s2[j] == s[j]);
        } else if j == s.len() as int {
            assert(s2[i] == s[i]);
        } else {
            assert(s2[i] == s[i] && s2[j] == s[j]);
        }
    }
    let m = parent_map(s);
    assert forall|x: Entity| #[trigger] parent_map(s2).contains_key(x) <==> m.insert(
        c,
        p,
    ).contains_key(x) by {
        if x == c {
            assert(s2[s.len() as int].0 == c);
        } else if has_edge(s2, x) {
            let i = choose|i: int| 0 <= i < s2.len() && #[trigger] s2[i].0 == x;
            assert(s2[i] == s[i]);
            assert(has_edge(s, x));
        } else if has_edge(s, x) {
            let i = choose|i: int| 0 <= i < s.len() && #[trigger] s[i].0 == x;
            assert(s2[i] == s[i]);
            assert(has_edge(s2, x));
        }
    }
    assert forall|x: Entity| #[trigger] parent_map(s2).contains_key(x) implies parent_map(s2)[x]
        == m.insert(c, p)[x] by {
        if x == c {
            lemma_parent_map_at(s2, s.len() as int);
        } else {
            let i = choose|i: int| 0 <= i < s2.len() && #[trigger] s2[i].0 == x;
            assert(s2[i] == s[i]);
            lemma_parent_map_at(s2, i);
            lemma_parent_map_at(s, i);
        }
    }
    assert(parent_map(s2) =~= m.insert(c, p));
}

/// Removing the edge at `i`.
pub proof fn lemma_remove_edge(s: Seq<(Entity, Entity)>, i: int)
    requires
        unique_children(s),
        0 <= i < s.len(),
    ensures
        unique_children(s.remove(i)),
        parent_map(s.remove(i)) == parent_map(s).remove(s[i].0),
        s.remove(i) == s.filter(other_than(s[i].0)),
{
    let child = s[i].0;
    let m = parent_map(s);
    let pred = other_than(child);
    let s2 = s.remove(i);
    lemma_remove_edge_filter(s, i);
    assert forall|a: int, b: int|
        0 <= a < s2.len() && 0 <= b < s2.len() && a != b implies #[trigger] s2[a].0
        != #[trigger] s2[b].0 by {
        let a2 = if a < i { a } else { a + 1 };
        let b2 = if b < i { b } else { b + 1 };
        assert(s2[a] == s[a2]);
        assert(s2[b] == s[b2]);
    }
    assert forall|x: Entity| #[trigger] parent_map(s2).contains_key(x) <==> m.remove(
        child,
    ).contains_key(x) by {
        if has_edge(s2, x) {
            let a = choose|a: int| 0 <= a < s2.len() && #[trigger] s2[a].0 == x;
            let a2 = if a < i { a } else { a + 1 };
            assert(s2[a] == s[a2]);
            assert(has_edge(s, x));
        }
        if has_edge(s, x) && x != child {
            let a = choose|a: int| 0 <= a < s.len() && #[trigger] s[a].0 == x;
            assert(a != i);
            let a2 = if a < i { a } else { a - 1 };
            assert(s2[a2] == s[a]);
            assert(has_edge(s2, x));
        }
    }
    assert forall|x: Entity| #[trigger] parent_map(s2).contains_key(x) implies parent_map(s2)[x]
        == m.remove(child)[x] by {
        let a = choose|a: int| 0 <= a < s2.len() && #[trigger] s2[a].0 == x;
        let a2 = if a < i { a } else { a + 1 };
        assert(s2[a] == s[a2]);
        lemma_parent_map_at(s2, a);
        lemma_parent_map_at(s, a2);
    }
    assert(parent_map(s2) =~= m.remove(child));
}

/// Removing the edge at `i` is filtering out its child.
pub proof fn lemma_remove_edge_filter(s: Seq<(Entity, Entity)>, i: int)
    requires
        unique_children(s),
        0 <= i < s.len(),
    ensures
        s.remove(i) == s.filter(other_than(s[i].0)),
{
    let pred = other_than(s[i].0);
    let s2 = s.remove(i);
    assert(s2 =~= s.take(i) + s.skip(i + 1));
    assert(s =~= s.take(i) + (seq![s[i]] + s.skip(i + 1)));
    assert forall|j: int| 0 <= j < s.take(i).len() implies pred(#[trigger] s.take(i)[j]) by {
        assert(s.take(i)[j] == s[j]);
    }
    lemma_filter_all(s.take(i), pred);
    assert forall|j: int| 0 <= j < s.skip(i + 1).len() implies pred(#[trigger] s.skip(i + 1)[j]) by {
        assert(s.skip(i + 1)[j] == s[j + i + 1]);
    }
    lemma_filter_all(s.skip(i + 1), pred);
    Seq::filter_distributes_over_add(s.take(i), seq![s[i]] + s.skip(i + 1), pred);
    Seq::filter_distributes_over_add(seq![s[i]], s.skip(i + 1), pred);
    lemma_filter_none(seq![s[i]], pred);
    assert(s.filter(pred) =~= s2);
}

/// Extending the scanned prefix by one edge.
pub proof fn lemma_children_seq_step(s: Seq<(Entity, Entity)>, p: Entity, i: int)
    requires
        0 <= i < s.len(),
    ensures
        children_seq(s.take(i + 1), p) == if s[i].1 == p {
            children_seq(s.take(i), p).push(s[i].0)
        } else {
            children_seq(s.take(i), p)
        },
{
    let pred = parent_is(p);
    let f = child_part();
    assert(s.take(i + 1) =~= s.take(i).push(s[i]));
    s.take(i).lemma_filter_push(s[i], pred);
    if s[i].1 == p {
        s.take(i).filter(pred).lemma_push_map_commute(f, s[i]);
    }
}

/// `d` is the number of steps from `e` to its root.
pub open spec fn is_depth(m: Map<Entity, Entity>, e: Entity, d: nat) -> bool {
    &&& !m.contains_key(ancestor(m, e, d))
    &&& forall|i: nat| i < d ==> m.contains_key(#[trigger] ancestor(m, e, i))
}

/// In an acyclic relation every entity has a depth.
pub proof fn lemma_depth_exists(m: Map<Entity, Entity>, e: Entity) -> (d: nat)
    requires
        acyclic(m),
    ensures
        is_depth(m, e, d),
{
    assert(reaches_root(m, e));
    let k = choose|k: nat| !m.contains_key(#[trigger] ancestor(m, e, k));
    lemma_first_root(m, e, 0, k)
}

/// A child is one step deeper than its parent.
pub proof fn lemma_depth_child(m: Map<Entity, Entity>, c: Entity, d: nat)
    requires
        m.contains_key(c),
        is_depth(m, m[c], d),
    ensures
        is_depth(m, c, d + 1),
{
    let p = m[c];
    assert(ancestor(m, c, 1) == p) by {
        assert(ancestor(m, c, 0) == c);
    }
    lemma_ancestor_add(m, c, 1, d);
    assert forall|i: nat| i < d + 1 implies m.contains_key(#[trigger] ancestor(m, c, i)) by {
        if i > 0 {
            lemma_ancestor_add(m, c, 1, (i - 1) as nat);
            assert(ancestor(m, p, (i - 1) as nat) == ancestor(m, c, i));
        }
    }
}

/// Depths are unique.
pub proof fn lemma_depth_unique(m: Map<Entity, Entity>, e: Entity, d1: nat, d2: nat)
    requires
        is_depth(m, e, d1),
        is_depth(m, e, d2),
    ensures
        d1 == d2,
{
    if d1 < d2 {
        assert(m.contains_key(ancestor(m, e, d1)));
    } else if d2 < d1 {
        assert(m.contains_key(ancestor(m, e, d2)));
    }
}

/// A walk that meets itself again keeps repeating.
proof fn lemma_fold(m: Map<Entity, Entity>, e: Entity, i: nat, j: nat, k: nat) -> (k2: nat)
    requires
        i < j,
        ancestor(m, e, i) == ancestor(m, e, j),
        i <= k,
    ensures
        i <= k2 < j,
        ancestor(m, e, k) == ancestor(m, e, k2),
    decreases k,
{
    if k < j {
        k
    } else {
        let t = (k - j) as nat;
        lemma_ancestor_add(m, e, j, t);
        lemma_ancestor_add(m, e, i, t);
        assert(ancestor(m, e, k) == ancestor(m, e, i + t));
        lemma_fold(m, e, i, j, i + t)
    }
}

/// The depth of an entity is at most the number of edges.
pub proof fn lemma_depth_bound(s: Seq<(Entity, Entity)>, e: Entity, d: nat)
    requires
        is_depth(parent_map(s), e, d),
    ensures
        d <= s.len(),
{
    broadcast use vstd::seq_lib::seq_to_set_is_finite;

    let m = parent_map(s);
    let w = Seq::new(d, |i: int| ancestor(m, e, i as nat));
    assert forall|a: int, b: int| 0 <= a < w.len() && 0 <= b < w.len() && a != b implies w[a]
        != w[b] by {
        if w[a] == w[b] {
            let (i, j) = if a < b {
                (a as nat, b as nat)
            } else {
                (b as nat, a as nat)
            };
            let k2 = lemma_fold(m, e, i, j, d);
            assert(m.contains_key(ancestor(m, e, k2)));
        }
    }
    assert(w.no_duplicates());
    w.unique_seq_to_set();
    let cs = s.map_values(child_part());
    assert forall|x: Entity| w.to_set().contains(x) implies cs.to_set().contains(x) by {
        let a = choose|a: int| 0 <= a < w.len() && w[a] == x;
        assert(m.contains_key(ancestor(m, e, a as nat)));
        assert(has_edge(s, x));
        let idx = choose|idx: int| 0 <= idx < s.len() && #[trigger] s[idx].0 == x;
        assert(cs[idx] == x);
        assert(cs.contains(x));
    }
    vstd::set_lib::lemma_len_subset(w.to_set(), cs.to_set());
    cs.lemma_cardinality_of_set();
}

/// Every entity named by an edge is below `n`.
pub open spec fn bounded(s: Seq<(Entity, Entity)>, n: Entity) -> bool {
    forall|i: int| 0 <= i < s.len() ==> #[trigger] s[i].0 < n && s[i].1 < n
}

/// Walking up from an entity below `n` stays below `n`.
pub proof fn lemma_bounded_walk(s: Seq<(Entity, Entity)>, n: Entity, p: Entity, k: nat)
    requires
        unique_children(s),
        bounded(s, n),
        p < n,
    ensures
        ancestor(parent_map(s), p, k) < n,
    decreases k,
{
    if k > 0 {
        lemma_bounded_walk(s, n, p, (k - 1) as nat);
        let x = ancestor(parent_map(s), p, (k - 1) as nat);
        if parent_map(s).contains_key(x) {
            let i = choose|i: int| 0 <= i < s.len() && #[trigger] s[i].0 == x;
            lemma_parent_map_at(s, i);
        }
    }
}

/// An entity at or above the bound is no ancestor of an entity below it.
pub proof fn lemma_fresh_not_ancestor(s: Seq<(Entity, Entity)>, n: Entity, p: Entity, c: Entity)
    requires
        unique_children(s),
        bounded(s, n),
        p < n,
        c >= n,
    ensures
        !is_ancestor_or_self(parent_map(s), c, p),
{
    assert forall|k: nat| #[trigger] ancestor(parent_map(s), p, k) != c by {
        lemma_bounded_walk(s, n, p, k);
    }
}

/// Filtering then appending an edge below the bound keeps the bound.
pub proof fn lemma_bounded_relate(s: Seq<(Entity, Entity)>, n: Entity, c: Entity, p: Entity, m: Entity)
    requires
        bounded(s, n),
        c < m,
        p < m,
        n <= m,
    ensures
        bounded(s.filter(other_than(c)).push((c, p)), m),
{
    let f = s.filter(other_than(c));
    assert forall|i: int| 0 <= i < f.len() implies #[trigger] f[i].0 < m && f[i].1 < m by {
        assert(f.contains(f[i]));
        assert(s.contains(f[i])) by {
            lemma_filter_subset(s, other_than(c), f[i]);
        }
    }
}

/// Filtering keeps only elements of the filtered sequence.
pub proof fn lemma_filter_subset<A>(s: Seq<A>, pred: spec_fn(A) -> bool, x: A)
    requires
        s.filter(pred).contains(x),
    ensures
        s.contains(x),
    decreases s.len(),
{
    reveal(Seq::filter);
    if s.len() > 0 {
        let sub = s.drop_last().filter(pred);
        if sub.contains(x) {
            lemma_filter_subset(s.drop_last(), pred, x);
            let j = choose|j: int| 0 <= j < s.drop_last().len() && s.drop_last()[j] == x;
            assert(s[j] == x);
        } else {
            assert(x == s.last());
            assert(s[s.len() - 1] == x);
        }
    }
}

/// Filtering keeps a sequence whose elements all pass.
pub proof fn lemma_filter_all<A>(s: Seq<A>, pred: spec_fn(A) -> bool)
    requires
        forall|i: int| 0 <= i < s.len() ==> pred(#[trigger] s[i]),
    ensures
        s.filter(pred) == s,
    decreases s.len(),
{
    reveal(Seq::filter);
    if s.len() > 0 {
        lemma_filter_all(s.drop_last(), pred);
        assert(s.drop_last().push(s.last()) =~= s);
    }
}

/// Filtering empties a sequence whose elements all fail.
pub proof fn lemma_filter_none<A>(s: Seq<A>, pred: spec_fn(A) -> bool)
    requires
        forall|i: int| 0 <= i < s.len() ==> !pred(#[trigger] s[i]),
    ensures
        s.filter(pred) == Seq::<A>::empty(),
    decreases s.len(),
{
    reveal(Seq::filter);
    if s.len() > 0 {
        lemma_filter_none(s.drop_last(), pred);
    }
    assert(s.filter(pred) =~= Seq::<A>::empty());
}

// ---------------------------------------------------------------------------
// Links
// ---------------------------------------------------------------------------

/// Tags a child with the index of the key it was reached from.
pub open spec fn tagged(i: int) -> spec_fn(Entity) -> (int, Entity) {
    |c: Entity| (i, c)
}

/// The children of each key in turn, each tagged with its key's index:
/// first all children of `keys[0]`, then of `keys[1]`, ...
pub open spec fn fan_out(keys: Seq<Entity>, s: Seq<(Entity, Entity)>) -> Seq<(int, Entity)>
    decreases keys.len(),
{
    if keys.len() == 0 {
        Seq::empty()
    } else {
        fan_out(keys.drop_last(), s) + children_seq(s, keys.last()).map_values(
            tagged(keys.len() - 1),
        )
    }
}

/// The edges after `child` is linked to `parent`: its old edge goes, and the
/// new one comes last unless it would link the child to itself.
pub open spec fn linked_edges(s: Seq<(Entity, Entity)>, child: Entity, parent: Entity) -> Seq<
    (Entity, Entity),
> {
    if child == parent {
        s.filter(other_than(child))
    } else {
        s.filter(other_than(child)).push((child, parent))
    }
}

/// A one-to-many relationship that may hold cycles (subscriptions, periodic
/// effect targets): each child points at one parent, and the parents' child
/// lists keep the order in which the links were made. Linking an entity to
/// itself is refused.
pub struct Links {
    edges: Vec<(Entity, Entity)>,
}

impl View for Links {
    type V = Seq<(Entity, Entity)>;

    closed spec fn view(&self) -> Seq<(Entity, Entity)> {
        self.edges@
    }
}

impl Links {
    /// The invariant: unique children.
    pub open spec fn wf(&self) -> bool {
        unique_children(self@)
    }

    /// The child -> parent map.
    pub open spec fn parents(&self) -> Map<Entity, Entity> {
        parent_map(self@)
    }

    /// No links.
    pub fn new() -> (l: Self)
        ensures
            l.wf(),
            l@ == Seq::<(Entity, Entity)>::empty(),
    {
        Links { edges: Vec::new() }
    }

    fn find_child(&self, c: Entity) -> (r: Option<usize>)
        requires
            self.wf(),
        ensures
            match r {
                Some(i) => i < self@.len() && self@[i as int].0 == c,
                None => !has_edge(self@, c),
            },
    {
        let mut i: usize = 0;
        while i < self.edges.len()
            invariant
                i <= self@.len(),
                forall|j: int| 0 <= j < i ==> #[trigger] self@[j].0 != c,
            decreases self@.len() - i,
        {
            if self.edges[i].0 == c {
                return Some(i);
            }
            i = i + 1;
        }
        None
    }

    /// The parent `c` is linked to, if any.
    pub fn parent_of(&self, c: Entity) -> (r: Option<Entity>)
        requires
            self.wf(),
        ensures
            r == (if self.parents().contains_key(c) {
                Some(self.parents()[c])
            } else {
                None::<Entity>
            }),
    {
        match self.find_child(c) {
            Some(i) => {
                proof {
                    lemma_parent_map_at(self@, i as int);
                }
                Some(self.edges[i].1)
            },
            None => None,
        }
    }

    /// The children linked to `p`, in the order their links were made.
    pub fn children_of(&self, p: Entity) -> (r: Vec<Entity>)
        ensures
            r@ == children_seq(self@, p),
    {
        let mut r: Vec<Entity> = Vec::new();
        let mut i: usize = 0;
        while i < self.edges.len()
            invariant
                i <= self@.len(),
                r@ == children_seq(self@.take(i as int), p),
            decreases self@.len() - i,
        {
            proof {
                lemma_children_seq_step(self@, p, i as int);
            }
            if self.edges[i].1 == p {
                r.push(self.edges[i].0);
            }
            i = i + 1;
        }
        proof {
            assert(self@.take(i as int) =~= self@);
        }
        r
    }

    /// Remove `child`'s link, if it has one.
    pub fn unlink(&mut self, child: Entity)
        requires
            old(self).wf(),
        ensures
            final(self).wf(),
            final(self)@ == old(self)@.filter(other_than(child)),
            final(self).parents() == old(self).parents().remove(child),
    {
        let ghost s = self@;
        match self.find_child(child) {
            None => {
                proof {
                    lemma_filter_all(s, other_than(child));
                    assert(parent_map(s).remove(child) =~= parent_map(s));
                }
            },
            Some(i) => {
                self.edges.remove(i);
                proof {
                    lemma_remove_edge(s, i as int);
                }
            },
        }
    }

    /// Link `child` to `parent`, replacing any earlier link of `child`; the
    /// new link comes last among `parent`'s children. Linking an entity to
    /// itself only drops its earlier link, and returns `false`.
    pub fn link(&mut self, child: Entity, parent: Entity) -> (ok: bool)
        requires
            old(self).wf(),
        ensures
            final(self).wf(),
            ok == (child != parent),
            final(self)@ == linked_edges(old(self)@, child, parent),
            ok ==> final(self).parents() == old(self).parents().insert(child, parent),
            !ok ==> final(self).parents() == old(self).parents().remove(child),
    {
        let ghost m = self.parents();
        self.unlink(child);
        if child == parent {
            return false;
        }
        let ghost s = self@;
        proof {
            if has_edge(s, child) {
                let i = choose|i: int| 0 <= i < s.len() && #[trigger] s[i].0 == child;
                assert(s.contains(s[i]));
                lemma_filter_subset_pred(old(self)@, other_than(child), s[i]);
            }
        }
        self.edges.push((child, parent));
        proof {
            lemma_push_edge(s, child, parent);
            assert(m.remove(child).insert(child, parent) =~= m.insert(child, parent));
        }
        true
    }
}

/// Elements kept by a filter pass its predicate.
pub proof fn lemma_filter_subset_pred<A>(s: Seq<A>, pred: spec_fn(A) -> bool, x: A)
    requires
        s.filter(pred).contains(x),
    ensures
        pred(x),
    decreases s.len(),
{
    reveal(Seq::filter);
    if s.len() > 0 {
        let sub = s.drop_last().filter(pred);
        if sub.contains(x) {
            lemma_filter_subset_pred(s.drop_last(), pred, x);
        }
    }
}

// ---------------------------------------------------------------------------
// EntitySet
// ---------------------------------------------------------------------------

/// The set of entities that carry some marker component.
pub struct EntitySet {
    items: Vec<Entity>,
}

impl View for EntitySet {
    type V = Set<Entity>;

    closed spec fn view(&self) -> Set<Entity> {
        self.items@.to_set()
    }
}

impl EntitySet {
    /// The empty set.
    pub fn new() -> (s: Self)
        ensures
            s@ == Set::<Entity>::empty(),
    {
        let s = EntitySet { items: Vec::new() };
        assert(s.items@.to_set() =~= Set::<Entity>::empty());
        s
    }

    /// Whether `e` is in the set.
    pub fn contains(&self, e: Entity) -> (b: bool)
        ensures
            b == self@.contains(e),
    {
        let mut i: usize = 0;
        while i < self.items.len()
            invariant
                i <= self.items@.len(),
                forall|j: int| 0 <= j < i ==> self.items@[j] != e,
            decreases self.items@.len() - i,
        {
            if self.items[i] == e {
                proof {
                    assert(self.items@.contains(e));
                }
                return true;
            }
            i = i + 1;
        }
        false
    }

    /// Add `e` to the set.
    pub fn insert(&mut self, e: Entity)
        ensures
            final(self)@ == old(self)@.insert(e),
    {
        if !self.contains(e) {
            self.items.push(e);
            proof {
                assert(self.items@.to_set() =~= old(self).items@.to_set().insert(e)) by {
                    assert forall|x: Entity| self.items@.contains(x) <==> old(self).items@.contains(x) || x == e by {
                        if old(self).items@.contains(x) {
                            let j = choose|j: int| 0 <= j < old(self).items@.len() && old(self).items@[j] == x;
                            assert(self.items@[j] == x);
                        }
                        if x == e {
                            assert(self.items@[self.items@.len() - 1] == e);
                        }
                        if self.items@.contains(x) && x != e {
                            let j = choose|j: int| 0 <= j < self.items@.len() && self.items@[j] == x;
                            assert(old(self).items@[j] == x);
                        }
                    }
                }
            }
        } else {
            proof {
                assert(old(self)@.insert(e) =~= old(self)@);
            }
        }
    }

    /// Remove `e` from the set.
    pub fn remove(&mut self, e: Entity)
        ensures
            final(self)@ == old(self)@.remove(e),
    {
        let mut kept: Vec<Entity> = Vec::new();
        let mut i: usize = 0;
        while i < self.items.len()
            invariant
                i <= self.items@.len(),
                forall|k: int| 0 <= k < kept@.len() ==> (#[trigger] kept@[k] != e
                    && self.items@.contains(kept@[k])),
                forall|j: int| 0 <= j < i && #[trigger] self.items@[j] != e ==> kept@.contains(
                    self.items@[j],
                ),
            decreases self.items@.len() - i,
        {
            let x = self.items[i];
            let ghost before = kept@;
            if x != e {
                kept.push(x);
                proof {
                    assert(kept@[kept@.len() - 1] == x);
                    assert forall|j: int| 0 <= j < i + 1 && #[trigger] self.items@[j] != e implies kept@.contains(
                        self.items@[j],
                    ) by {
                        if j < i {
                            assert(before.contains(self.items@[j]));
                            let k = choose|k: int| 0 <= k < before.len() && before[k] == self.items@[j];
                            assert(kept@[k] == self.items@[j]);
                        }
                    }
                }
            }
            i = i + 1;
        }
        self.items = kept;
        proof {
            assert forall|x: Entity| self@.contains(x) <==> old(self)@.remove(e).contains(x) by {
                if old(self).items@.contains(x) && x != e {
                    let j = choose|j: int| 0 <= j < old(self).items@.len() && old(self).items@[j] == x;
                    assert(old(self).items@[j] != e);
                }
                if self.items@.contains(x) {
                    let k = choose|k: int| 0 <= k < self.items@.len() && self.items@[k] == x;
                    assert(self.items@[k] != e);
                }
            }
            assert(self@ =~= old(self)@.remove(e));
        }
    }
}

} // verus!
