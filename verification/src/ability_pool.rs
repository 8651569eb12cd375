//! The pool of abilities an entity may use, fed by persistent attribute
//! effects that grant abilities while active.

use vstd::prelude::*;

use crate::component::ComponentMap;
use crate::relation::{
    children_seq, is_depth, lemma_depth_bound, lemma_depth_child, lemma_depth_exists,
    lemma_depth_unique, root_of, Entity, EntitySet, Relation,
};
use crate::pipeline::{
    depth_of, expand_order, lemma_children_parent, lemma_walk_visits_exactly_below, strictly_below,
    walk_rev,
};

verus! {

/// An ability available to an entity, and the entity that granted it.
#[derive(Clone, Copy, Debug, PartialEq, Eq, Structural)]
pub struct AvailableAbility {
    pub ability_entity: Entity,
    pub source_entity: Entity,
}

/// The abilities available to an entity, without repeated ability entities.
pub struct AvailableAbilities {
    pub abilities: Vec<AvailableAbility>,
}

/// Entries for other ability entities than `e`.
pub open spec fn not_ability(e: Entity) -> spec_fn(AvailableAbility) -> bool {
    |a: AvailableAbility| a.ability_entity != e
}

impl AvailableAbilities {
    /// An empty pool.
    pub fn new() -> (p: Self)
        ensures
            p.abilities@ == Seq::<AvailableAbility>::empty(),
    {
        AvailableAbilities { abilities: Vec::new() }
    }

    /// Whether the pool lists `ability_entity`.
    pub open spec fn lists(&self, ability_entity: Entity) -> bool {
        exists|i: int|
            0 <= i < self.abilities@.len() && #[trigger] self.abilities@[i].ability_entity
                == ability_entity
    }

    /// Add an ability unless its ability entity is already listed.
    pub fn add_ability(&mut self, ability: AvailableAbility)
        ensures
            old(self).lists(ability.ability_entity) ==> final(self).abilities@ == old(
                self,
            ).abilities@,
            !old(self).lists(ability.ability_entity) ==> final(self).abilities@ == old(
                self,
            ).abilities@.push(ability),
    {
        let mut i: usize = 0;
        while i < self.abilities.len()
            invariant
                i <= self.abilities@.len(),
                forall|j: int| 0 <= j < i ==> #[trigger] self.abilities@[j].ability_entity
                    != ability.ability_entity,
            decreases self.abilities@.len() - i,
        {
            if self.abilities[i].ability_entity == ability.ability_entity {
                return ;
            }
            i = i + 1;
        }
        self.abilities.push(ability);
    }

    /// Remove every entry for `ability_entity`.
    pub fn remove_ability(&mut self, ability_entity: Entity)
        ensures
            final(self).abilities@ == old(self).abilities@.filter(not_ability(ability_entity)),
    {
        let ghost s = self.abilities@;
        let mut kept: Vec<AvailableAbility> = Vec::new();
        let mut i: usize = 0;
        while i < self.abilities.len()
            invariant
                i <= s.len(),
                self.abilities@ == s,
                kept@ == s.take(i as int).filter(not_ability(ability_entity)),
            decreases s.len() - i,
        {
            let a = self.abilities[i];
            proof {
                assert(s.take(i + 1) =~= s.take(i as int).push(a));
                s.take(i as int).lemma_filter_push(a, not_ability(ability_entity));
            }
            if a.ability_entity != ability_entity {
                kept.push(a);
            }
            i = i + 1;
        }
        proof {
            assert(s.take(i as int) =~= s);
        }
        self.abilities = kept;
    }
}

/// Registering an ability the pool does not list and then unregistering it
/// gives the pool back; registering a listed ability changes nothing.
pub proof fn lemma_register_then_unregister(pool: AvailableAbilities, a: AvailableAbility)
    ensures
        !pool.lists(a.ability_entity) ==> pool.abilities@.push(a).filter(
            not_ability(a.ability_entity),
        ) == pool.abilities@,
{
    let s = pool.abilities@;
    let pred = not_ability(a.ability_entity);
    if !pool.lists(a.ability_entity) {
        s.lemma_filter_push(a, pred);
        assert forall|i: int| 0 <= i < s.len() implies pred(#[trigger] s[i]) by {
            if !pred(s[i]) {
                assert(s[i].ability_entity == a.ability_entity);
            }
        }
        crate::relation::lemma_filter_all(s, pred);
    }
}

// ---------------------------------------------------------------------------
// Sorting by display name
// ---------------------------------------------------------------------------

/// The character of a decimal digit.
pub open spec fn digit_char(d: nat) -> char {
    if d == 0 {
        '0'
    } else if d == 1 {
        '1'
    } else if d == 2 {
        '2'
    } else if d == 3 {
        '3'
    } else if d == 4 {
        '4'
    } else if d == 5 {
        '5'
    } else if d == 6 {
        '6'
    } else if d == 7 {
        '7'
    } else if d == 8 {
        '8'
    } else {
        '9'
    }
}

/// The decimal representation of `n`.
pub open spec fn decimal(n: nat) -> Seq<char>
    decreases n,
{
    if n < 10 {
        seq![digit_char(n)]
    } else {
        decimal(n / 10).push(digit_char(n % 10))
    }
}

/// How an entity displays: `"<index>v<generation>"`. An entity handle is
/// the entity's bit form, its index in the low 32 bits and its generation in
/// the high 32 bits.
pub open spec fn entity_display(e: Entity) -> Seq<char> {
    decimal((e % 0x1_0000_0000) as nat) + seq!['v'] + decimal((e / 0x1_0000_0000) as nat)
}

/// An ability's display name: `"<source> - <ability>"`, each entity as
/// [`entity_display`] shows it.
pub open spec fn display_key(a: AvailableAbility) -> Seq<char> {
    entity_display(a.source_entity) + seq![' ', '-', ' '] + entity_display(a.ability_entity)
}

/// Lexicographic order on character sequences.
pub open spec fn lex_le(a: Seq<char>, b: Seq<char>) -> bool
    decreases a.len(),
{
    if a.len() == 0 {
        true
    } else if b.len() == 0 {
        false
    } else if (a[0] as u32) < (b[0] as u32) {
        true
    } else if (a[0] as u32) > (b[0] as u32) {
        false
    } else {
        lex_le(a.drop_first(), b.drop_first())
    }
}

/// The lexicographic order is total.
pub proof fn lemma_lex_total(a: Seq<char>, b: Seq<char>)
    ensures
        lex_le(a, b) || lex_le(b, a),
    decreases a.len(),
{
    if a.len() > 0 && b.len() > 0 && (a[0] as u32) == (b[0] as u32) {
        lemma_lex_total(a.drop_first(), b.drop_first());
    }
}

/// The lexicographic order is transitive.
pub proof fn lemma_lex_trans(a: Seq<char>, b: Seq<char>, c: Seq<char>)
    requires
        lex_le(a, b),
        lex_le(b, c),
    ensures
        lex_le(a, c),
    decreases a.len(),
{
    if a.len() > 0 && b.len() > 0 && c.len() > 0 && (a[0] as u32) == (b[0] as u32) && (b[0] as u32)
        == (c[0] as u32) {
        lemma_lex_trans(a.drop_first(), b.drop_first(), c.drop_first());
    }
}

fn digit_of(d: u64) -> (c: char)
    requires
        d < 10,
    ensures
        c == digit_char(d as nat),
{
    if d == 0 {
        '0'
    } else if d == 1 {
        '1'
    } else if d == 2 {
        '2'
    } else if d == 3 {
        '3'
    } else if d == 4 {
        '4'
    } else if d == 5 {
        '5'
    } else if d == 6 {
        '6'
    } else if d == 7 {
        '7'
    } else if d == 8 {
        '8'
    } else {
        '9'
    }
}

/// The decimal representation of `n`.
pub fn decimal_chars(n: u64) -> (r: Vec<char>)
    ensures
        r@ == decimal(n as nat),
    decreases n,
{
    if n < 10 {
        let mut v: Vec<char> = Vec::new();
        v.push(digit_of(n));
        proof {
            assert(v@ =~= seq![digit_char(n as nat)]);
        }
        v
    } else {
        let mut v = decimal_chars(n / 10);
        v.push(digit_of(n % 10));
        v
    }
}

/// Append `tail` to `r`.
fn append_chars(r: &mut Vec<char>, tail: &Vec<char>)
    ensures
        final(r)@ == old(r)@ + tail@,
{
    let ghost head = r@;
    let mut i: usize = 0;
    while i < tail.len()
        invariant
            i <= tail@.len(),
            r@ == head + tail@.take(i as int),
        decreases tail@.len() - i,
    {
        r.push(tail[i]);
        proof {
            assert(tail@.take(i + 1) =~= tail@.take(i as int).push(tail@[i as int]));
        }
        i = i + 1;
    }
    proof {
        assert(tail@.take(i as int) =~= tail@);
    }
}

/// How an entity displays (see [`entity_display`]).
pub fn entity_chars(e: Entity) -> (r: Vec<char>)
    ensures
        r@ == entity_display(e),
{
    let mut r = decimal_chars(e % 0x1_0000_0000);
    r.push('v');
    let generation = decimal_chars(e / 0x1_0000_0000);
    append_chars(&mut r, &generation);
    proof {
        assert(r@ =~= entity_display(e));
    }
    r
}

/// An ability's display name.
pub fn display_name(a: &AvailableAbility) -> (r: Vec<char>)
    ensures
        r@ == display_key(*a),
{
    let mut r = entity_chars(a.source_entity);
    r.push(' ');
    r.push('-');
    r.push(' ');
    let tail = entity_chars(a.ability_entity);
    append_chars(&mut r, &tail);
    proof {
        assert(r@ =~= display_key(*a));
    }
    r
}

/// Lexicographic comparison of two character sequences.
pub fn chars_le(a: &Vec<char>, b: &Vec<char>) -> (r: bool)
    ensures
        r == lex_le(a@, b@),
{
    let mut i: usize = 0;
    proof {
        assert(a@.skip(0) =~= a@);
        assert(b@.skip(0) =~= b@);
    }
    while i < a.len()
        invariant
            i <= a@.len(),
            i <= b@.len(),
            forall|j: int| 0 <= j < i ==> (a@[j] as u32) == (b@[j] as u32),
            lex_le(a@, b@) == lex_le(a@.skip(i as int), b@.skip(i as int)),
        decreases a@.len() - i,
    {
        if i >= b.len() {
            return false;
        }
        let x = a[i] as u32;
        let y = b[i] as u32;
        if x < y {
            return true;
        }
        if x > y {
            return false;
        }
        proof {
            assert(a@.skip(i as int).drop_first() =~= a@.skip(i + 1));
            assert(b@.skip(i as int).drop_first() =~= b@.skip(i + 1));
        }
        i = i + 1;
    }
    true
}

/// Sorted by display name.
pub open spec fn sorted_by_name(s: Seq<AvailableAbility>) -> bool {
    forall|i: int, j: int|
        0 <= i < j < s.len() ==> lex_le(display_key(#[trigger] s[i]), display_key(#[trigger] s[j]))
}

impl AvailableAbilities {
    /// The abilities sorted by display name (`"<source> - <ability>"`).
    pub fn get_sorted_abilities(&self) -> (r: Vec<AvailableAbility>)
        ensures
            r@.to_multiset() == self.abilities@.to_multiset(),
            sorted_by_name(r@),
    {
        broadcast use vstd::seq_lib::group_to_multiset_ensures;

        let mut sorted: Vec<AvailableAbility> = Vec::new();
        let mut i: usize = 0;
        while i < self.abilities.len()
            invariant
                i <= self.abilities@.len(),
                sorted@.to_multiset() == self.abilities@.take(i as int).to_multiset(),
                sorted_by_name(sorted@),
            decreases self.abilities@.len() - i,
        {
            let x = self.abilities[i];
            let kx = display_name(&x);
            let mut p: usize = 0;
            while p < sorted.len()
                invariant
                    p <= sorted@.len(),
                    kx@ == display_key(x),
                    forall|j: int| 0 <= j < p ==> lex_le(display_key(#[trigger] sorted@[j]), kx@),
                ensures
                    p <= sorted@.len(),
                    kx@ == display_key(x),
                    forall|j: int| 0 <= j < p ==> lex_le(display_key(#[trigger] sorted@[j]), kx@),
                    p < sorted@.len() ==> !lex_le(display_key(sorted@[p as int]), kx@),
                decreases sorted@.len() - p,
            {
                let kp = display_name(&sorted[p]);
                if !chars_le(&kp, &kx) {
                    break;
                }
                p = p + 1;
            }
            let ghost before = sorted@;
            proof {
                if p < before.len() {
                    lemma_lex_total(display_key(before[p as int]), display_key(x));
                }
            }
            sorted.insert(p, x);
            proof {
                assert(self.abilities@.take(i + 1) =~= self.abilities@.take(i as int).push(x));
                vstd::seq_lib::to_multiset_insert(before, p as int, x);
                vstd::seq_lib::to_multiset_build(self.abilities@.take(i as int), x);
                assert forall|a: int, b: int| 0 <= a < b < sorted@.len() implies lex_le(
                    display_key(#[trigger] sorted@[a]),
                    display_key(#[trigger] sorted@[b]),
                ) by {
                    if b < p {
                        assert(sorted@[a] == before[a] && sorted@[b] == before[b]);
                    } else if b == p {
                        assert(sorted@[a] == before[a]);
                    } else if a == p {
                        assert(sorted@[b] == before[b - 1]);
                        if b - 1 > p {
                            lemma_lex_trans(display_key(x), display_key(before[p as int]), display_key(before[b - 1]));
                        }
                    } else if a < p {
                        assert(sorted@[a] == before[a] && sorted@[b] == before[b - 1]);
                        if b - 1 >= p {
                            lemma_lex_total(display_key(before[p as int]), display_key(x));
                        }
                    } else {
                        assert(sorted@[a] == before[a - 1] && sorted@[b] == before[b - 1]);
                    }
                }
            }
            i = i + 1;
        }
        proof {
            assert(self.abilities@.take(i as int) =~= self.abilities@);
        }
        sorted
    }
}

/// `RegisterAbility`: make `ability_entity` (granted by `source_entity`)
/// available to `target`.
#[derive(Clone, Copy, Debug, PartialEq, Eq, Structural)]
pub struct RegisterAbility {
    pub target: Entity,
    pub ability_entity: Entity,
    pub source_entity: Entity,
}

/// `UnregisterAbility`: withdraw `ability_entity` from `target`.
#[derive(Clone, Copy, Debug, PartialEq, Eq, Structural)]
pub struct UnregisterAbility {
    pub target: Entity,
    pub ability_entity: Entity,
}

/// Apply a `RegisterAbility` to the target's pool.
pub fn handle_register_ability(pool: &mut AvailableAbilities, event: &RegisterAbility)
    ensures
        ({
            let a = AvailableAbility {
                ability_entity: event.ability_entity,
                source_entity: event.source_entity,
            };
            &&& old(pool).lists(a.ability_entity) ==> final(pool).abilities@ == old(
                pool,
            ).abilities@
            &&& !old(pool).lists(a.ability_entity) ==> final(pool).abilities@ == old(
                pool,
            ).abilities@.push(a)
        }),
{
    pool.add_ability(
        AvailableAbility {
            ability_entity: event.ability_entity,
            source_entity: event.source_entity,
        },
    );
}

/// Apply an `UnregisterAbility` to the target's pool.
pub fn handle_unregister_ability(pool: &mut AvailableAbilities, event: &UnregisterAbility)
    ensures
        final(pool).abilities@ == old(pool).abilities@.filter(not_ability(event.ability_entity)),
{
    pool.remove_ability(event.ability_entity);
}

// ---------------------------------------------------------------------------
// Collecting abilities under a hierarchy
// ---------------------------------------------------------------------------

/// The abilities at or below `n` (entity hierarchy), in pre-order: `n`
/// first if it is one, then those below each child in order.
pub open spec fn abilities_below(s: Seq<(Entity, Entity)>, marks: Set<Entity>, n: Entity, fuel: nat) -> Seq<
    Entity,
>
    decreases fuel, 0nat,
{
    (if marks.contains(n) {
        seq![n]
    } else {
        Seq::empty()
    }) + (if fuel == 0 {
        Seq::empty()
    } else {
        abilities_below_all(s, marks, children_seq(s, n), (fuel - 1) as nat)
    })
}

/// The abilities at or below each of `cs`, in order.
pub open spec fn abilities_below_all(
    s: Seq<(Entity, Entity)>,
    marks: Set<Entity>,
    cs: Seq<Entity>,
    fuel: nat,
) -> Seq<Entity>
    decreases fuel, cs.len() + 1,
{
    if cs.len() == 0 {
        Seq::empty()
    } else {
        abilities_below_all(s, marks, cs.drop_last(), fuel) + abilities_below(
            s,
            marks,
            cs.last(),
            fuel,
        )
    }
}

/// The abilities at or below `n`, in pre-order.
pub open spec fn collected_abilities(child_of: &Relation, abilities: Set<Entity>, n: Entity) -> Seq<
    Entity,
> {
    abilities_below(
        child_of@,
        abilities,
        n,
        (child_of@.len() - depth_of(child_of.parents(), n)) as nat,
    )
}

/// An element of a concatenation comes from one of its parts.
proof fn lemma_concat_contains<A>(a: Seq<A>, b: Seq<A>, x: A)
    ensures
        (a + b).contains(x) <==> a.contains(x) || b.contains(x),
{
    if (a + b).contains(x) {
        let i = choose|i: int| 0 <= i < (a + b).len() && (a + b)[i] == x;
        if i < a.len() {
            assert(a[i] == x);
        } else {
            assert(b[i - a.len()] == x);
        }
    }
    if a.contains(x) {
        let i = choose|i: int| 0 <= i < a.len() && a[i] == x;
        assert((a + b)[i] == x);
    }
    if b.contains(x) {
        let i = choose|i: int| 0 <= i < b.len() && b[i] == x;
        assert((a + b)[a.len() + i] == x);
    }
}

/// The abilities found at or below `n` are the marked entities among `n`
/// and those the propagation-style walk below `n` reaches.
proof fn lemma_abilities_below_members(
    s: Seq<(Entity, Entity)>,
    marks: Set<Entity>,
    n: Entity,
    fuel: nat,
    x: Entity,
)
    ensures
        abilities_below(s, marks, n, fuel).contains(x) <==> marks.contains(x) && (x == n
            || expand_order(s, n, fuel).contains(x)),
    decreases fuel, 0nat,
{
    let head = if marks.contains(n) {
        seq![n]
    } else {
        Seq::<Entity>::empty()
    };
    if fuel == 0 {
        assert(abilities_below(s, marks, n, fuel) =~= head);
        assert(expand_order(s, n, fuel) =~= Seq::<Entity>::empty());
        if head.contains(x) {
            assert(head[0] == x);
        }
        if marks.contains(x) && x == n {
            assert(head[0] == x);
        }
    } else {
        let cs = children_seq(s, n);
        let f = (fuel - 1) as nat;
        let rest = abilities_below_all(s, marks, cs, f);
        lemma_concat_contains(head, rest, x);
        lemma_abilities_below_all_members(s, marks, cs, f, x);
        lemma_concat_contains(cs, walk_rev(s, cs, f), x);
        if head.contains(x) {
            assert(head[0] == x);
        }
        if marks.contains(x) && x == n {
            assert(head[0] == x);
        }
    }
}

/// The abilities found at or below each of `cs` are the marked entities
/// among `cs` and those the walks below `cs` reach.
proof fn lemma_abilities_below_all_members(
    s: Seq<(Entity, Entity)>,
    marks: Set<Entity>,
    cs: Seq<Entity>,
    fuel: nat,
    x: Entity,
)
    ensures
        abilities_below_all(s, marks, cs, fuel).contains(x) <==> marks.contains(x) && (cs.contains(
            x,
        ) || walk_rev(s, cs, fuel).contains(x)),
    decreases fuel, cs.len() + 1,
{
    if cs.len() == 0 {
        assert(abilities_below_all(s, marks, cs, fuel) =~= Seq::<Entity>::empty());
        assert(walk_rev(s, cs, fuel) =~= Seq::<Entity>::empty());
    } else {
        let init = cs.drop_last();
        let last = cs.last();
        lemma_abilities_below_all_members(s, marks, init, fuel, x);
        lemma_abilities_below_members(s, marks, last, fuel, x);
        lemma_concat_contains(
            abilities_below_all(s, marks, init, fuel),
            abilities_below(s, marks, last, fuel),
            x,
        );
        lemma_concat_contains(expand_order(s, last, fuel), walk_rev(s, init, fuel), x);
        assert(cs =~= init.push(last));
        lemma_concat_contains(init, seq![last], x);
        assert(init.push(last) =~= init + seq![last]);
        if seq![last].contains(x) {
            assert(seq![last][0] == x);
        }
        if x == last {
            assert(seq![last][0] == x);
        }
    }
}

/// An entity is collected below `n` exactly when it is an ability and it
/// is `n` or lies below `n` in the entity hierarchy (walking up from it
/// along `ChildOf` edges reaches `n`).
pub proof fn lemma_collected_exactly(
    child_of: &Relation,
    abilities: Set<Entity>,
    n: Entity,
    x: Entity,
)
    requires
        child_of.wf(),
    ensures
        collected_abilities(child_of, abilities, n).contains(x) <==> abilities.contains(x) && (x
            == n || strictly_below(child_of.parents(), x, n)),
{
    let s = child_of@;
    let fuel = (s.len() - depth_of(child_of.parents(), n)) as nat;
    lemma_abilities_below_members(s, abilities, n, fuel, x);
    lemma_walk_visits_exactly_below(s, n, x);
}

fn collect_rec(
    entity: Entity,
    child_of: &Relation,
    abilities: &EntitySet,
    out: &mut Vec<Entity>,
    Ghost(fuel): Ghost<nat>,
    Ghost(d): Ghost<nat>,
)
    requires
        child_of.wf(),
        is_depth(child_of.parents(), entity, d),
        fuel + d == child_of@.len(),
    ensures
        final(out)@ == old(out)@ + abilities_below(child_of@, abilities@, entity, fuel),
    decreases fuel,
{
    let ghost s = child_of@;
    let ghost m = child_of.parents();
    let ghost start = out@;
    if abilities.contains(entity) {
        out.push(entity);
    }
    let ghost mid = out@;
    let children = child_of.children_of(entity);
    proof {
        if children@.len() > 0 {
            lemma_children_parent(s, entity, 0);
            lemma_depth_child(m, children@[0], d);
            lemma_depth_bound(s, children@[0], d + 1);
        }
    }
    let ghost f: nat = if fuel > 0 {
        (fuel - 1) as nat
    } else {
        0
    };
    let mut i: usize = 0;
    while i < children.len()
        invariant
            child_of.wf(),
            s == child_of@,
            m == child_of.parents(),
            is_depth(m, entity, d),
            fuel + d == s.len(),
            children@ == children_seq(s, entity),
            children@.len() > 0 ==> fuel > 0 && f + 1 == fuel,
            i <= children@.len(),
            out@ == mid + abilities_below_all(s, abilities@, children@.take(i as int), f),
        decreases children@.len() - i,
    {
        proof {
            lemma_children_parent(s, entity, i as int);
            lemma_depth_child(m, children@[i as int], d);
            assert(children@.take(i + 1).drop_last() =~= children@.take(i as int));
        }
        collect_rec(children[i], child_of, abilities, out, Ghost(f), Ghost(d + 1));
        i = i + 1;
    }
    proof {
        assert(children@.take(i as int) =~= children@);
        if fuel == 0 {
            if children@.len() > 0 {
                assert(false);
            }
            assert(abilities_below_all(s, abilities@, children@, f) =~= Seq::<Entity>::empty());
        }
        assert(out@ =~= start + abilities_below(s, abilities@, entity, fuel));
    }
}

/// Append every ability at or below `entity` (entity hierarchy) to `out`,
/// in pre-order.
pub fn collect_all_abilities(
    entity: Entity,
    child_of: &Relation,
    abilities: &EntitySet,
    out: &mut Vec<Entity>,
)
    requires
        child_of.wf(),
    ensures
        final(out)@ == old(out)@ + collected_abilities(child_of, abilities@, entity),
{
    let ghost m = child_of.parents();
    let ghost d = lemma_depth_exists(m, entity);
    proof {
        lemma_depth_unique(m, entity, d, depth_of(m, entity));
        lemma_depth_bound(child_of@, entity, d);
    }
    collect_rec(entity, child_of, abilities, out, Ghost((child_of@.len() - d) as nat), Ghost(d));
}

/// On a PAE machine's activation: register every ability under it with the
/// machine's effect target. Nothing when the machine has no effect target.
pub fn emit_register_on_active(
    machine: Entity,
    child_of: &Relation,
    abilities: &EntitySet,
    effect_target: &ComponentMap<Entity>,
) -> (r: Vec<RegisterAbility>)
    requires
        child_of.wf(),
        effect_target.wf(),
    ensures
        !effect_target@.contains_key(machine) ==> r@.len() == 0,
        effect_target@.contains_key(machine) ==> {
            let found = collected_abilities(child_of, abilities@, machine);
            &&& r@.len() == found.len()
            &&& forall|i: int|
                0 <= i < r@.len() ==> #[trigger] r@[i] == (RegisterAbility {
                    target: effect_target@[machine],
                    ability_entity: found[i],
                    source_entity: machine,
                })
        },
{
    let mut r: Vec<RegisterAbility> = Vec::new();
    let target = match effect_target.get(machine) {
        Some(t) => t,
        None => {
            return r;
        },
    };
    let mut found: Vec<Entity> = Vec::new();
    collect_all_abilities(machine, child_of, abilities, &mut found);
    let mut i: usize = 0;
    while i < found.len()
        invariant
            i <= found@.len(),
            r@.len() == i,
            forall|j: int|
                0 <= j < i ==> #[trigger] r@[j] == (RegisterAbility {
                    target,
                    ability_entity: found@[j],
                    source_entity: machine,
                }),
        decreases found@.len() - i,
    {
        r.push(RegisterAbility { target, ability_entity: found[i], source_entity: machine });
        i = i + 1;
    }
    proof {
        assert(found@ =~= collected_abilities(child_of, abilities@, machine));
    }
    r
}

/// When a state of a PAE chart stops being active: unregister every ability
/// under the chart's root machine from the machine's effect target.
pub fn emit_unregister_on_inactive(
    entity: Entity,
    substate_of: &Relation,
    child_of: &Relation,
    abilities: &EntitySet,
    effect_target: &ComponentMap<Entity>,
) -> (r: Vec<UnregisterAbility>)
    requires
        substate_of.wf(),
        child_of.wf(),
        effect_target.wf(),
    ensures
        ({
            let machine = root_of(substate_of.parents(), entity);
            &&& !effect_target@.contains_key(machine) ==> r@.len() == 0
            &&& effect_target@.contains_key(machine) ==> {
                let found = collected_abilities(child_of, abilities@, machine);
                &&& r@.len() == found.len()
                &&& forall|i: int|
                    0 <= i < r@.len() ==> #[trigger] r@[i] == (UnregisterAbility {
                        target: effect_target@[machine],
                        ability_entity: found[i],
                    })
            }
        }),
{
    let machine = substate_of.root_ancestor(entity);
    let mut r: Vec<UnregisterAbility> = Vec::new();
    let target = match effect_target.get(machine) {
        Some(t) => t,
        None => {
            return r;
        },
    };
    let mut found: Vec<Entity> = Vec::new();
    collect_all_abilities(machine, child_of, abilities, &mut found);
    let mut i: usize = 0;
    while i < found.len()
        invariant
            i <= found@.len(),
            r@.len() == i,
            forall|j: int|
                0 <= j < i ==> #[trigger] r@[j] == (UnregisterAbility {
                    target,
                    ability_entity: found@[j],
                }),
        decreases found@.len() - i,
    {
        r.push(UnregisterAbility { target, ability_entity: found[i] });
        i = i + 1;
    }
    proof {
        assert(found@ =~= collected_abilities(child_of, abilities@, machine));
    }
    r
}

} // verus!
