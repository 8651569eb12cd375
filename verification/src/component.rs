//! A component column: at most one value per entity.

use vstd::prelude::*;

use crate::relation::Entity;

verus! {

/// No entity occurs twice.
pub open spec fn unique_keys<T>(s: Seq<(Entity, T)>) -> bool {
    forall|i: int, j: int|
        0 <= i < s.len() && 0 <= j < s.len() && i != j ==> #[trigger] s[i].0 != #[trigger] s[j].0
}

/// Whether `e` has an entry.
pub open spec fn has_key<T>(s: Seq<(Entity, T)>, e: Entity) -> bool {
    exists|i: int| 0 <= i < s.len() && #[trigger] s[i].0 == e
}

/// The entity -> value map of an entry list.
pub open spec fn key_map<T>(s: Seq<(Entity, T)>) -> Map<Entity, T> {
    Map::new(
        |e: Entity| has_key(s, e),
        |e: Entity| s[choose|i: int| 0 <= i < s.len() && #[trigger] s[i].0 == e].1,
    )
}

/// With unique keys, the map sends each entry's entity to its value.
pub proof fn lemma_key_map_at<T>(s: Seq<(Entity, T)>, i: int)
    requires
        unique_keys(s),
        0 <= i < s.len(),
    ensures
        key_map(s).contains_key(s[i].0),
        key_map(s)[s[i].0] == s[i].1,
{
    let e = s[i].0;
    assert(has_key(s, e));
    let j = choose|j: int| 0 <= j < s.len() && #[trigger] s[j].0 == e;
    assert(i == j);
}

/// One value of type `T` per entity, kept in insertion order.
pub struct ComponentMap<T> {
    items: Vec<(Entity, T)>,
}

impl<T> View for ComponentMap<T> {
    type V = Map<Entity, T>;

    closed spec fn view(&self) -> Map<Entity, T> {
        key_map(self.items@)
    }
}

impl<T: Copy> ComponentMap<T> {
    /// The column's invariant.
    pub closed spec fn wf(&self) -> bool {
        unique_keys(self.items@)
    }

    /// The entries, in insertion order.
    pub closed spec fn entries(&self) -> Seq<(Entity, T)> {
        self.items@
    }

    /// Entries and map agree.
    pub proof fn lemma_entries(&self)
        requires
            self.wf(),
        ensures
            forall|i: int|
                0 <= i < self.entries().len() ==> #[trigger] self@.contains_key(self.entries()[i].0)
                    && self@[self.entries()[i].0] == self.entries()[i].1,
            forall|e: Entity|
                #[trigger] self@.contains_key(e) ==> exists|i: int|
                    0 <= i < self.entries().len() && #[trigger] self.entries()[i].0 == e,
    {
        assert forall|i: int| 0 <= i < self.entries().len() implies #[trigger] self@.contains_key(
            self.entries()[i].0,
        ) && self@[self.entries()[i].0] == self.entries()[i].1 by {
            lemma_key_map_at(self.items@, i);
        }
        assert forall|e: Entity| #[trigger] self@.contains_key(e) implies exists|i: int|
            0 <= i < self.entries().len() && #[trigger] self.entries()[i].0 == e by {
            assert(has_key(self.items@, e));
            let i = choose|i: int| 0 <= i < self.items@.len() && #[trigger] self.items@[i].0 == e;
            assert(self.entries()[i].0 == e);
        }
    }

    /// An empty column.
    pub fn new() -> (c: Self)
        ensures
            c.wf(),
            c@ == Map::<Entity, T>::empty(),
            c.entries() == Seq::<(Entity, T)>::empty(),
    {
        let c = ComponentMap { items: Vec::new() };
        assert(c@ =~= Map::<Entity, T>::empty());
        c
    }

    /// Index of `e`'s entry.
    fn find(&self, e: Entity) -> (r: Option<usize>)
        ensures
            match r {
                Some(i) => i < self.items@.len() && self.items@[i as int].0 == e,
                None => !has_key(self.items@, e),
            },
    {
        let mut i: usize = 0;
        while i < self.items.len()
            invariant
                i <= self.items@.len(),
                forall|j: int| 0 <= j < i ==> #[trigger] self.items@[j].0 != e,
            decreases self.items@.len() - i,
        {
            if self.items[i].0 == e {
                return Some(i);
            }
            i = i + 1;
        }
        None
    }

    /// `e`'s value, if it has one.
    pub fn get(&self, e: Entity) -> (r: Option<T>)
        requires
            self.wf(),
        ensures
            r == (if self@.contains_key(e) {
                Some(self@[e])
            } else {
                None::<T>
            }),
    {
        match self.find(e) {
            Some(i) => {
                proof {
                    lemma_key_map_at(self.items@, i as int);
                }
                Some(self.items[i].1)
            },
            None => None,
        }
    }

    /// Whether `e` has a value.
    pub fn contains(&self, e: Entity) -> (b: bool)
        requires
            self.wf(),
        ensures
            b == self@.contains_key(e),
    {
        self.find(e).is_some()
    }

    /// Give `e` the value `v`, replacing any earlier value in place.
    pub fn insert(&mut self, e: Entity, v: T)
        requires
            old(self).wf(),
        ensures
            final(self).wf(),
            final(self)@ == old(self)@.insert(e, v),
    {
        let ghost s = self.items@;
        match self.find(e) {
            Some(i) => {
                self.items.set(i, (e, v));
                proof {
                    let s2 = self.items@;
                    assert forall|a: int, b: int|
                        0 <= a < s2.len() && 0 <= b < s2.len() && a != b implies #[trigger] s2[a].0
                        != #[trigger] s2[b].0 by {
                        assert(s2[a].0 == s[a].0 && s2[b].0 == s[b].0);
                    }
                    assert forall|x: Entity| #[trigger] key_map(s2).contains_key(x) <==> key_map(
                        s,
                    ).insert(e, v).contains_key(x) by {
                        if has_key(s2, x) {
                            let a = choose|a: int| 0 <= a < s2.len() && #[trigger] s2[a].0 == x;
                            assert(s[a].0 == x);
                        }
                        if has_key(s, x) {
                            let a = choose|a: int| 0 <= a < s.len() && #[trigger] s[a].0 == x;
                            assert(s2[a].0 == x);
                        }
                        if x == e {
                            assert(s2[i as int].0 == e);
                        }
                    }
                    assert forall|x: Entity| #[trigger] key_map(s2).contains_key(x) implies key_map(
                        s2,
                    )[x] == key_map(s).insert(e, v)[x] by {
                        let a = choose|a: int| 0 <= a < s2.len() && #[trigger] s2[a].0 == x;
                        lemma_key_map_at(s2, a);
                        if a != i {
                            lemma_key_map_at(s, a);
                        }
                    }
                    assert(key_map(s2) =~= key_map(s).insert(e, v));
                }
            },
            None => {
                self.items.push((e, v));
                proof {
                    let s2 = self.items@;
                    assert forall|a: int, b: int|
                        0 <= a < s2.len() && 0 <= b < s2.len() && a != b implies #[trigger] s2[a].0
                        != #[trigger] s2[b].0 by {
                        if a < s.len() {
                            assert(s2[a] == s[a]);
                        }
                        if b < s.len() {
                            assert(s2[b] == s[b]);
                        }
                    }
                    assert forall|x: Entity| #[trigger] key_map(s2).contains_key(x) <==> key_map(
                        s,
                    ).insert(e, v).contains_key(x) by {
                        if has_key(s2, x) && x != e {
                            let a = choose|a: int| 0 <= a < s2.len() && #[trigger] s2[a].0 == x;
                            assert(s[a].0 == x);
                        }
                        if has_key(s, x) {
                            let a = choose|a: int| 0 <= a < s.len() && #[trigger] s[a].0 == x;
                            assert(s2[a].0 == x);
                        }
                        if x == e {
                            assert(s2[s.len() as int].0 == e);
                        }
                    }
                    assert forall|x: Entity| #[trigger] key_map(s2).contains_key(x) implies key_map(
                        s2,
                    )[x] == key_map(s).insert(e, v)[x] by {
                        let a = choose|a: int| 0 <= a < s2.len() && #[trigger] s2[a].0 == x;
                        lemma_key_map_at(s2, a);
                        if a < s.len() {
                            assert(s2[a] == s[a]);
                            lemma_key_map_at(s, a);
                        }
                    }
                    assert(key_map(s2) =~= key_map(s).insert(e, v));
                }
            },
        }
    }

    /// All entries, in insertion order.
    pub fn pairs(&self) -> (r: Vec<(Entity, T)>)
        ensures
            r@ == self.entries(),
    {
        let mut r: Vec<(Entity, T)> = Vec::new();
        let mut i: usize = 0;
        while i < self.items.len()
            invariant
                i <= self.items@.len(),
                r@ == self.items@.take(i as int),
            decreases self.items@.len() - i,
        {
            r.push(self.items[i]);
            proof {
                assert(self.items@.take(i + 1) =~= self.items@.take(i as int).push(self.items@[i as int]));
            }
            i = i + 1;
        }
        proof {
            assert(self.items@.take(i as int) =~= self.items@);
        }
        r
    }
}

} // verus!
