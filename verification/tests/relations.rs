use lib::component::ComponentMap;
use lib::relation::{EntitySet, Links, Relation, PLACEHOLDER};

#[test]
fn relation_relate_sets_parent_and_orders_children() {
    let mut r = Relation::new();
    assert!(r.relate(1, 0));
    assert!(r.relate(2, 0));
    assert!(r.relate(3, 1));
    assert_eq!(r.parent_of(1), Some(0));
    assert_eq!(r.parent_of(0), None);
    assert_eq!(r.children_of(0), vec![1, 2]);
    assert_eq!(r.children_of(1), vec![3]);
    assert_eq!(r.len(), 3);
    // Re-relating moves the child to the end of its new parent's list.
    assert!(r.relate(1, 2));
    assert_eq!(r.children_of(0), vec![2]);
    assert_eq!(r.children_of(2), vec![1]);
}

#[test]
fn relation_root_ancestor_walks_to_root() {
    let mut r = Relation::new();
    r.relate(1, 0);
    r.relate(2, 1);
    r.relate(3, 2);
    assert_eq!(r.root_ancestor(3), 0);
    assert_eq!(r.root_ancestor(0), 0);
    assert_eq!(r.root_ancestor(42), 42);
    // Root idempotence and a child sharing its parent's root.
    assert_eq!(r.root_ancestor(r.root_ancestor(3)), r.root_ancestor(3));
    assert_eq!(r.root_ancestor(3), r.root_ancestor(2));
    assert!(r.is_ancestor_or_self(1, 3));
    assert!(r.is_ancestor_or_self(3, 3));
    assert!(!r.is_ancestor_or_self(3, 1));
}

#[test]
fn relation_refuses_cycles_and_self_relations() {
    let mut r = Relation::new();
    assert!(r.relate(1, 0));
    assert!(r.relate(2, 1));
    assert!(!r.relate(0, 2), "closing a cycle is refused");
    assert!(!r.relate(5, 5), "relating to itself is refused");
    assert_eq!(r.parent_of(0), None);
    assert_eq!(r.len(), 2);
}

#[test]
fn relation_relate_gives_child_the_parents_root() {
    let mut r = Relation::new();
    r.relate(1, 0);
    r.relate(11, 10);
    assert!(r.relate(10, 1));
    assert_eq!(r.root_ancestor(11), 0);
}

#[test]
fn relation_unlink_makes_a_root() {
    let mut r = Relation::new();
    r.relate(1, 0);
    r.relate(2, 1);
    r.unlink(1);
    assert_eq!(r.parent_of(1), None);
    assert_eq!(r.root_ancestor(2), 1);
    assert_eq!(r.children_of(0), Vec::<u64>::new());
    // Unlinking an entity without parent changes nothing.
    r.unlink(7);
    assert_eq!(r.len(), 1);
}

#[test]
fn links_allow_cycles_but_not_self_links() {
    let mut l = Links::new();
    assert!(l.link(1, 2));
    assert!(l.link(2, 1));
    assert_eq!(l.parent_of(1), Some(2));
    assert_eq!(l.parent_of(2), Some(1));
    // A self link drops the earlier link and is refused.
    assert!(!l.link(1, 1));
    assert_eq!(l.parent_of(1), None);
    assert_eq!(l.children_of(1), vec![2]);
}

#[test]
fn links_relink_moves_child_last() {
    let mut l = Links::new();
    l.link(3, 9);
    l.link(4, 9);
    l.link(3, 9);
    assert_eq!(l.children_of(9), vec![4, 3]);
    l.link(4, 8);
    assert_eq!(l.children_of(9), vec![3]);
    assert_eq!(l.children_of(8), vec![4]);
    l.unlink(3);
    assert_eq!(l.children_of(9), Vec::<u64>::new());
}

#[test]
fn entity_set_insert_remove() {
    let mut s = EntitySet::new();
    assert!(!s.contains(4));
    s.insert(4);
    s.insert(4);
    s.insert(5);
    assert!(s.contains(4));
    s.remove(4);
    assert!(!s.contains(4));
    assert!(s.contains(5));
}

#[test]
fn component_map_insert_replaces() {
    let mut m: ComponentMap<u32> = ComponentMap::new();
    assert_eq!(m.get(1), None);
    m.insert(1, 10);
    m.insert(2, 20);
    m.insert(1, 11);
    assert_eq!(m.get(1), Some(11));
    assert!(m.contains(2));
    assert!(!m.contains(3));
    let mut pairs = m.pairs();
    pairs.sort();
    assert_eq!(pairs, vec![(1, 11), (2, 20)]);
}

#[test]
fn placeholder_entity_is_the_max_handle() {
    assert_eq!(PLACEHOLDER, u64::MAX);
}
