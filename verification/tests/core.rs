//! Entities, the tree, the sparse store, and the cascade removal.

use vizia_core::binding::{Data, Lens};
use vizia_core::context::Context;
use vizia_core::entity::Entity;
use vizia_core::sparse_set::SparseSet;
use vizia_core::tree::Tree;

#[derive(Clone, Debug, PartialEq)]
struct Model(i64);

#[derive(Clone, Debug, PartialEq)]
struct Val(i64);

impl Data for Val {
    fn same_spec(&self, other: &Self) -> bool {
        self.0 == other.0
    }

    fn same(&self, other: &Self) -> bool {
        self.0 == other.0
    }
}

#[derive(Clone, Debug)]
struct ValueLens;

impl Lens for ValueLens {
    type Source = Model;
    type Target = Val;

    fn view_spec(&self, source: &Model) -> Option<Val> {
        Some(Val(source.0))
    }

    fn view(&self, source: &Model) -> Option<Val> {
        Some(Val(source.0))
    }

    fn key_spec(&self) -> Option<u64> {
        Some(1)
    }

    fn cache_key(&self) -> Option<u64> {
        Some(1)
    }

    fn dup(&self) -> Self {
        ValueLens
    }
}

type Cx = Context<u32, ValueLens>;

#[test]
fn entity_ids_are_generational() {
    let mut cx: Cx = Context::new();
    let root = Entity::root();
    let a = cx.build_entity(root).unwrap();
    let first_index = a.index();
    cx.remove(a);
    let b = cx.build_entity(root).unwrap();
    // The slot index is reused, but with a bumped generation.
    assert_eq!(b.index(), first_index);
    assert!(b.generation() > a.generation());
    assert_ne!(a, b);
}

#[test]
fn tree_add_and_child_order() {
    let mut t = Tree::new();
    let root = Entity::root();
    let a = Entity { index: 1, generation: 0 };
    let b = Entity { index: 2, generation: 0 };
    t.add(a, root).unwrap();
    t.add(b, root).unwrap();
    assert_eq!(t.get_child(root, 0), Some(a));
    assert_eq!(t.get_child(root, 1), Some(b));
    assert_eq!(t.get_num_children(root), Some(2));
    assert_eq!(t.parent(a), Some(root));
    assert!(t.is_descendant_of(b, root));
    assert!(!t.is_descendant_of(a, b));
    // Removing the first child keeps the second in place.
    t.remove(a).unwrap();
    assert_eq!(t.get_child(root, 0), Some(b));
    assert!(!t.contains_entity(a));
}

#[test]
fn tree_rejects_bad_additions() {
    let mut t = Tree::new();
    let root = Entity::root();
    let ghosted = Entity { index: 9, generation: 3 };
    assert!(t.add(Entity::null(), root).is_err());
    assert!(t.add(ghosted, ghosted).is_err());
    t.add(Entity { index: 1, generation: 0 }, root).unwrap();
    assert!(t.add(Entity { index: 1, generation: 5 }, root).is_err());
}

#[test]
fn sparse_set_insert_remove_lookup() {
    let mut s: SparseSet<i32> = SparseSet::new();
    assert!(s.insert(3, 30).is_ok());
    assert!(s.insert(7, 70).is_ok());
    assert_eq!(s.get(3), Some(&30));
    assert_eq!(s.get(7), Some(&70));
    assert_eq!(s.get(5), None);
    assert!(s.insert(3, 31).is_ok());
    assert_eq!(s.get(3), Some(&31));
    assert_eq!(s.remove(3), Some(31));
    assert_eq!(s.get(3), None);
    assert_eq!(s.get(7), Some(&70));
    assert_eq!(s.remove(3), None);
}

#[test]
fn remove_purges_branch_everywhere() {
    // After remove(e), e and every descendant are gone from the tree, the
    // style, cache and model stores, and from every observer set.
    let mut cx: Cx = Context::new();
    let root = Entity::root();
    let parent = cx.build_entity(root).unwrap();
    let child = cx.build_entity(parent).unwrap();
    let grandchild = cx.build_entity(child).unwrap();
    let sibling = cx.build_entity(root).unwrap();

    // Attach model data to the root and register branch entities as
    // observers.
    cx.build_model(root, Model(1));
    cx.bind_observer(root, ValueLens, child);
    cx.bind_observer(root, ValueLens, grandchild);
    cx.bind_observer(root, ValueLens, sibling);
    cx.text(child, "hello".to_string());
    cx.text(sibling, "world".to_string());

    cx.remove(parent);

    for e in [parent, child, grandchild] {
        assert!(!cx.tree.contains_entity(e));
        assert!(cx.style.text.get(e.index()).is_none());
        assert!(cx.style.classes.get(e.index()).is_none());
        assert!(cx.cache.entries.get(e.index()).is_none());
        assert!(cx.data.get(e.index()).is_none());
    }
    // The sibling survives untouched.
    assert!(cx.tree.contains_entity(sibling));
    assert_eq!(cx.style.text.get(sibling.index()).map(|s| s.as_str()), Some("world"));
    // No observer set references the removed entities.
    let store = cx.data.get(root.index()).unwrap();
    for record in &store.stores {
        assert!(!record.observers.contains(&child));
        assert!(!record.observers.contains(&grandchild));
        assert!(record.observers.contains(&sibling));
    }
    // The dirty flags are set.
    assert!(cx.style.needs_restyle);
    assert!(cx.style.needs_relayout);
    assert!(cx.style.needs_redraw);
}

#[test]
fn remove_children_empties_the_node() {
    let mut cx: Cx = Context::new();
    let root = Entity::root();
    let host = cx.build_entity(root).unwrap();
    let a = cx.build_entity(host).unwrap();
    let b = cx.build_entity(host).unwrap();
    let under_a = cx.build_entity(a).unwrap();
    cx.remove_children(host);
    assert!(cx.tree.contains_entity(host));
    assert_eq!(cx.tree.get_num_children(host), Some(0));
    for e in [a, b, under_a] {
        assert!(!cx.tree.contains_entity(e));
    }
}

#[test]
fn remove_trailing_children_keeps_prefix() {
    let mut cx: Cx = Context::new();
    let root = Entity::root();
    let host = cx.build_entity(root).unwrap();
    let keep0 = cx.build_entity(host).unwrap();
    let keep1 = cx.build_entity(host).unwrap();
    let drop0 = cx.build_entity(host).unwrap();
    let drop1 = cx.build_entity(host).unwrap();
    cx.current = host;
    cx.count = 2;
    cx.remove_trailing_children();
    assert_eq!(cx.tree.get_num_children(host), Some(2));
    assert_eq!(cx.tree.get_child(host, 0), Some(keep0));
    assert_eq!(cx.tree.get_child(host, 1), Some(keep1));
    assert!(!cx.tree.contains_entity(drop0));
    assert!(!cx.tree.contains_entity(drop1));
}

#[test]
fn ancestor_chain_runs_to_root() {
    let mut cx: Cx = Context::new();
    let root = Entity::root();
    let a = cx.build_entity(root).unwrap();
    let b = cx.build_entity(a).unwrap();
    let chain = cx.tree.ancestor_chain(b);
    assert_eq!(chain, vec![b, a, root]);
}

#[test]
fn navigation_predicates_read_state() {
    let mut cx: Cx = Context::new();
    let root = Entity::root();
    let a = cx.build_entity(root).unwrap();
    // Fresh entities carry only the hoverable ability.
    assert!(!cx.is_focusable(a));
    assert!(!cx.is_navigatable(a, root));
    assert!(cx.has_ability(a, vizia_core::style_types::ABILITY_HOVERABLE));
    // Granting the bits makes the entity navigable inside the locked subtree.
    let bits = vizia_core::style_types::ABILITY_HOVERABLE
        | vizia_core::style_types::ABILITY_FOCUSABLE
        | vizia_core::style_types::ABILITY_NAVIGABLE;
    cx.style.abilities.insert(a.index(), bits).unwrap();
    assert!(cx.is_focusable(a));
    assert!(cx.is_navigatable(a, root));
    // But not inside a subtree it does not belong to.
    let other = cx.build_entity(root).unwrap();
    assert!(!cx.is_navigatable(a, other));
    // Disabling it takes it out of the tab order.
    cx.disabled(a, true);
    assert!(!cx.is_navigatable(a, root));
}

#[test]
fn setting_unchanged_text_changes_nothing() {
    let mut cx: Cx = Context::new();
    let root = Entity::root();
    let child = cx.build_entity(root).unwrap();
    cx.text(child, "hello".to_string());
    cx.style.needs_redraw = false;
    cx.text(child, "hello".to_string());
    assert!(!cx.style.needs_redraw);
    assert_eq!(cx.style.text.get(child.index()).map(String::as_str), Some("hello"));
    cx.text(child, "world".to_string());
    assert!(cx.style.needs_redraw);
    assert_eq!(cx.style.text.get(child.index()).map(String::as_str), Some("world"));
}
