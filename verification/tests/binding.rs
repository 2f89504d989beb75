//! The reactive engine: observer dedup, change detection, and subtree
//! rebuild.

use vizia_core::binding::{Data, Lens};
use vizia_core::context::Context;
use vizia_core::entity::Entity;
use vizia_core::views::{build_element, Binding, ListData, ListEvent, PopupData, PopupEvent};
use vizia_core::events::Event;

#[derive(Clone, Debug, PartialEq)]
struct Counter {
    count: i64,
    label: i64,
}

#[derive(Clone, Debug, PartialEq)]
struct Val(i64);

impl Data for Val {
    fn same_spec(&self, other: &Self) -> bool {
        self.0 == other.0
    }

    fn same(&self, other: &Self) -> bool {
        self.0 == other.0
    }
}

/// Projections out of [`Counter`].
#[derive(Clone, Debug, PartialEq)]
enum CounterLens {
    Count,
    Label,
}

impl Lens for CounterLens {
    type Source = Counter;
    type Target = Val;

    fn view_spec(&self, source: &Counter) -> Option<Val> {
        match self {
            CounterLens::Count => Some(Val(source.count)),
            CounterLens::Label => Some(Val(source.label)),
        }
    }

    fn view(&self, source: &Counter) -> Option<Val> {
        match self {
            CounterLens::Count => Some(Val(source.count)),
            CounterLens::Label => Some(Val(source.label)),
        }
    }

    fn key_spec(&self) -> Option<u64> {
        match self {
            CounterLens::Count => Some(1),
            CounterLens::Label => Some(2),
        }
    }

    fn cache_key(&self) -> Option<u64> {
        match self {
            CounterLens::Count => Some(1),
            CounterLens::Label => Some(2),
        }
    }

    fn dup(&self) -> Self {
        self.clone()
    }
}

type Cx = Context<u32, CounterLens>;

fn fixture() -> (Cx, Entity, Entity, Entity) {
    // Root holds the model; two bindings sit in different subtrees.
    let mut cx: Cx = Context::new();
    cx.build_model(Entity::root(), Counter { count: 0, label: 0 });
    let left = build_element(&mut cx, "vstack").unwrap();
    let right = build_element(&mut cx, "vstack").unwrap();
    cx.current = left;
    cx.count = 0;
    let b1 = Binding::new(&mut cx, CounterLens::Count).unwrap();
    cx.current = right;
    cx.count = 0;
    let b2 = Binding::new(&mut cx, CounterLens::Count).unwrap();
    cx.current = Entity::root();
    (cx, b1, b2, Entity::root())
}

#[test]
fn unchanged_value_triggers_no_rebuild() {
    // Re-setting the model to an equal projected value must not dirty the
    // bound subtrees.
    let (mut cx, _b1, _b2, root) = fixture();
    cx.update_model(root, Counter { count: 0, label: 5 });
    let dirty = cx.process_data_updates();
    assert!(dirty.is_empty());
}

#[test]
fn changed_value_triggers_one_rebuild_per_binding_entity() {
    // Two bindings on the same lens share one dependency record; a mutation
    // dirties each binding entity exactly once.
    let (mut cx, b1, b2, root) = fixture();
    cx.update_model(root, Counter { count: 3, label: 0 });
    let mut dirty = cx.process_data_updates();
    dirty.sort_by_key(|e| e.index());
    let mut expected = vec![b1, b2];
    expected.sort_by_key(|e| e.index());
    assert_eq!(dirty, expected);
    // The records were deduplicated: one record tracks the shared lens.
    let store = cx.data.get(root.index()).unwrap();
    assert_eq!(store.stores.len(), 1);
    assert_eq!(store.stores[0].observers.len(), 2);
    // A second pass with no further change is quiet again.
    let dirty = cx.process_data_updates();
    assert!(dirty.is_empty());
}

#[test]
fn registering_twice_does_not_double_track() {
    let (mut cx, b1, _b2, root) = fixture();
    // Register the same binding entity again under the same lens key.
    cx.bind_observer(root, CounterLens::Count, b1);
    let store = cx.data.get(root.index()).unwrap();
    assert_eq!(store.stores.len(), 1);
    assert_eq!(store.stores[0].observers.iter().filter(|o| **o == b1).count(), 1);
}

#[test]
fn distinct_lenses_track_separately() {
    let (mut cx, b1, _b2, root) = fixture();
    cx.bind_observer(root, CounterLens::Label, b1);
    let store = cx.data.get(root.index()).unwrap();
    assert_eq!(store.stores.len(), 2);
    // Mutating only the label dirties only its observers.
    cx.update_model(root, Counter { count: 0, label: 7 });
    let dirty = cx.process_data_updates();
    assert_eq!(dirty, vec![b1]);
}

#[test]
fn rebuild_round_trip_gives_the_same_shape() {
    // Rebuild with value A, then B, then A again: the subtree has exactly the
    // entity count the builder creates fresh, with no leaked entities.
    let (mut cx, b1, _b2, root) = fixture();

    // The builder: one element per model count.
    fn builder(cx: &mut Cx, b: Entity, count: usize) {
        cx.current = b;
        cx.count = 0;
        cx.remove_trailing_children();
        for _ in 0..count {
            build_element(cx, "element").unwrap();
        }
    }

    builder(&mut cx, b1, 3);
    let shape_a_fresh = cx.tree.get_num_children(b1);
    let total_after_a = cx.tree.slots.iter().filter(|s| s.is_some()).count();

    cx.update_model(root, Counter { count: 1, label: 0 });
    let dirty = cx.process_data_updates();
    assert!(dirty.contains(&b1));
    builder(&mut cx, b1, 1);
    assert_eq!(cx.tree.get_num_children(b1), Some(1));

    cx.update_model(root, Counter { count: 0, label: 0 });
    let dirty = cx.process_data_updates();
    assert!(dirty.contains(&b1));
    builder(&mut cx, b1, 3);

    // Same shape as the fresh build with A, and no leaked entities.
    assert_eq!(cx.tree.get_num_children(b1), shape_a_fresh);
    let total_after_round_trip = cx.tree.slots.iter().filter(|s| s.is_some()).count();
    assert_eq!(total_after_round_trip, total_after_a);
}

#[test]
fn fallible_presence_flip_counts_as_change() {
    // A lens whose projection disappears (or appears) counts as changed even
    // though no present values were compared.
    #[derive(Clone, Debug, PartialEq)]
    enum OptLens {
        Positive,
    }
    impl Lens for OptLens {
        type Source = i64;
        type Target = Val;

        fn view_spec(&self, source: &i64) -> Option<Val> {
            if *source > 0 {
                Some(Val(*source))
            } else {
                None
            }
        }

        fn view(&self, source: &i64) -> Option<Val> {
            if *source > 0 {
                Some(Val(*source))
            } else {
                None
            }
        }

        fn key_spec(&self) -> Option<u64> {
            Some(1)
        }

        fn cache_key(&self) -> Option<u64> {
            Some(1)
        }

        fn dup(&self) -> Self {
            OptLens::Positive
        }
    }
    let mut cx: Context<u32, OptLens> = Context::new();
    cx.build_model(Entity::root(), 5i64);
    let b = Binding::new(&mut cx, OptLens::Positive).unwrap();
    // Present and unchanged: quiet.
    cx.update_model(Entity::root(), 5);
    assert!(cx.process_data_updates().is_empty());
    // Present to absent: a change.
    cx.update_model(Entity::root(), -1);
    assert_eq!(cx.process_data_updates(), vec![b]);
    // Absent and still absent: quiet.
    cx.update_model(Entity::root(), -2);
    assert!(cx.process_data_updates().is_empty());
    // Absent to present: a change.
    cx.update_model(Entity::root(), 9);
    assert_eq!(cx.process_data_updates(), vec![b]);
}

#[test]
fn nearest_model_shadows_outer_one() {
    let mut cx: Cx = Context::new();
    cx.build_model(Entity::root(), Counter { count: 1, label: 1 });
    let inner = build_element(&mut cx, "vstack").unwrap();
    cx.build_model(inner, Counter { count: 2, label: 2 });
    cx.current = inner;
    assert_eq!(cx.data().map(|m| m.count), Some(2));
    cx.current = Entity::root();
    assert_eq!(cx.data().map(|m| m.count), Some(1));
}

#[test]
fn list_selection_clamps_at_the_ends() {
    let mut d = ListData::new(0);
    d.event(ListEvent::SetLength(3));
    assert_eq!(d.length, 3);
    d.event(ListEvent::IncrementSelection);
    assert_eq!(d.selected, 1);
    d.event(ListEvent::IncrementSelection);
    d.event(ListEvent::IncrementSelection);
    d.event(ListEvent::IncrementSelection);
    assert_eq!(d.selected, 2);
    d.event(ListEvent::DecrementSelection);
    d.event(ListEvent::DecrementSelection);
    d.event(ListEvent::DecrementSelection);
    assert_eq!(d.selected, 0);
    d.event(ListEvent::SetSelected(99));
    assert_eq!(d.selected, 2);
    d.event(ListEvent::SetSelected(1));
    assert_eq!(d.selected, 1);
}

#[test]
fn popup_requests_toggle_and_consume() {
    let mut p = PopupData { is_open: false };
    let mut ev: Event<u32> = Event::new(0);
    p.event(&mut ev, PopupEvent::Open);
    assert!(p.is_open);
    assert!(ev.consumed);
    let mut ev2: Event<u32> = Event::new(0);
    p.event(&mut ev2, PopupEvent::Switch);
    assert!(!p.is_open);
    let mut ev3: Event<u32> = Event::new(0);
    p.event(&mut ev3, PopupEvent::Close);
    assert!(!p.is_open);
}

#[test]
fn item_ptr_carries_position() {
    let p = vizia_core::views::ItemPtr::new(CounterLens::Count, 4, 2, 1);
    assert_eq!(p.index(), 4);
    assert_eq!(p.row(), 2);
    assert_eq!(p.col(), 1);
}
