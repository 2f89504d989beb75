//! The built-in views: thin builders over the context plus the small state
//! machines some of them carry.  Widgets are ordinary consumers of the core:
//! each `new` creates an entity under the current insertion point and tags it
//! with its element name for styling.

use vstd::prelude::*;
use crate::binding::Lens;
use crate::context::Context;
use crate::entity::Entity;
use crate::events::Event;
use crate::style_types::LayoutType;

verus! {

broadcast use vstd::std_specs::vec::group_vec_axioms;

/// Builds one view entity under the current insertion point and tags it with
/// `element`.  Returns `None` only when the insertion point is gone or the
/// depth limit is hit.
pub fn build_element<M, L: Lens>(cx: &mut Context<M, L>, element: &str) -> (r: Option<Entity>)
    requires
        old(cx).wf(),
    ensures
        final(cx).wf(),
        forall|x: Entity| old(cx).tree.contains(x) ==> final(cx).tree.contains(x),
        final(cx).data == old(cx).data,
        final(cx).event_queue == old(cx).event_queue,
        final(cx).event_schedule == old(cx).event_schedule,
        match r {
            Some(id) => {
                &&& !old(cx).tree.contains(id)
                &&& final(cx).tree.contains(id)
                &&& final(cx).tree.parent_of(id) == old(cx).current
                &&& final(cx).tree.children_of(old(cx).current) == old(cx).tree.children_of(
                    old(cx).current,
                ).push(id)
                &&& final(cx).style.elements.contains_key(id.spec_index() as usize)
                &&& final(cx).style.elements.value_of(id.spec_index() as usize)@ == element@
                &&& final(cx).current == old(cx).current
                &&& final(cx).count == old(cx).count + 1
            },
            None => (!old(cx).tree.contains(old(cx).current) || old(cx).tree.depth_of(
                old(cx).current,
            ) >= crate::tree::MAX_DEPTH || old(cx).count == usize::MAX) && final(cx).tree == old(
                cx).tree,
        },
{
    if cx.count == usize::MAX {
        return None;
    }
    let parent = cx.current;
    match cx.build_entity(parent) {
        Some(id) => {
            proof {
                assert(cx.tree.slots@.len() == vstd::std_specs::vec::spec_vec_len(
                    &cx.tree.slots,
                ));
            }
            let r = cx.style.elements.insert(id.index(), element.to_owned());
            proof {
                assert(r is Ok);
                cx.style.elements.lemma_as_map_point(id.spec_index() as usize);
            }
            cx.count = cx.count + 1;
            Some(id)
        },
        None => None,
    }
}

/// A basic element with no interactivity.
pub struct Element {}

impl Element {
    /// Builds an `element` entity.
    pub fn new<M, L: Lens>(cx: &mut Context<M, L>) -> (r: Option<Entity>)
        requires
            old(cx).wf(),
        ensures
            final(cx).wf(),
            r is Some ==> final(cx).tree.contains(r->Some_0) && final(cx).tree.parent_of(
                r->Some_0,
            ) == old(cx).current,
    {
        build_element(cx, "element")
    }
}

/// A text label.
pub struct Label {}

impl Label {
    /// Builds a `label` entity carrying `text`.
    pub fn new<M, L: Lens>(cx: &mut Context<M, L>, text: &str) -> (r: Option<Entity>)
        requires
            old(cx).wf(),
        ensures
            final(cx).wf(),
            match r {
                Some(id) => final(cx).tree.contains(id) && final(cx).style.text.contains_key(
                    id.spec_index() as usize,
                ) && final(cx).style.text.value_of(id.spec_index() as usize)@ == text@,
                None => true,
            },
    {
        match build_element(cx, "label") {
            Some(id) => {
                proof {
                    assert(cx.tree.slots@.len() == vstd::std_specs::vec::spec_vec_len(
                        &cx.tree.slots,
                    ));
                }
                let r = cx.style.text.insert(id.index(), text.to_owned());
                proof {
                    assert(r is Ok);
                    cx.style.text.lemma_as_map_point(id.spec_index() as usize);
                }
                Some(id)
            },
            None => None,
        }
    }
}

/// A view arranging its children in a vertical stack.
pub struct VStack {}

impl VStack {
    /// Builds a `vstack` entity and returns it; children are added by
    /// building under it (set `current` to the returned entity).
    pub fn new<M, L: Lens>(cx: &mut Context<M, L>) -> (r: Option<Entity>)
        requires
            old(cx).wf(),
        ensures
            final(cx).wf(),
            r is Some ==> final(cx).tree.contains(r->Some_0),
    {
        build_element(cx, "vstack")
    }
}

/// A view arranging its children in a horizontal stack.
pub struct HStack {}

impl HStack {
    /// Builds an `hstack` entity with row layout.
    pub fn new<M, L: Lens>(cx: &mut Context<M, L>) -> (r: Option<Entity>)
        requires
            old(cx).wf(),
        ensures
            final(cx).wf(),
            r is Some ==> final(cx).tree.contains(r->Some_0) && final(cx).style.layout_type.contains_key(r->Some_0.spec_index() as usize) && final(cx).style.layout_type.value_of(r->Some_0.spec_index() as usize) == LayoutType::Row,
    {
        match build_element(cx, "hstack") {
            Some(id) => {
                cx.layout_type(id, LayoutType::Row);
                Some(id)
            },
            None => None,
        }
    }
}

/// A view overlaying its children on top of each other.
pub struct ZStack {}

impl ZStack {
    /// Builds a `zstack` entity.
    pub fn new<M, L: Lens>(cx: &mut Context<M, L>) -> (r: Option<Entity>)
        requires
            old(cx).wf(),
        ensures
            final(cx).wf(),
            r is Some ==> final(cx).tree.contains(r->Some_0),
    {
        build_element(cx, "zstack")
    }
}

/// A group of related input views, laid out as a row.
pub struct Group {}

impl Group {
    /// Builds a `group` entity with row layout.
    pub fn new<M, L: Lens>(cx: &mut Context<M, L>) -> (r: Option<Entity>)
        requires
            old(cx).wf(),
        ensures
            final(cx).wf(),
            r is Some ==> final(cx).tree.contains(r->Some_0),
    {
        match build_element(cx, "group") {
            Some(id) => {
                cx.layout_type(id, LayoutType::Row);
                Some(id)
            },
            None => None,
        }
    }
}

/// A checkbox displaying and toggling boolean state.
pub struct Checkbox {}

impl Checkbox {
    /// Builds a `checkbox` entity with its checked pseudo-class set from
    /// `checked`.
    pub fn new<M, L: Lens>(cx: &mut Context<M, L>, checked: bool) -> (r: Option<Entity>)
        requires
            old(cx).wf(),
        ensures
            final(cx).wf(),
            match r {
                Some(id) => final(cx).tree.contains(id) && crate::style_types::spec_has_bits(
                    final(cx).style.pseudo_classes.value_of(id.spec_index() as usize),
                    crate::style_types::PSEUDO_CHECKED,
                ) == checked,
                None => true,
            },
    {
        match build_element(cx, "checkbox") {
            Some(id) => {
                cx.checked(id, checked);
                Some(id)
            },
            None => None,
        }
    }
}

/// A radio button; checked state is a pseudo-class like the checkbox's.
pub struct RadioButton {}

impl RadioButton {
    /// Builds a `radiobutton` entity.
    pub fn new<M, L: Lens>(cx: &mut Context<M, L>, checked: bool) -> (r: Option<Entity>)
        requires
            old(cx).wf(),
        ensures
            final(cx).wf(),
            match r {
                Some(id) => final(cx).tree.contains(id) && crate::style_types::spec_has_bits(
                    final(cx).style.pseudo_classes.value_of(id.spec_index() as usize),
                    crate::style_types::PSEUDO_CHECKED,
                ) == checked,
                None => true,
            },
    {
        match build_element(cx, "radiobutton") {
            Some(id) => {
                cx.checked(id, checked);
                Some(id)
            },
            None => None,
        }
    }
}

/// The open/closed state a popup binds to.
#[derive(Debug, Clone, Copy, PartialEq, Eq, Structural)]
pub struct PopupData {
    pub is_open: bool,
}

/// Requests to a popup.
#[derive(Debug, Clone, Copy, PartialEq, Eq, Structural)]
pub enum PopupEvent {
    Open,
    Close,
    Switch,
}

impl PopupData {
    /// Applies a popup request: `Open` and `Close` set the state, `Switch`
    /// flips it, and each request consumes the event.
    pub fn event<M>(&mut self, event: &mut Event<M>, request: PopupEvent)
        ensures
            final(self).is_open == match request {
                PopupEvent::Open => true,
                PopupEvent::Close => false,
                PopupEvent::Switch => !old(self).is_open,
            },
            final(event).is_consumed(),
            *final(event) == (Event { consumed: true, ..*old(event) }),
    {
        match request {
            PopupEvent::Open => {
                self.is_open = true;
            },
            PopupEvent::Close => {
                self.is_open = false;
            },
            PopupEvent::Switch => {
                self.is_open = !self.is_open;
            },
        }
        event.consume();
    }
}

/// A container shown and hidden by [`PopupData`].
pub struct Popup {}

impl Popup {
    /// Builds a `popup` entity.
    pub fn new<M, L: Lens>(cx: &mut Context<M, L>) -> (r: Option<Entity>)
        requires
            old(cx).wf(),
        ensures
            final(cx).wf(),
            r is Some ==> final(cx).tree.contains(r->Some_0),
    {
        build_element(cx, "popup")
    }
}

/// A view letting the user pick one of several options.
pub struct Picker {}

/// A request to set the picked option, carrying its index.
#[derive(Debug, Clone, Copy, PartialEq, Eq, Structural)]
pub enum PickerEvent {
    SetOption(usize),
}

impl Picker {
    /// Builds a `picker` entity.
    pub fn new<M, L: Lens>(cx: &mut Context<M, L>) -> (r: Option<Entity>)
        requires
            old(cx).wf(),
        ensures
            final(cx).wf(),
            r is Some ==> final(cx).tree.contains(r->Some_0),
    {
        build_element(cx, "picker")
    }
}

/// One option of a picker.
pub struct PickerItem {}

impl PickerItem {
    /// Builds a labelled option; the item carries the `checked` pseudo-class
    /// when it is the selected one.
    pub fn new<M, L: Lens>(cx: &mut Context<M, L>, text: &str, selected: bool) -> (r: Option<
        Entity,
    >)
        requires
            old(cx).wf(),
        ensures
            final(cx).wf(),
            match r {
                Some(id) => final(cx).tree.contains(id) && crate::style_types::spec_has_bits(
                    final(cx).style.pseudo_classes.value_of(id.spec_index() as usize),
                    crate::style_types::PSEUDO_CHECKED,
                ) == selected,
                None => true,
            },
    {
        match build_element(cx, "pickeritem") {
            Some(id) => {
                proof {
                    assert(cx.tree.slots@.len() == vstd::std_specs::vec::spec_vec_len(
                        &cx.tree.slots,
                    ));
                }
                let rt = cx.style.text.insert(id.index(), text.to_owned());
                proof {
                    assert(rt is Ok);
                }
                cx.checked(id, selected);
                Some(id)
            },
            None => None,
        }
    }
}

/// A dropdown: a title line that opens a popup of options.
pub struct Dropdown {}

impl Dropdown {
    /// Builds a `dropdown` entity.
    pub fn new<M, L: Lens>(cx: &mut Context<M, L>) -> (r: Option<Entity>)
        requires
            old(cx).wf(),
        ensures
            final(cx).wf(),
            r is Some ==> final(cx).tree.contains(r->Some_0),
    {
        build_element(cx, "dropdown")
    }
}

/// Builds `count` entities under the current insertion point, one per index.
pub struct ForEach {}

impl ForEach {
    /// Builds `count` `element` entities in order.  Returns the entities
    /// built; fewer only if the depth limit interferes.
    pub fn new<M, L: Lens>(cx: &mut Context<M, L>, count: usize) -> (r: Vec<Entity>)
        requires
            old(cx).wf(),
        ensures
            final(cx).wf(),
            r@.len() <= count,
            forall|j: int| 0 <= j < r@.len() ==> final(cx).tree.contains(#[trigger] r@[j]),
    {
        let mut out: Vec<Entity> = Vec::new();
        let mut i: usize = 0;
        while i < count
            invariant
                cx.wf(),
                i <= count,
                out@.len() <= i,
                forall|j: int| 0 <= j < out@.len() ==> cx.tree.contains(#[trigger] out@[j]),
            decreases count - i,
        {
            let ghost pre = *cx;
            match build_element(cx, "element") {
                Some(id) => {
                    out.push(id);
                    proof {
                        assert forall|j: int| 0 <= j < out@.len() implies cx.tree.contains(
                            #[trigger] out@[j],
                        ) by {
                            if j < out@.len() - 1 {
                                assert(pre.tree.contains(out@[j]));
                            }
                        }
                    }
                },
                None => {},
            }
            i += 1;
        }
        out
    }
}

/// The selection state a list binds to.
#[derive(Debug, Clone, Copy, PartialEq, Eq, Structural)]
pub struct ListData {
    pub selected: usize,
    pub length: usize,
}

impl ListData {
    /// A fresh selection state over an empty list.
    pub fn new(selected: usize) -> (d: ListData)
        ensures
            d.selected == selected,
            d.length == 0,
    {
        ListData { selected, length: 0 }
    }

    /// Applies a list request: increments and decrements saturate at the
    /// ends, an explicit selection clamps into range, and setting the length
    /// leaves the selection alone.
    pub fn event(&mut self, request: ListEvent)
        requires
            match request {
                ListEvent::IncrementSelection => old(self).length > 0,
                ListEvent::SetSelected(_) => old(self).length > 0,
                _ => true,
            },
        ensures
            final(self).length == match request {
                ListEvent::SetLength(n) => n,
                _ => old(self).length,
            },
            final(self).selected as int == match request {
                ListEvent::IncrementSelection => if old(self).selected + 1 <= old(self).length
                    - 1 {
                    old(self).selected + 1
                } else {
                    old(self).length - 1
                },
                ListEvent::DecrementSelection => if old(self).selected <= 1 {
                    0int
                } else {
                    old(self).selected - 1
                },
                ListEvent::SetSelected(index) => if index > old(self).length - 1 {
                    old(self).length - 1
                } else {
                    index as int
                },
                ListEvent::SetLength(_) => old(self).selected as int,
            },
    {
        match request {
            ListEvent::IncrementSelection => {
                if self.selected < self.length - 1 {
                    self.selected = self.selected + 1;
                } else {
                    self.selected = self.length - 1;
                }
            },
            ListEvent::DecrementSelection => {
                if self.selected <= 1 {
                    self.selected = 0;
                } else {
                    self.selected = self.selected - 1;
                }
            },
            ListEvent::SetSelected(index) => {
                if index > self.length - 1 {
                    self.selected = self.length - 1;
                } else {
                    self.selected = index;
                }
            },
            ListEvent::SetLength(length) => {
                self.length = length;
            },
        }
    }
}

/// Requests to a list's selection state.
#[derive(Debug, Clone, Copy, PartialEq, Eq, Structural)]
pub enum ListEvent {
    IncrementSelection,
    DecrementSelection,
    SetSelected(usize),
    SetLength(usize),
}

/// A handle to one item of a listed collection: the lens of the collection
/// plus the item's position.
pub struct ItemPtr<L: Lens> {
    pub lens: L,
    pub index: usize,
    pub row: usize,
    pub col: usize,
}

impl<L: Lens> ItemPtr<L> {
    pub fn new(lens: L, index: usize, row: usize, col: usize) -> (r: ItemPtr<L>)
        ensures
            r.lens == lens,
            r.index == index,
            r.row == row,
            r.col == col,
    {
        ItemPtr { lens, index, row, col }
    }

    /// The item's position in the collection.
    pub fn index(&self) -> (r: usize)
        ensures
            r == self.index,
    {
        self.index
    }

    /// The item's row.
    pub fn row(&self) -> (r: usize)
        ensures
            r == self.row,
    {
        self.row
    }

    /// The item's column.
    pub fn col(&self) -> (r: usize)
        ensures
            r == self.col,
    {
        self.col
    }
}

/// Something that can hand out a value of the data it stands for.
pub trait DataHandle {
    type Data;

    /// The value this handle currently stands for.
    fn get(&self) -> Self::Data;
}

/// A list view over a collection: a `list` entity whose rows are rebuilt by
/// a binding.
pub struct List {}

impl List {
    /// Builds a `list` entity.
    pub fn new<M, L: Lens>(cx: &mut Context<M, L>) -> (r: Option<Entity>)
        requires
            old(cx).wf(),
        ensures
            final(cx).wf(),
            r is Some ==> final(cx).tree.contains(r->Some_0),
    {
        build_element(cx, "list")
    }
}

/// A binding node: its children are rebuilt whenever the observed lens value
/// changes.
pub struct Binding {}

impl Binding {
    /// Builds a `binding` entity under the current insertion point and
    /// registers it as an observer of `lens` on the nearest ancestor holding
    /// model data — farther holders are shadowed and never consulted.  The
    /// caller then builds the bound content under the returned entity and
    /// re-runs its builder when the observer fires.
    pub fn new<M, L: Lens>(cx: &mut Context<M, L>, lens: L) -> (r: Option<Entity>) where
        <L as Lens>::Target: crate::binding::Data,

        requires
            old(cx).wf(),
        ensures
            final(cx).wf(),
            match r {
                Some(id) => {
                    &&& final(cx).tree.contains(id)
                    &&& final(cx).tree.parent_of(id) == old(cx).current
                    &&& final(cx).tree.children_of(old(cx).current) == old(cx).tree.children_of(
                        old(cx).current,
                    ).push(id)
                    &&& final(cx).style.elements.contains_key(id.spec_index() as usize)
                    &&& final(cx).style.elements.value_of(id.spec_index() as usize)@ == "binding"@
                    &&& final(cx).current == old(cx).current
                    &&& final(cx).count == old(cx).count + 1
                    // The observer joins the nearest ancestor model holder,
                    // deduplicated by the lens cache key; with no holder in
                    // scope the data records are untouched.
                    &&& match final(cx).spec_nearest_model(id) {
                        Some(k) => {
                            &&& old(cx).data.contains_key(k)
                            &&& final(cx).data.as_map().dom() == old(cx).data.as_map().dom()
                            &&& final(cx).data.as_map().remove(k) == old(
                                cx).data.as_map().remove(k)
                            &&& crate::binding::observer_registered(
                                lens,
                                id,
                                old(cx).data.value_of(k),
                                final(cx).data.value_of(k),
                            )
                        },
                        None => final(cx).data == old(cx).data,
                    }
                },
                None => (!old(cx).tree.contains(old(cx).current) || old(cx).tree.depth_of(
                    old(cx).current,
                ) >= crate::tree::MAX_DEPTH || old(cx).count == usize::MAX) && final(cx).data
                    == old(cx).data && final(cx).tree == old(cx).tree,
            },
    {
        let id = match build_element(cx, "binding") {
            Some(id) => id,
            None => {
                return None;
            },
        };
        // Walk from the binding entity towards the root and register on the
        // nearest model holder, if any.
        let ghost cx1 = *cx;
        let chain = cx.tree.ancestor_chain(id);
        let n = chain.len();
        let mut i: usize = 0;
        let mut found: Option<Entity> = None;
        proof {
            assert(chain@[0] == id);
        }
        while i < n && found.is_none()
            invariant
                cx.wf(),
                *cx == cx1,
                cx.tree.contains(id),
                n == chain@.len(),
                n == cx.tree.depth_of(id) + 1,
                chain@[0] == id,
                chain@[n - 1] == Entity::spec_root(),
                forall|j: int|
                    0 <= j < n ==> cx.tree.contains(#[trigger] chain@[j]) && cx.tree.depth_of(
                        chain@[j],
                    ) == cx.tree.depth_of(id) - j,
                forall|j: int|
                    0 <= j < n - 1 ==> cx.tree.parent_of(#[trigger] chain@[j]) == chain@[j + 1],
                i <= n,
                match found {
                    Some(h) => cx.data.contains_key(h.spec_index() as usize)
                        && cx.spec_nearest_model(id) == Some(h.spec_index() as usize),
                    None => {
                        &&& (i < n ==> cx.spec_nearest_model(id) == cx.spec_nearest_model(
                            chain@[i as int],
                        ))
                        &&& (i == n ==> cx.spec_nearest_model(id) is None)
                    },
                },
            decreases n - i,
        {
            let e = chain[i];
            if cx.data.contains(e.index()) {
                found = Some(e);
                proof {
                    assert(cx.spec_nearest_model(chain@[i as int]) == Some(
                        e.spec_index() as usize,
                    ));
                }
            } else {
                proof {
                    if e == Entity::spec_root() {
                        assert(cx.tree.depth_of(e) == 0);
                        assert(i == n - 1);
                        assert(cx.spec_nearest_model(chain@[i as int]) is None);
                    } else {
                        assert(i < n - 1) by {
                            if i == n - 1 {
                                assert(chain@[i as int] == Entity::spec_root());
                            }
                        }
                        assert(cx.spec_nearest_model(chain@[i as int])
                            == cx.spec_nearest_model(chain@[i + 1]));
                    }
                }
            }
            i += 1;
        }
        match found {
            Some(h) => {
                let ghost cx2 = *cx;
                cx.bind_observer(h, lens, id);
                proof {
                    Context::<M, L>::lemma_nearest_model_same(*cx, cx2, id);
                    assert(cx.spec_nearest_model(id) == Some(h.spec_index() as usize));
                }
            },
            None => {},
        }
        Some(id)
    }
}

} // verus!
