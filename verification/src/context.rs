//! The application context: the entity arena, the tree, the stores, the event
//! queue and schedule, and the frame pipeline operations over them.
//!
//! The context is generic over the application's message payload type `M` and
//! its lens type `L`; `L::Source` is the model type entities can hold and
//! `L::Target` the projected values bindings observe.

use vstd::prelude::*;
use std::collections::VecDeque;
use crate::binding::Data;
use crate::binding::Lens;
use crate::binding::ModelDataStore;
use crate::binding::StateStore;
use crate::cache::CachedData;
use crate::entity::Entity;
use crate::entity::IdManager;
use crate::events::Event;
use crate::events::EventSchedule;
use crate::events::Propagation;
use crate::events::TimedEvent;
use crate::events::TimedEventHandle;
use crate::sparse_set::SparseSet;
use crate::sparse_set::SPARSE_NULL;
use crate::style::Style;
use crate::tree::Tree;

verus! {

broadcast use
    vstd::std_specs::vec::group_vec_axioms,
    vstd::std_specs::vecdeque::group_vec_dequeue_axioms;

/// One registered font: a name and the raw bytes.
pub struct FontEntry {
    pub name: String,
    pub data: Vec<u8>,
}

/// Themes, stylesheet paths and fonts the application registered.
pub struct ResourceManager {
    /// Theme texts, in registration order.
    pub themes: Vec<String>,
    /// Paths of stylesheets the embedder re-reads on reload.
    pub stylesheets: Vec<String>,
    /// Registered fonts; names are unique.
    pub fonts: Vec<FontEntry>,
}

impl ResourceManager {
    /// Is a font of this name registered?
    pub open spec fn has_font(self, name: Seq<char>) -> bool {
        exists|i: int| 0 <= i < self.fonts@.len() && (#[trigger] self.fonts@[i]).name@ == name
    }
}

/// Does the moved sequence hold an entry under handle `x`?
pub open spec fn moved_has_ident<M>(s: Seq<TimedEvent<M>>, x: TimedEventHandle) -> bool {
    exists|i: int| 0 <= i < s.len() && (#[trigger] s[i]).ident == x
}

/// Handlers receive each recipient of an event in propagation order.  They
/// may mutate the event (in particular consume it) and may emit follow-up
/// events into the buffer; those join the queue behind the existing entries.
pub trait EventHandler<M> {
    fn handle(&mut self, recipient: Entity, event: &mut Event<M>, emitted: &mut Vec<Event<M>>);
}

/// The UI state and its frame pipeline.
pub struct Context<M, L: Lens> {
    pub entity_manager: IdManager,
    pub tree: Tree,
    /// The insertion point content builders add children under.
    pub current: Entity,
    /// How many children of `current` were already built this pass.
    pub count: usize,
    /// Per-entity model data and its dependency records.
    pub data: SparseSet<ModelDataStore<L>>,
    /// The immediate FIFO event queue.
    pub event_queue: VecDeque<Event<M>>,
    /// The time-ordered deferred events.
    pub event_schedule: EventSchedule<M>,
    pub style: Style,
    pub cache: CachedData,
    pub captured: Entity,
    pub hovered: Entity,
    pub focused: Entity,
    pub resource_manager: ResourceManager,
}

impl<M, L: Lens> Context<M, L> {
    /// Everything structurally sound, and the tree and the id manager agree
    /// on which entities are alive.
    pub open spec fn wf(self) -> bool {
        &&& self.entity_manager.wf()
        &&& self.tree.wf()
        &&& self.style.wf()
        &&& self.cache.wf()
        &&& self.data.wf()
        &&& self.event_schedule.wf()
        &&& forall|e: Entity| #[trigger] self.tree.contains(e) <==> self.entity_manager.is_live(e)
        &&& forall|d: int|
            0 <= d < self.data.dense@.len() ==> (#[trigger] self.data.dense@[d]).value.wf()
    }

    /// Are all parts other than the event queue unchanged?
    pub open spec fn same_but_queue(self, older: Context<M, L>) -> bool {
        &&& self.entity_manager == older.entity_manager
        &&& self.tree == older.tree
        &&& self.current == older.current
        &&& self.count == older.count
        &&& self.data == older.data
        &&& self.event_schedule == older.event_schedule
        &&& self.style == older.style
        &&& self.cache == older.cache
        &&& self.captured == older.captured
        &&& self.hovered == older.hovered
        &&& self.focused == older.focused
        &&& self.resource_manager == older.resource_manager
    }

    /// Are all parts other than the queue and the schedule unchanged?
    pub open spec fn same_but_events(self, older: Context<M, L>) -> bool {
        &&& self.entity_manager == older.entity_manager
        &&& self.tree == older.tree
        &&& self.current == older.current
        &&& self.count == older.count
        &&& self.data == older.data
        &&& self.style == older.style
        &&& self.cache == older.cache
        &&& self.captured == older.captured
        &&& self.hovered == older.hovered
        &&& self.focused == older.focused
        &&& self.resource_manager == older.resource_manager
    }


    /// Everything except the font list unchanged.
    pub open spec fn same_but_fonts(self, older: Context<M, L>) -> bool {
        &&& self.entity_manager == older.entity_manager
        &&& self.tree == older.tree
        &&& self.current == older.current
        &&& self.count == older.count
        &&& self.data == older.data
        &&& self.event_queue == older.event_queue
        &&& self.event_schedule == older.event_schedule
        &&& self.style == older.style
        &&& self.cache == older.cache
        &&& self.captured == older.captured
        &&& self.hovered == older.hovered
        &&& self.focused == older.focused
        &&& self.resource_manager.themes == older.resource_manager.themes
        &&& self.resource_manager.stylesheets == older.resource_manager.stylesheets
    }

    /// Everything except the style state unchanged.
    pub open spec fn same_but_style(self, older: Context<M, L>) -> bool {
        &&& self.entity_manager == older.entity_manager
        &&& self.tree == older.tree
        &&& self.current == older.current
        &&& self.count == older.count
        &&& self.data == older.data
        &&& self.event_queue == older.event_queue
        &&& self.event_schedule == older.event_schedule
        &&& self.cache == older.cache
        &&& self.captured == older.captured
        &&& self.hovered == older.hovered
        &&& self.focused == older.focused
        &&& self.resource_manager == older.resource_manager
    }

    /// Everything except the style state and the resources unchanged.
    pub open spec fn same_but_style_and_resources(self, older: Context<M, L>) -> bool {
        &&& self.entity_manager == older.entity_manager
        &&& self.tree == older.tree
        &&& self.current == older.current
        &&& self.count == older.count
        &&& self.data == older.data
        &&& self.event_queue == older.event_queue
        &&& self.event_schedule == older.event_schedule
        &&& self.cache == older.cache
        &&& self.captured == older.captured
        &&& self.hovered == older.hovered
        &&& self.focused == older.focused
    }

    /// A fresh context: only the root entity, hovered and focused on the
    /// root, nothing queued or scheduled.
    pub fn new() -> (cx: Context<M, L>)
        ensures
            cx.wf(),
            cx.tree.contains(Entity::spec_root()),
            forall|e: Entity| cx.tree.contains(e) ==> e == Entity::spec_root(),
            cx.current == Entity::spec_root(),
            cx.count == 0,
            cx.event_queue@.len() == 0,
            cx.event_schedule.entries@.len() == 0,
            cx.event_schedule.next_event_id == 0,
            cx.hovered == Entity::spec_root(),
            cx.focused == Entity::spec_root(),
            cx.captured == Entity::spec_null(),
            cx.style.rules@.len() == 0,
            cx.data.dense@.len() == 0,
    {
        let mut cache = CachedData::new();
        cache.add(Entity::root());
        let mut style = Style::new();
        style.add(Entity::root());
        let cx = Context {
            entity_manager: IdManager::new(),
            tree: Tree::new(),
            current: Entity::root(),
            count: 0,
            data: SparseSet::new(),
            event_queue: VecDeque::new(),
            event_schedule: EventSchedule::new(),
            style,
            cache,
            captured: Entity::null(),
            hovered: Entity::root(),
            focused: Entity::root(),
            resource_manager: ResourceManager {
                themes: Vec::new(),
                stylesheets: Vec::new(),
                fonts: Vec::new(),
            },
        };
        proof {
            assert forall|e: Entity| #[trigger] cx.tree.contains(e) implies cx
                .entity_manager.is_live(e) by {}
        }
        cx
    }

    /// Creates a fresh entity and hangs it under `parent`, registering it in
    /// the style and cache stores.  Returns `None` (changing nothing except
    /// possibly a retired id slot) only when the parent is missing or the
    /// depth limit is hit.
    pub fn build_entity(&mut self, parent: Entity) -> (r: Option<Entity>)
        requires
            old(self).wf(),
        ensures
            final(self).wf(),
            match r {
                Some(id) => {
                    &&& !old(self).tree.contains(id)
                    &&& final(self).tree.contains(id)
                    &&& final(self).tree.parent_of(id) == parent
                    &&& final(self).tree.children_of(id).len() == 0
                    &&& final(self).tree.children_of(parent) == old(self).tree.children_of(
                        parent).push(id)
                    &&& forall|x: Entity|
                        #[trigger] final(self).tree.contains(x) <==> old(self).tree.contains(x)
                            || x == id
                    &&& forall|x: Entity|
                        old(self).tree.contains(x) && x != parent ==> {
                            &&& final(self).tree.parent_of(x) == old(self).tree.parent_of(x)
                            &&& final(self).tree.children_of(x) == old(self).tree.children_of(x)
                        }
                    &&& old(self).tree.contains(parent)
                    &&& final(self).event_queue == old(self).event_queue
                    &&& final(self).event_schedule == old(self).event_schedule
                    &&& final(self).data == old(self).data
                    &&& final(self).current == old(self).current
                    &&& final(self).count == old(self).count
                    &&& final(self).style.rules == old(self).style.rules
                },
                None => {
                    &&& (!old(self).tree.contains(parent) || old(self).tree.depth_of(parent)
                        >= crate::tree::MAX_DEPTH)
                    &&& final(self).tree == old(self).tree
                    &&& final(self).style == old(self).style
                    &&& final(self).cache == old(self).cache
                    &&& final(self).data == old(self).data
                    &&& final(self).event_queue == old(self).event_queue
                    &&& final(self).event_schedule == old(self).event_schedule
                },
            },
    {
        if !self.tree.contains_entity(parent) {
            return None;
        }
        let id = self.entity_manager.create();
        proof {
            assert(!old(self).tree.contains(id));
            assert(!self.tree.index_occupied(id.spec_index())) by {
                if self.tree.index_occupied(id.spec_index()) {
                    let i = id.spec_index();
                    assert(self.tree.slots@[i] is Some);
                    let oe = self.tree.slots@[i]->Some_0.entity;
                    assert(oe.index == i);
                    assert(old(self).tree.contains(oe));
                    assert(old(self).entity_manager.is_live(oe));
                    assert(oe.spec_index() != id.spec_index());
                }
            }
        }
        match self.tree.add(id, parent) {
            Ok(()) => {
                self.cache.add(id);
                self.style.add(id);
                proof {
                    assert forall|e: Entity| #[trigger] self.tree.contains(e) implies self
                        .entity_manager.is_live(e) by {}
                    assert forall|e: Entity| self.entity_manager.is_live(e) implies #[trigger] self
                        .tree.contains(e) by {
                        if e != id {
                            assert(old(self).entity_manager.is_live(e));
                        }
                    }
                }
                Some(id)
            },
            Err(_) => {
                // Only the depth limit can fail here; retire the fresh id.
                self.entity_manager.destroy(id);
                proof {
                    assert forall|e: Entity| #[trigger] self.tree.contains(e) implies self
                        .entity_manager.is_live(e) by {
                        assert(old(self).entity_manager.is_live(e));
                        assert(e != id);
                    }
                    assert forall|e: Entity| self.entity_manager.is_live(e) implies #[trigger] self
                        .tree.contains(e) by {}
                }
                None
            },
        }
    }

    /// Queues a message as an upward event from and to the current entity.
    pub fn emit(&mut self, message: M)
        requires
            old(self).wf(),
        ensures
            final(self).wf(),
            final(self).same_but_queue(*old(self)),
            final(self).event_queue@.len() == old(self).event_queue@.len() + 1,
            final(self).event_queue@ == old(self).event_queue@.push(final(self).event_queue@.last()),
            final(self).event_queue@.last() == (Event {
                origin: old(self).current,
                target: old(self).current,
                propagation: Propagation::Up,
                consumable: true,
                consumed: false,
                order: 0,
                trace: false,
                message,
            }),
    {
        let ev = Event::new(message).target(self.current).origin(self.current).propagate(
            Propagation::Up,
        );
        self.event_queue.push_back(ev);
    }

    /// Queues a message directly to `target`, originating from the current
    /// entity.
    pub fn emit_to(&mut self, target: Entity, message: M)
        requires
            old(self).wf(),
        ensures
            final(self).wf(),
            final(self).same_but_queue(*old(self)),
            final(self).event_queue@ == old(self).event_queue@.push(final(self).event_queue@.last()),
            final(self).event_queue@.last() == (Event {
                origin: old(self).current,
                target: target,
                propagation: Propagation::Direct,
                consumable: true,
                consumed: false,
                order: 0,
                trace: false,
                message,
            }),
    {
        let ev = Event::new(message).target(target).origin(self.current).propagate(
            Propagation::Direct,
        );
        self.event_queue.push_back(ev);
    }

    /// Queues an upward event marked for dispatch tracing.
    pub fn emit_trace(&mut self, message: M)
        requires
            old(self).wf(),
        ensures
            final(self).wf(),
            final(self).same_but_queue(*old(self)),
            final(self).event_queue@ == old(self).event_queue@.push(final(self).event_queue@.last()),
            final(self).event_queue@.last() == (Event {
                origin: old(self).current,
                target: old(self).current,
                propagation: Propagation::Up,
                consumable: true,
                consumed: false,
                order: 0,
                trace: true,
                message,
            }),
    {
        let ev = Event::new(message).target(self.current).origin(self.current).propagate(
            Propagation::Up,
        ).trace();
        self.event_queue.push_back(ev);
    }

    /// Schedules `event` to fire at `at` (milliseconds on the caller's
    /// clock), returning a fresh cancellation handle.
    pub fn schedule_event(&mut self, event: Event<M>, at: u64) -> (h: TimedEventHandle)
        requires
            old(self).wf(),
            old(self).event_schedule.next_event_id < usize::MAX,
        ensures
            final(self).wf(),
            final(self).same_but_events(*old(self)),
            final(self).event_queue == old(self).event_queue,
            h == TimedEventHandle(old(self).event_schedule.next_event_id as usize),
            !old(self).event_schedule.contains_handle(h),
            final(self).event_schedule.contains_handle(h),
            final(self).event_schedule.entries@ == old(self).event_schedule.entries@.push(
                TimedEvent { ident: h, event, time: at },
            ),
            final(self).event_schedule.next_event_id == old(self).event_schedule.next_event_id + 1,
    {
        self.event_schedule.schedule(event, at)
    }

    /// Schedules a message as an upward event from and to the current entity.
    pub fn schedule_emit(&mut self, message: M, at: u64) -> (h: TimedEventHandle)
        requires
            old(self).wf(),
            old(self).event_schedule.next_event_id < usize::MAX,
        ensures
            final(self).wf(),
            final(self).same_but_events(*old(self)),
            final(self).event_queue == old(self).event_queue,
            h == TimedEventHandle(old(self).event_schedule.next_event_id as usize),
            final(self).event_schedule.entries@ == old(self).event_schedule.entries@.push(
                TimedEvent {
                    ident: h,
                    event: Event {
                        origin: old(self).current,
                        target: old(self).current,
                        propagation: Propagation::Up,
                        consumable: true,
                        consumed: false,
                        order: 0,
                        trace: false,
                        message,
                    },
                    time: at,
                },
            ),
            final(self).event_schedule.next_event_id == old(self).event_schedule.next_event_id + 1,
    {
        let ev = Event::new(message).target(self.current).origin(self.current).propagate(
            Propagation::Up,
        );
        self.schedule_event(ev, at)
    }

    /// Schedules a message directly to `target`.
    pub fn schedule_emit_to(&mut self, message: M, target: Entity, at: u64) -> (h: TimedEventHandle)
        requires
            old(self).wf(),
            old(self).event_schedule.next_event_id < usize::MAX,
        ensures
            final(self).wf(),
            final(self).same_but_events(*old(self)),
            final(self).event_queue == old(self).event_queue,
            h == TimedEventHandle(old(self).event_schedule.next_event_id as usize),
            final(self).event_schedule.entries@ == old(self).event_schedule.entries@.push(
                TimedEvent {
                    ident: h,
                    event: Event {
                        origin: old(self).current,
                        target: target,
                        propagation: Propagation::Direct,
                        consumable: true,
                        consumed: false,
                        order: 0,
                        trace: false,
                        message,
                    },
                    time: at,
                },
            ),
            final(self).event_schedule.next_event_id == old(self).event_schedule.next_event_id + 1,
    {
        let ev = Event::new(message).target(target).origin(self.current).propagate(
            Propagation::Direct,
        );
        self.schedule_event(ev, at)
    }

    /// Cancels the scheduled event under `handle`.  Succeeds exactly when
    /// such an entry exists; a second cancel of the same handle fails with no
    /// effect, and the handle can never fire afterwards.
    pub fn cancel_scheduled(&mut self, handle: TimedEventHandle) -> (r: Result<(), ()>)
        requires
            old(self).wf(),
        ensures
            final(self).wf(),
            final(self).same_but_events(*old(self)),
            final(self).event_queue == old(self).event_queue,
            !final(self).event_schedule.contains_handle(handle),
            final(self).event_schedule.next_event_id == old(self).event_schedule.next_event_id,
            match r {
                Ok(()) => {
                    &&& old(self).event_schedule.contains_handle(handle)
                    &&& final(self).event_schedule.entries@.len() == old(
                        self).event_schedule.entries@.len() - 1
                    &&& forall|x: TimedEventHandle|
                        #[trigger] final(self).event_schedule.contains_handle(x) <==> (old(
                            self).event_schedule.contains_handle(x) && x != handle)
                    // Every surviving entry is one of the old entries, payload
                    // included; with distinct handles that retains each other
                    // entry exactly once.
                    &&& forall|i: int|
                        0 <= i < final(self).event_schedule.entries@.len() ==> old(
                            self).event_schedule.entries@.contains(
                            #[trigger] final(self).event_schedule.entries@[i],
                        )
                },
                Err(()) => !old(self).event_schedule.contains_handle(handle) && final(
                    self).event_schedule == old(self).event_schedule,
            },
    {
        self.event_schedule.cancel(handle)
    }

    /// Moves every scheduled event whose fire time has passed into the
    /// immediate queue, soonest first (ties in allocation order).  Returns
    /// the moved entries as a ghost sequence.
    pub fn tick(&mut self, now: u64) -> (moved: Ghost<Seq<TimedEvent<M>>>)
        requires
            old(self).wf(),
        ensures
            final(self).wf(),
            final(self).same_but_events(*old(self)),
            // Exactly the not-yet-due entries stay scheduled.
            forall|x: TimedEventHandle|
                #[trigger] final(self).event_schedule.contains_handle(x) <==> (old(
                    self).event_schedule.contains_handle(x) && !moved_has_ident(moved@, x)),
            forall|i: int|
                0 <= i < final(self).event_schedule.entries@.len() ==> (#[trigger] final(
                    self).event_schedule.entries@[i]).time > now,
            // The due entries join the queue in fire-time order.
            final(self).event_queue@ == old(self).event_queue@ + moved@.map_values(
                |te: TimedEvent<M>| te.event,
            ),
            forall|i: int| 0 <= i < moved@.len() ==> (#[trigger] moved@[i]).time <= now,
            forall|i: int, j: int|
                0 <= i < j < moved@.len() ==> ((#[trigger] moved@[i]).time < (
                #[trigger] moved@[j]).time || (moved@[i].time == moved@[j].time
                    && moved@[i].ident.0 < moved@[j].ident.0)),
            // Moved and remaining entries are the old scheduled entries
            // themselves, payload included: nothing is invented, and with
            // distinct handles each entry moves or stays exactly once.
            forall|i: int|
                0 <= i < moved@.len() ==> old(self).event_schedule.entries@.contains(
                    #[trigger] moved@[i],
                ),
            forall|i: int|
                0 <= i < final(self).event_schedule.entries@.len() ==> old(
                    self).event_schedule.entries@.contains(
                    #[trigger] final(self).event_schedule.entries@[i],
                ),
            forall|i: int|
                0 <= i < moved@.len() ==> old(self).event_schedule.contains_handle(
                    (#[trigger] moved@[i]).ident,
                ),
            final(self).event_schedule.next_event_id == old(self).event_schedule.next_event_id,
    {
        let ghost mut moved: Seq<TimedEvent<M>> = Seq::empty();
        proof {
            assert(self.event_queue@ =~= old(self).event_queue@ + moved.map_values(
                |te: TimedEvent<M>| te.event,
            ));
        }
        loop
            invariant
                self.wf(),
                self.same_but_events(*old(self)),
                self.event_schedule.next_event_id == old(self).event_schedule.next_event_id,
                self.event_queue@ == old(self).event_queue@ + moved.map_values(
                    |te: TimedEvent<M>| te.event,
                ),
                forall|i: int| 0 <= i < moved.len() ==> (#[trigger] moved[i]).time <= now,
                forall|i: int, j: int|
                    0 <= i < j < moved.len() ==> ((#[trigger] moved[i]).time < (
                    #[trigger] moved[j]).time || (moved[i].time == moved[j].time
                        && moved[i].ident.0 < moved[j].ident.0)),
                forall|i: int|
                    0 <= i < moved.len() ==> old(self).event_schedule.contains_handle(
                        (#[trigger] moved[i]).ident,
                    ),
                forall|i: int|
                    0 <= i < moved.len() ==> old(self).event_schedule.entries@.contains(
                        #[trigger] moved[i],
                    ),
                forall|i: int|
                    0 <= i < self.event_schedule.entries@.len() ==> old(
                        self).event_schedule.entries@.contains(
                        #[trigger] self.event_schedule.entries@[i],
                    ),
                forall|x: TimedEventHandle|
                    #[trigger] self.event_schedule.contains_handle(x) <==> (old(
                        self).event_schedule.contains_handle(x) && !moved_has_ident(moved, x)),
                // Entries still scheduled and due come after everything moved.
                forall|i: int, k: int|
                    0 <= i < moved.len() && 0 <= k < self.event_schedule.entries@.len() && (
                    #[trigger] self.event_schedule.entries@[k]).time <= now ==> ((
                    #[trigger] moved[i]).time < self.event_schedule.entries@[k].time || (
                    moved[i].time == self.event_schedule.entries@[k].time && moved[i].ident.0
                        < self.event_schedule.entries@[k].ident.0)),
            ensures
                self.wf(),
                self.same_but_events(*old(self)),
                self.event_schedule.next_event_id == old(self).event_schedule.next_event_id,
                self.event_queue@ == old(self).event_queue@ + moved.map_values(
                    |te: TimedEvent<M>| te.event,
                ),
                forall|i: int| 0 <= i < moved.len() ==> (#[trigger] moved[i]).time <= now,
                forall|i: int, j: int|
                    0 <= i < j < moved.len() ==> ((#[trigger] moved[i]).time < (
                    #[trigger] moved[j]).time || (moved[i].time == moved[j].time
                        && moved[i].ident.0 < moved[j].ident.0)),
                forall|i: int|
                    0 <= i < moved.len() ==> old(self).event_schedule.contains_handle(
                        (#[trigger] moved[i]).ident,
                    ),
                forall|i: int|
                    0 <= i < moved.len() ==> old(self).event_schedule.entries@.contains(
                        #[trigger] moved[i],
                    ),
                forall|i: int|
                    0 <= i < self.event_schedule.entries@.len() ==> old(
                        self).event_schedule.entries@.contains(
                        #[trigger] self.event_schedule.entries@[i],
                    ),
                forall|x: TimedEventHandle|
                    #[trigger] self.event_schedule.contains_handle(x) <==> (old(
                        self).event_schedule.contains_handle(x) && !moved_has_ident(moved, x)),
                forall|k: int|
                    0 <= k < self.event_schedule.entries@.len() ==> (#[trigger] self
                    .event_schedule.entries@[k]).time > now,
            decreases self.event_schedule.entries@.len(),
        {
            let ghost pre_sched = self.event_schedule;
            let ghost pre_queue = self.event_queue@;
            match self.event_schedule.pop_due(now) {
                Some(te) => {
                    let ghost te_snap = TimedEvent { ident: te.ident, event: te.event, time: te.time };
                    let ev = te.event;
                    self.event_queue.push_back(ev);
                    proof {
                        let m2 = moved.push(te_snap);
                        assert(pre_sched.entries@.contains(te_snap)) by {
                            assert(te_snap == TimedEvent { ident: te.ident, event: te_snap.event, time: te.time });
                        }
                        let ko = choose|k: int|
                            0 <= k < pre_sched.entries@.len() && pre_sched.entries@[k] == te_snap;
                        assert forall|i: int| 0 <= i < moved.len() implies ((#[trigger] moved[i]).time
                            < te_snap.time || (moved[i].time == te_snap.time && moved[i].ident.0
                            < te_snap.ident.0)) by {
                            assert(pre_sched.entries@[ko].time <= now);
                        }
                        assert forall|i: int, k: int|
                            0 <= i < m2.len() && 0 <= k < self.event_schedule.entries@.len() && (
                            #[trigger] self.event_schedule.entries@[k]).time <= now implies ((
                            #[trigger] m2[i]).time < self.event_schedule.entries@[k].time || (
                            m2[i].time == self.event_schedule.entries@[k].time && m2[i].ident.0
                                < self.event_schedule.entries@[k].ident.0)) by {
                            let cur = self.event_schedule.entries@[k];
                            assert(pre_sched.entries@.contains(cur));
                            let kc = choose|kk: int|
                                0 <= kk < pre_sched.entries@.len() && pre_sched.entries@[kk] == cur;
                            assert(self.event_schedule.contains_handle(cur.ident)) by {
                                assert(self.event_schedule.entries@[k].ident == cur.ident);
                            }
                            assert(cur.ident != te_snap.ident);
                            if i < moved.len() {
                                assert(pre_sched.entries@[kc].time <= now);
                            } else {
                                assert(m2[i] == te_snap);
                                assert(pre_sched.entries@[kc].ident != te_snap.ident);
                            }
                        }
                        assert(m2.map_values(|t: TimedEvent<M>| t.event) =~= moved.map_values(
                            |t: TimedEvent<M>| t.event,
                        ).push(te_snap.event));
                        assert(self.event_queue@ =~= old(self).event_queue@ + m2.map_values(
                            |t: TimedEvent<M>| t.event,
                        ));
                        assert forall|x: TimedEventHandle|
                            #[trigger] self.event_schedule.contains_handle(x) implies (old(
                            self).event_schedule.contains_handle(x) && !moved_has_ident(
                            m2,
                            x,
                        )) by {
                            assert(pre_sched.contains_handle(x) && x != te.ident);
                            if moved_has_ident(m2, x) {
                                let i = choose|i: int|
                                    0 <= i < m2.len() && m2[i].ident == x;
                                assert(i < moved.len());
                                assert(moved_has_ident(moved, x));
                            }
                        }
                        assert forall|x: TimedEventHandle|
                            (old(self).event_schedule.contains_handle(x) && !moved_has_ident(
                                m2,
                                x,
                            )) implies #[trigger] self.event_schedule.contains_handle(x) by {
                            assert(!moved_has_ident(moved, x)) by {
                                if moved_has_ident(moved, x) {
                                    let i = choose|i: int|
                                        0 <= i < moved.len() && moved[i].ident == x;
                                    assert(m2[i].ident == x);
                                }
                            }
                            assert(pre_sched.contains_handle(x));
                            assert(x != te.ident) by {
                                assert(m2[m2.len() - 1].ident == te.ident);
                            }
                        }
                        assert forall|i: int| 0 <= i < m2.len() implies old(
                            self).event_schedule.entries@.contains(#[trigger] m2[i]) by {
                            if i < moved.len() {
                            } else {
                                assert(m2[i] == te_snap);
                                let kk = choose|kk: int|
                                    0 <= kk < pre_sched.entries@.len() && pre_sched.entries@[kk]
                                        == te_snap;
                                assert(old(self).event_schedule.entries@.contains(
                                    pre_sched.entries@[kk],
                                ));
                            }
                        }
                        assert forall|i: int|
                            0 <= i < self.event_schedule.entries@.len() implies old(
                            self).event_schedule.entries@.contains(
                            #[trigger] self.event_schedule.entries@[i],
                        ) by {
                            assert(pre_sched.entries@.contains(self.event_schedule.entries@[i]));
                            let kk = choose|kk: int|
                                0 <= kk < pre_sched.entries@.len() && pre_sched.entries@[kk]
                                    == self.event_schedule.entries@[i];
                            assert(old(self).event_schedule.entries@.contains(
                                pre_sched.entries@[kk],
                            ));
                        }
                        moved = m2;
                    }
                },
                None => {
                    break;
                },
            }
        }
        Ghost(moved)
    }
}

} // verus!

verus! {

impl<M, L: Lens> Context<M, L> {
    /// The recipients of an event: nobody if the target is gone (the event is
    /// dropped silently), only the target for direct propagation, and the
    /// target followed by its ancestors up to the root for upward
    /// propagation.
    pub open spec fn spec_chain_len(self, target: Entity, propagation: Propagation) -> int {
        if !self.tree.contains(target) {
            0
        } else if propagation == Propagation::Direct {
            1
        } else {
            self.tree.depth_of(target) + 1
        }
    }

    /// The recipient chain itself: the target, then (for upward propagation)
    /// its ancestors in order up to and including the root.
    pub open spec fn spec_chain(self, target: Entity, propagation: Propagation) -> Seq<Entity> {
        if !self.tree.contains(target) {
            Seq::empty()
        } else if propagation == Propagation::Direct {
            seq![target]
        } else {
            self.tree.spec_ancestor_chain(target)
        }
    }

    /// Computes the recipient chain of an event.
    pub fn dispatch_chain(&self, target: Entity, propagation: Propagation) -> (chain: Vec<Entity>)
        requires
            self.wf(),
        ensures
            chain@ == self.spec_chain(target, propagation),
            chain@.len() == self.spec_chain_len(target, propagation),
            chain@.len() > 0 ==> chain@[0] == target,
            propagation == Propagation::Up && self.tree.contains(target) ==> {
                &&& forall|i: int|
                    0 <= i < chain@.len() ==> self.tree.contains(#[trigger] chain@[i])
                &&& forall|i: int|
                    0 <= i < chain@.len() - 1 ==> self.tree.parent_of(#[trigger] chain@[i])
                        == chain@[i + 1]
                &&& chain@[chain@.len() - 1] == Entity::spec_root()
            },
    {
        if !self.tree.contains_entity(target) {
            let chain: Vec<Entity> = Vec::new();
            proof {
                assert(chain@ =~= self.spec_chain(target, propagation));
            }
            return chain;
        }
        match propagation {
            Propagation::Direct => {
                let mut chain: Vec<Entity> = Vec::new();
                chain.push(target);
                proof {
                    assert(chain@ =~= self.spec_chain(target, propagation));
                }
                chain
            },
            Propagation::Up => self.tree.ancestor_chain(target),
        }
    }

    /// Dispatches one event: hands it to the handler for each recipient in
    /// propagation order, stopping right after the recipient whose handler
    /// leaves the event consumed (for a consumable event).  Returns the
    /// recipients actually delivered to, plus, as ghost data, the event's
    /// state after each step and whether it counted as consumed then.
    /// Events the handler emitted join the back of the queue.
    pub fn dispatch_event<H: EventHandler<M>>(&mut self, event: Event<M>, handler: &mut H) -> (r: (
        Vec<Entity>,
        Ghost<Seq<bool>>,
        Ghost<Seq<Event<M>>>,
    ))
        requires
            old(self).wf(),
        ensures
            final(self).wf(),
            final(self).same_but_queue(*old(self)),
            // The old queue is untouched at the front; emitted events follow.
            final(self).event_queue@.len() >= old(self).event_queue@.len(),
            final(self).event_queue@.take(old(self).event_queue@.len() as int) == old(
                self).event_queue@,
            // Delivery is exactly a prefix of the recipient chain, cut at
            // the first recipient after which the event is consumed.
            r.0@ == old(self).spec_chain(event.target, event.propagation).take(
                r.0@.len() as int,
            ),
            r.0@.len() <= old(self).spec_chain_len(event.target, event.propagation),
            r.1@.len() == r.0@.len(),
            old(self).spec_chain_len(event.target, event.propagation) > 0 ==> (r.0@.len() > 0
                && r.0@[0] == event.target),
            forall|i: int| 0 <= i < r.0@.len() - 1 ==> !(#[trigger] r.1@[i]),
            r.0@.len() < old(self).spec_chain_len(event.target, event.propagation) ==> r.1@[
                r.0@.len() - 1],
            !old(self).tree.contains(event.target) ==> r.0@.len() == 0,
            // The consumption flags are the event's own state after each
            // handler ran: the snapshots tie them to the event value.
            r.2@.len() == r.0@.len(),
            forall|i: int|
                0 <= i < r.2@.len() ==> (#[trigger] r.1@[i]) == ((#[trigger] r.2@[i]).consumable
                    && r.2@[i].consumed),
    {
        let chain = self.dispatch_chain(event.target, event.propagation);
        let mut event = event;
        let mut delivered: Vec<Entity> = Vec::new();
        let ghost mut flags: Seq<bool> = Seq::empty();
        let ghost mut snaps: Seq<Event<M>> = Seq::empty();
        let mut buf: Vec<Event<M>> = Vec::new();
        let n = chain.len();
        let mut i: usize = 0;
        let mut halted = false;
        while i < n && !halted
            invariant
                n == chain@.len(),
                i <= n,
                delivered@ == chain@.take(i as int),
                flags.len() == i,
                snaps.len() == i,
                forall|j: int| 0 <= j < i - 1 ==> !(#[trigger] flags[j]),
                forall|j: int|
                    0 <= j < i ==> (#[trigger] flags[j]) == ((#[trigger] snaps[j]).consumable
                        && snaps[j].consumed),
                halted ==> i > 0 && flags[i - 1],
                !halted && i > 0 ==> !flags[i - 1],
            decreases n - i,
        {
            handler.handle(chain[i], &mut event, &mut buf);
            delivered.push(chain[i]);
            let consumed_now = event.consumable && event.consumed;
            proof {
                flags = flags.push(consumed_now);
                snaps = snaps.push(event);
                assert(delivered@ =~= chain@.take(i + 1));
            }
            if consumed_now {
                halted = true;
            }
            i += 1;
        }
        // Emitted events join the back of the queue, preserving FIFO order.
        let ghost queue0 = self.event_queue@;
        let ghost bufsnap = buf@;
        let nb = buf.len();
        let mut k: usize = 0;
        proof {
            assert(self.event_queue@ =~= queue0 + bufsnap.take(0));
        }
        while k < nb
            invariant
                self.wf(),
                self.same_but_queue(*old(self)),
                nb == bufsnap.len(),
                k <= nb,
                buf@ == bufsnap.skip(k as int),
                queue0 == old(self).event_queue@,
                self.event_queue@ == queue0 + bufsnap.take(k as int),
            decreases nb - k,
        {
            let ev = buf.remove(0);
            self.event_queue.push_back(ev);
            proof {
                assert(buf@ =~= bufsnap.skip(k + 1));
                assert(self.event_queue@ =~= queue0 + bufsnap.take(k + 1));
            }
            k += 1;
        }
        proof {
            assert(self.event_queue@.take(queue0.len() as int) =~= queue0);
        }
        (delivered, Ghost(flags), Ghost(snaps))
    }

    /// Flushes up to `budget` events: repeatedly pops the front of the queue
    /// and dispatches it; events emitted during dispatch are processed in the
    /// same flush, in FIFO order.  Returns how many events were dispatched
    /// plus, as a ghost trace, the dispatched events themselves in dispatch
    /// order; a count below the budget means the queue ran empty.
    pub fn flush_events<H: EventHandler<M>>(&mut self, handler: &mut H, budget: usize) -> (r: (
        usize,
        Ghost<Seq<Event<M>>>,
    ))
        requires
            old(self).wf(),
        ensures
            final(self).wf(),
            final(self).same_but_queue(*old(self)),
            r.0 <= budget,
            r.0 < budget ==> final(self).event_queue@.len() == 0,
            r.1@.len() == r.0,
            // FIFO: the queued events go first, in queue order; only then
            // come the events the handlers emitted during this flush.
            r.0 <= old(self).event_queue@.len() ==> r.1@ == old(self).event_queue@.take(
                r.0 as int,
            ),
            r.0 >= old(self).event_queue@.len() ==> r.1@.take(
                old(self).event_queue@.len() as int,
            ) == old(self).event_queue@,
    {
        let ghost oldq = old(self).event_queue@;
        let ghost mut trace: Seq<Event<M>> = Seq::empty();
        let mut processed: usize = 0;
        proof {
            assert(trace =~= oldq.take(0));
        }
        while processed < budget
            invariant
                self.wf(),
                self.same_but_queue(*old(self)),
                oldq == old(self).event_queue@,
                processed <= budget,
                trace.len() == processed,
                processed <= oldq.len() ==> {
                    &&& trace == oldq.take(processed as int)
                    &&& self.event_queue@.len() >= oldq.len() - processed
                    &&& self.event_queue@.take(oldq.len() - processed) == oldq.skip(
                        processed as int,
                    )
                },
                processed >= oldq.len() ==> trace.take(oldq.len() as int) == oldq,
            ensures
                self.wf(),
                self.same_but_queue(*old(self)),
                processed <= budget,
                trace.len() == processed,
                processed < budget ==> self.event_queue@.len() == 0,
                processed <= oldq.len() ==> trace == oldq.take(processed as int),
                processed >= oldq.len() ==> trace.take(oldq.len() as int) == oldq,
            decreases budget - processed,
        {
            let ghost qpre = self.event_queue@;
            match self.event_queue.pop_front() {
                Some(event) => {
                    let ghost evsnap = event;
                    let ghost q1 = self.event_queue@;
                    let _ = self.dispatch_event(event, handler);
                    proof {
                        let p = processed as int;
                        if p < oldq.len() {
                            assert(evsnap == qpre[0]);
                            assert(evsnap == oldq[p]) by {
                                assert(qpre.take(oldq.len() - p)[0] == oldq.skip(p)[0]);
                            }
                            assert(trace.push(evsnap) =~= oldq.take(p + 1));
                            let m = oldq.len() - p - 1;
                            assert(q1.take(m) =~= qpre.take(oldq.len() - p).skip(1));
                            assert(qpre.take(oldq.len() - p).skip(1) =~= oldq.skip(p).skip(1));
                            assert(oldq.skip(p).skip(1) =~= oldq.skip(p + 1));
                            assert(self.event_queue@.take(q1.len() as int) == q1);
                            assert(self.event_queue@.take(m) =~= self.event_queue@.take(
                                q1.len() as int,
                            ).take(m));
                            assert(self.event_queue@.take(m) =~= oldq.skip(p + 1));
                        } else {
                            assert(trace.push(evsnap).take(oldq.len() as int) =~= trace.take(
                                oldq.len() as int,
                            ));
                        }
                        trace = trace.push(evsnap);
                    }
                    processed += 1;
                },
                None => {
                    proof {
                        if (processed as int) < oldq.len() {
                            assert(self.event_queue@.len() >= oldq.len() - processed);
                            assert(false);
                        }
                    }
                    break ;
                },
            }
        }
        (processed, Ghost(trace))
    }

    /// The law behind consumption: when the handler on the first recipient
    /// (the target) leaves a consumable event consumed, no other recipient is
    /// ever delivered to — the delivered prefix stops at the target.  The
    /// premises are exactly what [`Context::dispatch_event`] ensures about
    /// its delivered list and consumption flags.
    pub proof fn lemma_consume_on_target_halts(
        chain_len: int,
        delivered: Seq<Entity>,
        flags: Seq<bool>,
    )
        requires
            delivered.len() == flags.len(),
            delivered.len() <= chain_len,
            forall|i: int| 0 <= i < delivered.len() - 1 ==> !(#[trigger] flags[i]),
            delivered.len() >= 1,
            flags[0],
        ensures
            delivered.len() == 1,
    {
    }

    /// Index of the nearest entity, from `e` towards the root, that holds
    /// model data; `None` when no ancestor does.  Shadowing resolves to the
    /// nearest holder, deterministically.
    pub open spec fn spec_nearest_model(self, e: Entity) -> Option<usize>
        decreases (if self.tree.contains(e) { self.tree.depth_of(e) } else { 0 }),
        when self.tree.wf()
    {
        if !self.tree.contains(e) {
            None
        } else if self.data.contains_key(e.index) {
            Some(e.index)
        } else if e == Entity::spec_root() {
            None
        } else {
            self.spec_nearest_model(self.tree.parent_of(e))
        }
    }

    /// The nearest model holder depends only on the tree and on which
    /// entities hold data, never on the records themselves; registering an
    /// observer therefore leaves it unchanged.
    pub proof fn lemma_nearest_model_same(a: Context<M, L>, b: Context<M, L>, e: Entity)
        requires
            a.tree.wf(),
            a.tree == b.tree,
            a.data.as_map().dom() == b.data.as_map().dom(),
        ensures
            a.spec_nearest_model(e) == b.spec_nearest_model(e),
        decreases (if a.tree.contains(e) {
            a.tree.depth_of(e)
        } else {
            0
        }),
    {
        a.data.lemma_as_map_point(e.index);
        b.data.lemma_as_map_point(e.index);
        if a.tree.contains(e) && !a.data.contains_key(e.index) && e != Entity::spec_root() {
            Self::lemma_nearest_model_same(a, b, a.tree.parent_of(e));
        }
    }

    /// The model data visible from the current entity: the nearest ancestor
    /// (including itself) holding model data.
    pub fn data(&self) -> (r: Option<&<L as Lens>::Source>)
        requires
            self.wf(),
        ensures
            match r {
                Some(m) => self.spec_nearest_model(self.current) is Some && self.data.contains_key(
                    self.spec_nearest_model(self.current)->Some_0,
                ) && *m == self.data.value_of(self.spec_nearest_model(self.current)->Some_0).model,
                None => self.spec_nearest_model(self.current) is None,
            },
    {
        self.data_at(self.current)
    }

    /// [`Context::data`], from an explicit start entity.
    pub fn data_at(&self, e: Entity) -> (r: Option<&<L as Lens>::Source>)
        requires
            self.wf(),
        ensures
            match r {
                Some(m) => self.spec_nearest_model(e) is Some && self.data.contains_key(
                    self.spec_nearest_model(e)->Some_0,
                ) && *m == self.data.value_of(self.spec_nearest_model(e)->Some_0).model,
                None => self.spec_nearest_model(e) is None,
            },
        decreases (if self.tree.contains(e) { self.tree.depth_of(e) } else { 0 }),
    {
        if !self.tree.contains_entity(e) {
            return None;
        }
        match self.data.get(e.index()) {
            Some(mds) => Some(&mds.model),
            None => {
                if e.index() == 0 {
                    proof {
                        assert(e == Entity::spec_root());
                    }
                    None
                } else {
                    proof {
                        assert(e != Entity::spec_root());
                    }
                    let p = match &self.tree.slots[e.index()] {
                        Some(node) => node.parent,
                        None => Entity::null(),
                    };
                    proof {
                        assert(p == self.tree.parent_of(e));
                    }
                    self.data_at(p)
                }
            },
        }
    }

    /// Registers a font under a name.  A duplicate name is rejected: the
    /// store keeps the font it already has.
    pub fn add_font_mem(&mut self, name: &str, data: &[u8])
        requires
            old(self).wf(),
        ensures
            final(self).wf(),
            old(self).resource_manager.has_font(name@) ==> *final(self) == *old(self),
            !old(self).resource_manager.has_font(name@) ==> {
                &&& final(self).resource_manager.fonts@.len() == old(
                    self).resource_manager.fonts@.len() + 1
                &&& final(self).resource_manager.fonts@.last().name@ == name@
                &&& final(self).resource_manager.fonts@.last().data@ == data@
                &&& final(self).resource_manager.fonts@.take(
                    old(self).resource_manager.fonts@.len() as int,
                ) == old(self).resource_manager.fonts@
                &&& final(self).same_but_fonts(*old(self))
            },
    {
        let n = self.resource_manager.fonts.len();
        let mut i: usize = 0;
        while i < n
            invariant
                old(self).wf(),
                *self == *old(self),
                n == self.resource_manager.fonts@.len(),
                i <= n,
                forall|j: int|
                    0 <= j < i ==> (#[trigger] self.resource_manager.fonts@[j]).name@ != name@,
            decreases n - i,
        {
            let fname: &str = &self.resource_manager.fonts[i].name;
            if crate::color::str_eq(fname, name) {
                proof {
                    assert(old(self).resource_manager.has_font(name@)) by {
                        assert(old(self).resource_manager.fonts@[i as int].name@ == name@);
                    }
                }
                return ;
            }
            i += 1;
        }
        proof {
            assert(!old(self).resource_manager.has_font(name@));
        }
        let entry = FontEntry { name: name.to_owned(), data: vstd::slice::slice_to_vec(data) };
        self.resource_manager.fonts.push(entry);
        proof {
            assert(self.resource_manager.fonts@.take(
                old(self).resource_manager.fonts@.len() as int,
            ) =~= old(self).resource_manager.fonts@);
        }
    }

    /// Sets the global default font name.
    pub fn set_default_font(&mut self, name: &str)
        requires
            old(self).wf(),
        ensures
            final(self).wf(),
            final(self).style.default_font@ == name@,
            final(self).style == (Style { default_font: final(self).style.default_font, ..old(self).style }),
            final(self).same_but_style(*old(self)),
    {
        self.style.default_font = name.to_owned();
    }

    /// Registers a theme text: parses it, appending its rules, and marks the
    /// style pass dirty.  Errors of malformed parts are returned; the sheet
    /// still applies.
    pub fn add_theme(&mut self, theme: &str) -> (errors: Vec<crate::parser::CustomParseError>)
        requires
            old(self).wf(),
            old(self).style.rules@.len() <= 1000000000,
        ensures
            final(self).wf(),
            final(self).resource_manager.themes@.len() == old(self).resource_manager.themes@.len()
                + 1,
            final(self).resource_manager.themes@.last()@ == theme@,
            final(self).resource_manager.themes@.take(
                old(self).resource_manager.themes@.len() as int,
            ) == old(self).resource_manager.themes@,
            final(self).resource_manager.stylesheets == old(self).resource_manager.stylesheets,
            final(self).resource_manager.fonts == old(self).resource_manager.fonts,
            final(self).style.needs_restyle,
            final(self).style.rules@.take(old(self).style.rules@.len() as int) == old(
                self).style.rules@,
            final(self).style.match_env() == old(self).style.match_env(),
            final(self).style.maps() == old(self).style.maps(),
            final(self).same_but_style_and_resources(*old(self)),
            // The appended rules and the reported errors are exactly the
            // parse of the theme text.
            exists|toks: Seq<crate::parser::Token>|
                #![auto]
                toks.map_values(|t: crate::parser::Token| crate::parser::tok_view(t))
                    == crate::parser::spec_tokenize(theme@) && crate::parser::spec_parse_rules(
                    toks,
                    old(self).style.rules@.len() as int,
                ) == (
                    final(self).style.rules@.skip(old(self).style.rules@.len() as int).map_values(
                        |r: crate::style_types::StyleRule| crate::parser::rule_view(r),
                    ),
                    errors@.map_values(
                        |e: crate::parser::CustomParseError| crate::parser::err_view(e),
                    ),
                ),
    {
        self.resource_manager.themes.push(theme.to_owned());
        let errors = self.style.parse_theme(theme);
        proof {
            assert(self.resource_manager.themes@.take(
                old(self).resource_manager.themes@.len() as int,
            ) =~= old(self).resource_manager.themes@);
        }
        errors
    }

    /// Rebuilds the rule list from the registered themes, in registration
    /// order, and marks the style pass dirty.  Always succeeds; errors of
    /// malformed parts are collected and returned in the `Ok` value.
    pub fn reload_styles(&mut self) -> (r: Result<Vec<crate::parser::CustomParseError>, ()>)
        requires
            old(self).wf(),
        ensures
            final(self).wf(),
            r is Ok,
            final(self).style.needs_restyle || old(self).resource_manager.themes@.len() == 0,
            final(self).style.match_env() == old(self).style.match_env(),
            final(self).style.maps() == old(self).style.maps(),
            final(self).resource_manager.themes@ == old(self).resource_manager.themes@,
            final(self).resource_manager.stylesheets == old(self).resource_manager.stylesheets,
            final(self).resource_manager.fonts == old(self).resource_manager.fonts,
            final(self).same_but_style_and_resources(*old(self)),
    {
        let mut errors: Vec<crate::parser::CustomParseError> = Vec::new();
        self.style.rules.clear();
        let nt = self.resource_manager.themes.len();
        let mut i: usize = 0;
        while i < nt
            invariant
                old(self).wf(),
                self.wf(),
                nt == self.resource_manager.themes@.len(),
                i <= nt,
                self.resource_manager.themes@ == old(self).resource_manager.themes@,
                self.resource_manager.stylesheets == old(self).resource_manager.stylesheets,
                self.resource_manager.fonts == old(self).resource_manager.fonts,
                self.style.match_env() == old(self).style.match_env(),
                self.style.maps() == old(self).style.maps(),
                self.style.rules@.len() <= 2000000000,
                self.same_but_style_and_resources(*old(self)),
                i > 0 ==> self.style.needs_restyle,
            decreases nt - i,
        {
            if self.style.rules.len() >= 1000000000 {
                break ;
            }
            let mut theme: String = String::new();
            core::mem::swap(&mut theme, &mut self.resource_manager.themes[i]);
            let mut errs = self.style.parse_theme(theme.as_str());
            core::mem::swap(&mut theme, &mut self.resource_manager.themes[i]);
            let ne = errs.len();
            let mut k: usize = 0;
            while k < ne
                invariant
                    ne == errs@.len() + k,
                    k <= ne,
                decreases ne - k,
            {
                let e = errs.remove(0);
                errors.push(e);
                k += 1;
            }
            proof {
                assert(self.resource_manager.themes@ =~= old(self).resource_manager.themes@);
            }
            i += 1;
        }
        self.style.needs_restyle = true;
        Ok(errors)
    }

    /// Drops every registered theme and the rules parsed from them, and marks
    /// the style pass dirty.
    pub fn remove_user_themes(&mut self)
        requires
            old(self).wf(),
        ensures
            final(self).wf(),
            final(self).resource_manager.themes@.len() == 0,
            final(self).resource_manager.stylesheets == old(self).resource_manager.stylesheets,
            final(self).resource_manager.fonts == old(self).resource_manager.fonts,
            final(self).style.rules@.len() == 0,
            final(self).style.needs_restyle,
            final(self).style == (Style { rules: final(self).style.rules, needs_restyle: true, ..old(self).style }),
            final(self).same_but_style_and_resources(*old(self)),
    {
        self.resource_manager.themes.clear();
        self.style.rules.clear();
        self.style.needs_restyle = true;
        proof {
            assert(self.style.rules@ =~= Seq::<crate::style_types::StyleRule>::empty());
        }
    }
}

} // verus!

verus! {

/// Is `k` the index of an entity in the branch of `e` (including `e`)?
pub open spec fn in_branch(t: Tree, e: Entity, k: usize) -> bool {
    exists|x: Entity| #[trigger] t.is_descendant(x, e) && x.index == k
}

/// Is `o` a descendant of one of `roots`?
pub open spec fn desc_of_any(t: Tree, roots: Seq<Entity>, o: Entity) -> bool {
    exists|j: int| 0 <= j < roots.len() && t.is_descendant(o, #[trigger] roots[j])
}

/// `newer` is `older` with every observer lying in the branch of one of
/// `roots` (as of tree `t`) dropped; everything else about the records is
/// untouched.
pub open spec fn observers_purged_by<L: Lens>(
    t: Tree,
    roots: Seq<Entity>,
    older: ModelDataStore<L>,
    newer: ModelDataStore<L>,
) -> bool {
    &&& newer.model == older.model
    &&& newer.stores@.len() == older.stores@.len()
    &&& forall|i: int|
        0 <= i < older.stores@.len() ==> {
            &&& (#[trigger] newer.stores@[i]).lens == older.stores@[i].lens
            &&& newer.stores@[i].key == older.stores@[i].key
            &&& newer.stores@[i].old == older.stores@[i].old
            &&& newer.stores@[i].observers@ == older.stores@[i].observers@.filter(
                |o: Entity| !desc_of_any(t, roots, o),
            )
        }
}

impl<M, L: Lens> Context<M, L> {
    /// Everything except the model data unchanged.
    pub open spec fn same_but_data(self, older: Context<M, L>) -> bool {
        &&& self.entity_manager == older.entity_manager
        &&& self.tree == older.tree
        &&& self.current == older.current
        &&& self.count == older.count
        &&& self.event_queue == older.event_queue
        &&& self.event_schedule == older.event_schedule
        &&& self.style == older.style
        &&& self.cache == older.cache
        &&& self.captured == older.captured
        &&& self.hovered == older.hovered
        &&& self.focused == older.focused
        &&& self.resource_manager == older.resource_manager
    }

    /// The parts a branch removal leaves alone: events, focus state,
    /// resources, insertion point, and the rule list and dirty flags.
    pub open spec fn same_but_entities(self, older: Context<M, L>) -> bool {
        &&& self.current == older.current
        &&& self.count == older.count
        &&& self.event_queue == older.event_queue
        &&& self.event_schedule == older.event_schedule
        &&& self.captured == older.captured
        &&& self.hovered == older.hovered
        &&& self.focused == older.focused
        &&& self.resource_manager == older.resource_manager
        &&& self.style.same_meta(older.style)
    }

    /// Deregisters, from every dependency record's observer set, every
    /// entity lying in the branch of one of `roots`.
    fn purge_observers_by(&mut self, roots: &Vec<Entity>)
        requires
            old(self).wf(),
        ensures
            final(self).wf(),
            final(self).same_but_data(*old(self)),
            final(self).data.sparse == old(self).data.sparse,
            final(self).data.dense@.len() == old(self).data.dense@.len(),
            forall|d: int|
                0 <= d < old(self).data.dense@.len() ==> {
                    &&& (#[trigger] final(self).data.dense@[d]).key == old(self).data.dense@[d].key
                    &&& observers_purged_by(
                        old(self).tree,
                        roots@,
                        old(self).data.dense@[d].value,
                        final(self).data.dense@[d].value,
                    )
                },
    {
        let mut data: SparseSet<ModelDataStore<L>> = SparseSet::new();
        core::mem::swap(&mut data, &mut self.data);
        let ghost data0 = data;
        let ghost t0 = self.tree;
        let ghost pred = |o: Entity| !desc_of_any(t0, roots@, o);
        let nd = data.dense.len();
        let mut d: usize = 0;
        while d < nd
            invariant
                old(self).wf(),
                *self == (Context { data: self.data, ..*old(self) }),
                data0 == old(self).data,
                t0 == self.tree,
                pred == (|o: Entity| !desc_of_any(t0, roots@, o)),
                nd == data.dense@.len(),
                d <= nd,
                data.sparse == data0.sparse,
                data.dense@.len() == data0.dense@.len(),
                forall|dd: int|
                    0 <= dd < nd ==> (#[trigger] data.dense@[dd]).key == data0.dense@[dd].key,
                forall|dd: int|
                    0 <= dd < d ==> observers_purged_by(
                        t0,
                        roots@,
                        data0.dense@[dd].value,
                        (#[trigger] data.dense@[dd]).value,
                    ),
                forall|dd: int| d <= dd < nd ==> data.dense@[dd] == #[trigger] data0.dense@[dd],
            decreases nd - d,
        {
            let ns = data.dense[d].value.stores.len();
            let mut i: usize = 0;
            while i < ns
                invariant
                    old(self).wf(),
                    *self == (Context { data: self.data, ..*old(self) }),
                    t0 == self.tree,
                    pred == (|o: Entity| !desc_of_any(t0, roots@, o)),
                    nd == data.dense@.len(),
                    d < nd,
                    data.sparse == data0.sparse,
                    data.dense@.len() == data0.dense@.len(),
                    forall|dd: int|
                        0 <= dd < nd ==> (#[trigger] data.dense@[dd]).key == data0.dense@[dd].key,
                    forall|dd: int|
                        0 <= dd < d ==> observers_purged_by(
                            t0,
                            roots@,
                            data0.dense@[dd].value,
                            (#[trigger] data.dense@[dd]).value,
                        ),
                    forall|dd: int|
                        d < dd < nd ==> data.dense@[dd] == #[trigger] data0.dense@[dd],
                    ns == data0.dense@[d as int].value.stores@.len(),
                    i <= ns,
                    data.dense@[d as int].value.stores@.len() == ns,
                    data.dense@[d as int].value.model == data0.dense@[d as int].value.model,
                    forall|ii: int|
                        0 <= ii < i ==> {
                            &&& (#[trigger] data.dense@[d as int].value.stores@[ii]).lens
                                == data0.dense@[d as int].value.stores@[ii].lens
                            &&& data.dense@[d as int].value.stores@[ii].key
                                == data0.dense@[d as int].value.stores@[ii].key
                            &&& data.dense@[d as int].value.stores@[ii].old
                                == data0.dense@[d as int].value.stores@[ii].old
                            &&& data.dense@[d as int].value.stores@[ii].observers@
                                == data0.dense@[d as int].value.stores@[ii].observers@.filter(pred)
                        },
                    forall|ii: int|
                        i <= ii < ns ==> data.dense@[d as int].value.stores@[ii] == #[trigger] data0
                            .dense@[d as int].value.stores@[ii],
                decreases ns - i,
            {
                let ghost obs0 = data.dense@[d as int].value.stores@[i as int].observers@;
                let no = data.dense[d].value.stores[i].observers.len();
                let mut kept: Vec<Entity> = Vec::new();
                let mut t: usize = 0;
                proof {
                    reveal(Seq::filter);
                    assert(obs0.take(0).filter(pred) =~= Seq::<Entity>::empty());
                }
                while t < no
                    invariant
                        old(self).wf(),
                        t0 == self.tree,
                        self.tree.wf(),
                        pred == (|o: Entity| !desc_of_any(t0, roots@, o)),
                        no == obs0.len(),
                        t <= no,
                        data.dense@.len() > d,
                        data.dense@[d as int].value.stores@.len() > i,
                        obs0 == data.dense@[d as int].value.stores@[i as int].observers@,
                        kept@ == obs0.take(t as int).filter(pred),
                    decreases no - t,
                {
                    let o = data.dense[d].value.stores[i].observers[t];
                    let keep = !self.is_descendant_of_any(roots, o);
                    proof {
                        reveal(Seq::filter);
                        assert(obs0.take(t + 1).drop_last() =~= obs0.take(t as int));
                        assert(obs0.take(t + 1).last() == o);
                    }
                    if keep {
                        kept.push(o);
                    }
                    t += 1;
                }
                proof {
                    assert(obs0.take(no as int) =~= obs0);
                }
                core::mem::swap(&mut kept, &mut data.dense[d].value.stores[i].observers);
                i += 1;
            }
            d += 1;
        }
        core::mem::swap(&mut data, &mut self.data);
        proof {
            assert(self.data.wf()) by {
                assert forall|k: usize| #[trigger] self.data.contains_key(k) implies 0
                    <= self.data.dense_pos(k) < self.data.dense@.len() && self.data.dense@[
                    self.data.dense_pos(k)].key == k by {
                    assert(old(self).data.contains_key(k));
                }
                assert forall|dd: int| 0 <= dd < self.data.dense@.len() implies (#[trigger] self
                    .data.dense@[dd]).key < self.data.sparse@.len() && self.data.sparse@[
                    self.data.dense@[dd].key as int] == dd by {
                    assert(self.data.dense@[dd].key == old(self).data.dense@[dd].key);
                }
            }
            assert forall|dd: int|
                0 <= dd < self.data.dense@.len() implies (#[trigger] self
                .data.dense@[dd]).value.wf() by {
                let ov = old(self).data.dense@[dd].value;
                let nv = self.data.dense@[dd].value;
                assert(ov.wf());
                assert(observers_purged_by(old(self).tree, roots@, ov, nv));
                assert forall|i: int, j: int|
                    0 <= i < j < nv.stores@.len() && (#[trigger] nv.stores@[i]).key is Some
                    implies (#[trigger] nv.stores@[j]).key != nv.stores@[i].key by {
                    assert(nv.stores@[i].key == ov.stores@[i].key);
                    assert(nv.stores@[j].key == ov.stores@[j].key);
                }
            }
            assert(self.wf());
        }
    }

    /// Is `o` a descendant of one of `roots`?
    fn is_descendant_of_any(&self, roots: &Vec<Entity>, o: Entity) -> (r: bool)
        requires
            self.tree.wf(),
        ensures
            r == desc_of_any(self.tree, roots@, o),
    {
        let n = roots.len();
        let mut j: usize = 0;
        while j < n
            invariant
                self.tree.wf(),
                n == roots@.len(),
                j <= n,
                forall|jj: int| 0 <= jj < j ==> !self.tree.is_descendant(o, #[trigger] roots@[jj]),
            decreases n - j,
        {
            if self.tree.is_descendant_of(o, roots[j]) {
                proof {
                    assert(self.tree.is_descendant(o, roots@[j as int]));
                }
                return true;
            }
            j += 1;
        }
        false
    }
}

} // verus!

verus! {

/// Is `x` a descendant of one of the first `rem` entries of `cs`?
pub open spec fn removed_desc(t: Tree, cs: Seq<Entity>, rem: int, x: Entity) -> bool {
    exists|j: int| 0 <= j < rem && #[trigger] t.is_descendant(x, cs[j])
}

/// Is `k` an index inside the branch of one of the first `rem` entries?
pub open spec fn in_removed_branches(t: Tree, cs: Seq<Entity>, rem: int, k: usize) -> bool {
    exists|j: int| 0 <= j < rem && in_branch(t, #[trigger] cs[j], k)
}

impl<M, L: Lens> Context<M, L> {
    /// The cache and model stores hold nothing at index `k`.
    pub open spec fn stores_absent_at(self, k: usize) -> bool {
        &&& self.style.absent_at(k)
        &&& !self.cache.as_map().dom().contains(k)
        &&& !self.data.contains_key(k)
    }

    /// The cache and model stores agree with `older` at index `k`.
    pub open spec fn stores_same_at(self, older: Context<M, L>, k: usize) -> bool {
        &&& self.style.same_at(older.style, k)
        &&& self.cache.as_map().dom().contains(k) == older.cache.as_map().dom().contains(k)
        &&& (self.cache.as_map().dom().contains(k) ==> self.cache.as_map()[k]
            == older.cache.as_map()[k])
        &&& self.data.contains_key(k) == older.data.contains_key(k)
        &&& (self.data.contains_key(k) ==> self.data.value_of(k) == older.data.value_of(k))
    }

    /// What removing the branch of `e` does, stated between a before and an
    /// after state: exactly the descendants of `e` leave the tree, survivors
    /// keep their structure (the parent merely loses the child `e`), and the
    /// stores are purged at exactly the branch's indexes.
    pub open spec fn removed_branch_post(pre: Context<M, L>, post: Context<M, L>, e: Entity) -> bool {
        &&& forall|x: Entity|
            #[trigger] post.tree.contains(x) <==> (pre.tree.contains(x) && !pre.tree.is_descendant(
                x,
                e,
            ))
        &&& forall|x: Entity|
            #[trigger] post.tree.contains(x) ==> post.tree.parent_of(x) == pre.tree.parent_of(x)
                && post.tree.depth_of(x) == pre.tree.depth_of(x)
        &&& forall|x: Entity|
            #[trigger] post.tree.contains(x) && x != pre.tree.parent_of(e)
                ==> post.tree.children_of(x) == pre.tree.children_of(x)
        &&& post.tree.children_of(pre.tree.parent_of(e)) == pre.tree.children_of(
            pre.tree.parent_of(e),
        ).remove_value(e)
        &&& forall|k: usize| #[trigger] in_branch(pre.tree, e, k) ==> post.stores_absent_at(k)
        &&& forall|k: usize|
            !(#[trigger] in_branch(pre.tree, e, k)) ==> post.stores_same_at(pre, k)
    }

    /// The invariant of a child-removal loop: of the children of `e`, the
    /// prefix `kept` stays, and of the rest (`cs`) the branches of the first
    /// `rem` entries are gone; everything else stands as in `oldc`.
    pub open spec fn remove_loop_inv(
        oldc: Context<M, L>,
        cur: Context<M, L>,
        kept: Seq<Entity>,
        cs: Seq<Entity>,
        rem: int,
        e: Entity,
    ) -> bool {
        &&& cur.wf()
        &&& cur.same_but_entities(oldc)
        &&& 0 <= rem <= cs.len()
        &&& cur.tree.contains(e)
        &&& cur.tree.depth_of(e) == oldc.tree.depth_of(e)
        &&& cur.tree.parent_of(e) == oldc.tree.parent_of(e)
        &&& cur.tree.children_of(e) == kept + cs.skip(rem)
        &&& forall|x: Entity|
            #[trigger] cur.tree.contains(x) <==> (oldc.tree.contains(x) && !removed_desc(
                oldc.tree,
                cs,
                rem,
                x,
            ))
        &&& forall|x: Entity|
            #[trigger] cur.tree.contains(x) ==> cur.tree.parent_of(x) == oldc.tree.parent_of(x)
                && cur.tree.depth_of(x) == oldc.tree.depth_of(x)
        &&& forall|x: Entity|
            #[trigger] cur.tree.contains(x) && x != e ==> cur.tree.children_of(x)
                == oldc.tree.children_of(x)
        &&& forall|k: usize|
            #[trigger] in_removed_branches(oldc.tree, cs, rem, k) ==> cur.stores_absent_at(k)
        &&& forall|k: usize|
            !(#[trigger] in_removed_branches(oldc.tree, cs, rem, k)) ==> cur.stores_same_at(
                oldc,
                k,
            )
    }

    /// One loop step, tree part: membership and structure at `rem + 1`.
    #[verifier::rlimit(60)]
    proof fn lemma_remove_step_tree(
        oldc: Context<M, L>,
        pre: Context<M, L>,
        post: Context<M, L>,
        kept: Seq<Entity>,
        cs: Seq<Entity>,
        rem: int,
        e: Entity,
        c: Entity,
    )
        requires
            oldc.wf(),
            oldc.tree.contains(e),
            kept + cs == oldc.tree.children_of(e),
            0 <= rem < cs.len(),
            c == cs[rem],
            Context::remove_loop_inv(oldc, pre, kept, cs, rem, e),
            post.wf(),
            post.same_but_entities(pre),
            Context::removed_branch_post(pre, post, c),
        ensures
            post.tree.contains(e),
            post.tree.depth_of(e) == oldc.tree.depth_of(e),
            post.tree.parent_of(e) == oldc.tree.parent_of(e),
            post.tree.children_of(e) == kept + cs.skip(rem + 1),
            forall|x: Entity|
                #[trigger] post.tree.contains(x) <==> (oldc.tree.contains(x) && !removed_desc(
                    oldc.tree,
                    cs,
                    rem + 1,
                    x,
                )),
            forall|x: Entity|
                #[trigger] post.tree.contains(x) ==> post.tree.parent_of(x) == oldc.tree.parent_of(
                    x,
                ) && post.tree.depth_of(x) == oldc.tree.depth_of(x),
            forall|x: Entity|
                #[trigger] post.tree.contains(x) && x != e ==> post.tree.children_of(x)
                    == oldc.tree.children_of(x),
            // Descendants of c agree between the trees (used by the store part).
            forall|x: Entity|
                #[trigger] pre.tree.is_descendant(x, c) <==> (oldc.tree.is_descendant(x, c)
                    && pre.tree.contains(x)),
    {
        let origt = oldc.tree;
        assert(pre.tree.contains(c) && pre.tree.parent_of(c) == e) by {
            assert(pre.tree.children_of(e)[kept.len() as int] == c);
        }
        assert(origt.children_of(e).contains(c)) by {
            assert(origt.children_of(e)[kept.len() + rem] == c);
        }
        // Descendant relations agree between the original tree and `pre`.
        assert forall|x: Entity|
            #[trigger] pre.tree.is_descendant(x, c) <==> (origt.is_descendant(x, c)
                && pre.tree.contains(x)) by {
            Tree::lemma_descendant_stable(origt, pre.tree, c, x);
        }
        // An original descendant of c was never removed earlier.
        assert forall|x: Entity| origt.is_descendant(x, c) implies !removed_desc(
            origt,
            cs,
            rem,
            x,
        ) by {
            if removed_desc(origt, cs, rem, x) {
                let j = choose|j: int| 0 <= j < rem && origt.is_descendant(x, cs[j]);
                assert(origt.children_of(e)[kept.len() + j] == cs[j]);
                assert(origt.children_of(e).contains(cs[j]));
                assert(cs[j] != c) by {
                    assert(origt.children_of(e)[kept.len() + j] != origt.children_of(e)[kept.len()
                        + rem]);
                }
                origt.lemma_sibling_subtrees_disjoint(e, cs[j], c, x);
            }
        }
        // e survives: it is no descendant of its own child.
        assert(post.tree.contains(e)) by {
            if pre.tree.is_descendant(e, c) {
                pre.tree.lemma_descendant_in_tree(e, c);
            }
        }
        // Membership at rem + 1.
        assert forall|x: Entity|
            #[trigger] post.tree.contains(x) <==> (origt.contains(x) && !removed_desc(
                origt,
                cs,
                rem + 1,
                x,
            )) by {
            if post.tree.contains(x) {
                assert(pre.tree.contains(x) && !pre.tree.is_descendant(x, c));
                assert(!removed_desc(origt, cs, rem, x));
                assert forall|j: int| 0 <= j < rem + 1 implies !origt.is_descendant(
                    x,
                    #[trigger] cs[j],
                ) by {
                    if j == rem && origt.is_descendant(x, cs[rem]) {
                        assert(pre.tree.is_descendant(x, c));
                    }
                }
            }
            if origt.contains(x) && !removed_desc(origt, cs, rem + 1, x) {
                assert(!removed_desc(origt, cs, rem, x)) by {
                    if removed_desc(origt, cs, rem, x) {
                        let j = choose|j: int| 0 <= j < rem && origt.is_descendant(x, cs[j]);
                        assert(0 <= j < rem + 1 && origt.is_descendant(x, cs[j]));
                    }
                }
                assert(pre.tree.contains(x));
                assert(!origt.is_descendant(x, cs[rem])) by {
                    assert(!(0 <= rem < rem + 1 && origt.is_descendant(x, cs[rem])));
                }
                assert(!pre.tree.is_descendant(x, c));
            }
        }
        // The child list of e drops the next removed child.
        assert(post.tree.children_of(e) == kept + cs.skip(rem + 1)) by {
            let pcs = pre.tree.children_of(e);
            assert(pcs == kept + cs.skip(rem));
            assert(pcs[kept.len() as int] == c);
            pcs.index_of_first_ensures(c);
            assert(pcs.index_of_first(c) == Some(kept.len() as int)) by {
                let fi = pcs.index_of_first(c)->Some_0;
                assert(0 <= fi < pcs.len() && pcs[fi] == c);
                if fi != kept.len() {
                    if fi < kept.len() {
                        assert(origt.children_of(e)[fi] == kept[fi]);
                        assert(origt.children_of(e)[kept.len() + rem] == c);
                        assert(origt.children_of(e)[fi] != origt.children_of(e)[kept.len() + rem]);
                    } else {
                        assert(pcs[fi] == cs[fi - kept.len() + rem]);
                        assert(origt.children_of(e)[fi + rem] == cs[fi - kept.len() + rem]);
                        assert(origt.children_of(e)[kept.len() + rem] == c);
                        assert(fi + rem != kept.len() + rem);
                        assert(origt.children_of(e)[fi + rem] != origt.children_of(e)[kept.len()
                            + rem]);
                    }
                }
            }
            assert(pcs.remove_value(c) =~= pcs.remove(kept.len() as int));
            assert(pcs.remove(kept.len() as int) =~= kept + cs.skip(rem + 1));
        }
    }

    /// One loop step, store part: the purge extends to `rem + 1`.
    #[verifier::rlimit(60)]
    proof fn lemma_remove_step_stores(
        oldc: Context<M, L>,
        pre: Context<M, L>,
        post: Context<M, L>,
        kept: Seq<Entity>,
        cs: Seq<Entity>,
        rem: int,
        e: Entity,
        c: Entity,
    )
        requires
            oldc.wf(),
            oldc.tree.contains(e),
            kept + cs == oldc.tree.children_of(e),
            0 <= rem < cs.len(),
            c == cs[rem],
            Context::remove_loop_inv(oldc, pre, kept, cs, rem, e),
            post.wf(),
            post.same_but_entities(pre),
            Context::removed_branch_post(pre, post, c),
            forall|x: Entity|
                #[trigger] pre.tree.is_descendant(x, c) <==> (oldc.tree.is_descendant(x, c)
                    && pre.tree.contains(x)),
        ensures
            forall|k: usize|
                #[trigger] in_removed_branches(oldc.tree, cs, rem + 1, k)
                    ==> post.stores_absent_at(k),
            forall|k: usize|
                !(#[trigger] in_removed_branches(oldc.tree, cs, rem + 1, k))
                    ==> post.stores_same_at(oldc, k),
    {
        let origt = oldc.tree;
        assert forall|k: usize|
            #[trigger] in_removed_branches(origt, cs, rem + 1, k) implies post.stores_absent_at(
            k,
        ) by {
            let j = choose|j: int| 0 <= j < rem + 1 && in_branch(origt, cs[j], k);
            if j < rem {
                assert(in_removed_branches(origt, cs, rem, k));
                assert(pre.stores_absent_at(k));
                assert(!in_branch(pre.tree, c, k)) by {
                    if in_branch(pre.tree, c, k) {
                        let x = choose|x: Entity|
                            #[trigger] pre.tree.is_descendant(x, c) && x.index == k;
                        assert(origt.is_descendant(x, c) && pre.tree.contains(x));
                        assert(!removed_desc(origt, cs, rem, x));
                        let x2 = choose|x2: Entity|
                            #[trigger] origt.is_descendant(x2, cs[j]) && x2.index == k;
                        origt.lemma_descendant_in_tree(x, c);
                        origt.lemma_descendant_in_tree(x2, cs[j]);
                        assert(x == x2);
                        assert(removed_desc(origt, cs, rem, x)) by {
                            assert(origt.is_descendant(x, cs[j]));
                        }
                    }
                }
                assert(post.stores_same_at(pre, k));
                post.style.lemma_absent_via_same(pre.style, k);
            } else {
                assert(in_branch(origt, c, k));
                let x = choose|x: Entity| #[trigger] origt.is_descendant(x, c) && x.index == k;
                assert(!removed_desc(origt, cs, rem, x)) by {
                    if removed_desc(origt, cs, rem, x) {
                        let jj = choose|jj: int| 0 <= jj < rem && origt.is_descendant(x, cs[jj]);
                        assert(origt.children_of(e)[kept.len() + jj] == cs[jj]);
                        assert(origt.children_of(e).contains(cs[jj]));
                        assert(origt.children_of(e)[kept.len() + rem] == c);
                        assert(origt.children_of(e).contains(c));
                        assert(cs[jj] != c) by {
                            assert(origt.children_of(e)[kept.len() + jj] != origt.children_of(
                                e,
                            )[kept.len() + rem]);
                        }
                        origt.lemma_sibling_subtrees_disjoint(e, cs[jj], c, x);
                    }
                }
                assert(pre.tree.contains(x));
                assert(pre.tree.is_descendant(x, c));
                assert(in_branch(pre.tree, c, k));
            }
        }
        assert forall|k: usize|
            !(#[trigger] in_removed_branches(origt, cs, rem + 1, k)) implies post.stores_same_at(
            oldc,
            k,
        ) by {
            assert(!in_removed_branches(origt, cs, rem, k)) by {
                if in_removed_branches(origt, cs, rem, k) {
                    let j = choose|j: int| 0 <= j < rem && in_branch(origt, cs[j], k);
                    assert(0 <= j < rem + 1 && in_branch(origt, cs[j], k));
                }
            }
            assert(!in_branch(pre.tree, c, k)) by {
                if in_branch(pre.tree, c, k) {
                    let x = choose|x: Entity|
                        #[trigger] pre.tree.is_descendant(x, c) && x.index == k;
                    assert(origt.is_descendant(x, c));
                    assert(0 <= rem < rem + 1 && in_branch(origt, cs[rem], k)) by {
                        assert(origt.is_descendant(x, cs[rem]) && x.index == k);
                    }
                }
            }
            assert(post.stores_same_at(pre, k));
            assert(pre.stores_same_at(oldc, k));
            post.style.lemma_same_at_trans(pre.style, oldc.style, k);
        }
    }

    /// One loop step: removing the branch of child `cs[rem]` extends the
    /// invariant from `rem` to `rem + 1`.
    proof fn lemma_remove_step(
        oldc: Context<M, L>,
        pre: Context<M, L>,
        post: Context<M, L>,
        kept: Seq<Entity>,
        cs: Seq<Entity>,
        rem: int,
        e: Entity,
        c: Entity,
    )
        requires
            oldc.wf(),
            oldc.tree.contains(e),
            kept + cs == oldc.tree.children_of(e),
            0 <= rem < cs.len(),
            c == cs[rem],
            Context::remove_loop_inv(oldc, pre, kept, cs, rem, e),
            post.wf(),
            post.same_but_entities(pre),
            Context::removed_branch_post(pre, post, c),
        ensures
            Context::remove_loop_inv(oldc, post, kept, cs, rem + 1, e),
    {
        Context::lemma_remove_step_tree(oldc, pre, post, kept, cs, rem, e, c);
        Context::lemma_remove_step_stores(oldc, pre, post, kept, cs, rem, e, c);
    }

    /// The last step: with all children gone, dropping the node `e` itself
    /// completes the branch removal.
    proof fn lemma_remove_finish(
        oldc: Context<M, L>,
        pre2: Context<M, L>,
        post: Context<M, L>,
        cs: Seq<Entity>,
        e: Entity,
    )
        requires
            oldc.wf(),
            oldc.tree.contains(e),
            e != Entity::spec_root(),
            cs == oldc.tree.children_of(e),
            Context::remove_loop_inv(oldc, pre2, Seq::<Entity>::empty(), cs, cs.len() as int, e),
            // How the final purge related post to pre2.
            forall|x: Entity|
                #[trigger] post.tree.contains(x) <==> (pre2.tree.contains(x) && x != e),
            forall|x: Entity|
                pre2.tree.contains(x) && x != e ==> post.tree.parent_of(x) == pre2.tree.parent_of(
                    x,
                ) && post.tree.depth_of(x) == pre2.tree.depth_of(x),
            forall|x: Entity|
                pre2.tree.contains(x) && x != e && x != pre2.tree.parent_of(e)
                    ==> post.tree.children_of(x) == pre2.tree.children_of(x),
            post.tree.children_of(pre2.tree.parent_of(e)) == pre2.tree.children_of(
                pre2.tree.parent_of(e),
            ).remove_value(e),
            post.style.purged(pre2.style, e.spec_index() as usize),
            post.cache.as_map() == pre2.cache.as_map().remove(e.spec_index() as usize),
            post.data.as_map() == pre2.data.as_map().remove(e.spec_index() as usize),
        ensures
            Context::removed_branch_post(oldc, post, e),
    {
        let origt = oldc.tree;
        post.style.lemma_purged_pointwise(pre2.style, e.spec_index() as usize);
        // Membership.
        assert forall|x: Entity|
            #[trigger] post.tree.contains(x) <==> (origt.contains(x) && !origt.is_descendant(
                x,
                e,
            )) by {
            if post.tree.contains(x) {
                assert(pre2.tree.contains(x) && x != e);
                assert(!removed_desc(origt, cs, cs.len() as int, x));
                if origt.is_descendant(x, e) {
                    origt.lemma_descendant_child_decomp(x, e);
                    let c = choose|c: Entity|
                        origt.children_of(e).contains(c) && #[trigger] origt.is_descendant(x, c);
                    let j = choose|j: int| 0 <= j < cs.len() && cs[j] == c;
                    assert(origt.is_descendant(x, cs[j]));
                }
            }
            if origt.contains(x) && !origt.is_descendant(x, e) {
                assert(x != e) by {
                    if x == e {
                        origt.lemma_descendant_refl(e);
                    }
                }
                assert(!removed_desc(origt, cs, cs.len() as int, x)) by {
                    if removed_desc(origt, cs, cs.len() as int, x) {
                        let j = choose|j: int| 0 <= j < cs.len() && origt.is_descendant(x, cs[j]);
                        assert(origt.children_of(e)[j] == cs[j]);
                        origt.lemma_descendant_parent(cs[j]);
                        origt.lemma_descendant_trans(x, cs[j], e);
                    }
                }
                assert(pre2.tree.contains(x));
            }
        }
        // The parent of e.
        let p = origt.parent_of(e);
        assert(origt.contains(p));
        assert(p != e) by {
            if p == e {
                assert(origt.depth_of(e) == origt.depth_of(p) + 1);
            }
        }
        assert(!origt.is_descendant(p, e)) by {
            if origt.is_descendant(p, e) {
                origt.lemma_descendant_in_tree(p, e);
            }
        }
        assert(pre2.tree.contains(p));
        assert(pre2.tree.parent_of(e) == p);
        assert(pre2.tree.children_of(p) == origt.children_of(p));
        // Stores: the branch is absent.
        assert forall|k: usize| #[trigger] in_branch(origt, e, k) implies post.stores_absent_at(
            k,
        ) by {
            let x = choose|x: Entity| #[trigger] origt.is_descendant(x, e) && x.index == k;
            post.cache.entries.lemma_as_map_point(k);
            post.data.lemma_as_map_point(k);
            pre2.cache.entries.lemma_as_map_point(k);
            pre2.data.lemma_as_map_point(k);
            if x == e {
                assert(k == e.spec_index());
            } else {
                origt.lemma_descendant_child_decomp(x, e);
                let c = choose|c: Entity|
                    origt.children_of(e).contains(c) && #[trigger] origt.is_descendant(x, c);
                let j = choose|j: int| 0 <= j < cs.len() && cs[j] == c;
                assert(in_branch(origt, cs[j], k)) by {
                    assert(origt.is_descendant(x, cs[j]) && x.index == k);
                }
                assert(in_removed_branches(origt, cs, cs.len() as int, k));
                assert(pre2.stores_absent_at(k));
                if k != e.spec_index() {
                    post.style.lemma_absent_via_same(pre2.style, k);
                }
            }
        }
        // Stores: everything outside the branch is untouched.
        assert forall|k: usize|
            !(#[trigger] in_branch(origt, e, k)) implies post.stores_same_at(oldc, k) by {
            assert(k != e.spec_index()) by {
                origt.lemma_descendant_refl(e);
                assert(origt.is_descendant(e, e) && e.index == e.spec_index());
            }
            assert(!in_removed_branches(origt, cs, cs.len() as int, k)) by {
                if in_removed_branches(origt, cs, cs.len() as int, k) {
                    let j = choose|j: int| 0 <= j < cs.len() && in_branch(origt, cs[j], k);
                    let x = choose|x: Entity|
                        #[trigger] origt.is_descendant(x, cs[j]) && x.index == k;
                    assert(origt.children_of(e)[j] == cs[j]);
                    origt.lemma_descendant_parent(cs[j]);
                    origt.lemma_descendant_trans(x, cs[j], e);
                    assert(in_branch(origt, e, k)) by {
                        assert(origt.is_descendant(x, e) && x.index == k);
                    }
                }
            }
            assert(pre2.stores_same_at(oldc, k));
            post.cache.entries.lemma_as_map_point(k);
            post.data.lemma_as_map_point(k);
            pre2.cache.entries.lemma_as_map_point(k);
            pre2.data.lemma_as_map_point(k);
            post.style.lemma_same_at_trans(pre2.style, oldc.style, k);
        }
    }

    /// Removes the subtree of `e` from the tree, the id manager, and every
    /// per-entity store.  Observers are purged beforehand, in
    /// [`Context::remove`].
    fn remove_branch(&mut self, e: Entity)
        requires
            old(self).wf(),
            old(self).tree.contains(e),
            e != Entity::spec_root(),
        ensures
            final(self).wf(),
            final(self).same_but_entities(*old(self)),
            Context::removed_branch_post(*old(self), *final(self), e),
        decreases crate::tree::MAX_DEPTH - self.tree.depth_of(e),
    {
        let ghost origt = old(self).tree;
        let ghost cs = old(self).tree.children_of(e);
        let ghost mut rem: int = 0;
        proof {
            assert(Seq::<Entity>::empty() + cs.skip(0) =~= cs);
            assert forall|k: usize| self.stores_same_at(*old(self), k) by {
                self.style.lemma_same_at_refl(k);
            }
            assert(Context::remove_loop_inv(*old(self), *self, Seq::<Entity>::empty(), cs, 0, e));
        }
        loop
            invariant
                old(self).wf(),
                old(self).tree.contains(e),
                e != Entity::spec_root(),
                origt == old(self).tree,
                cs == origt.children_of(e),
                0 <= rem <= cs.len(),
                Context::remove_loop_inv(*old(self), *self, Seq::<Entity>::empty(), cs, rem, e),
            ensures
                rem == cs.len(),
                Context::remove_loop_inv(*old(self), *self, Seq::<Entity>::empty(), cs, rem, e),
            decreases cs.len() - rem,
        {
            let ghost pre = *self;
            match self.tree.get_child(e, 0) {
                Some(c) => {
                    proof {
                        assert(self.tree.children_of(e)[0] == c);
                        assert((Seq::<Entity>::empty() + cs.skip(rem))[0] == c);
                        assert(c == cs[rem]);
                        assert(self.tree.contains(c));
                        assert(c != Entity::spec_root());
                        assert(self.tree.depth_of(c) == self.tree.depth_of(e) + 1);
                    }
                    self.remove_branch(c);
                    proof {
                        assert(Seq::<Entity>::empty() + cs =~= cs);
                        Context::lemma_remove_step(
                            *old(self),
                            pre,
                            *self,
                            Seq::<Entity>::empty(),
                            cs,
                            rem,
                            e,
                            c,
                        );
                        rem = rem + 1;
                    }
                },
                None => {
                    proof {
                        assert((Seq::<Entity>::empty() + cs.skip(rem)).len() == 0);
                        assert(rem == cs.len());
                    }
                    break;
                },
            }
        }
        // The node is now a leaf: detach it and purge the stores.
        let ghost pre2 = *self;
        match self.tree.remove(e) {
            Ok(()) => {},
            Err(_) => {
                proof {
                    assert(false);
                }
            },
        }
        self.style.remove(e);
        self.cache.remove(e);
        let _ = self.data.remove(e.index());
        self.entity_manager.destroy(e);
        proof {
            Context::lemma_remove_finish(*old(self), pre2, *self, cs, e);
            // The id manager and the tree still agree.
            assert forall|x: Entity| #[trigger] self.tree.contains(x) implies self
                .entity_manager.is_live(x) by {
                assert(pre2.tree.contains(x));
                assert(pre2.entity_manager.is_live(x));
                assert(x != e);
            }
            assert forall|x: Entity| self.entity_manager.is_live(x) implies #[trigger] self
                .tree.contains(x) by {
                assert(pre2.entity_manager.is_live(x));
                assert(pre2.tree.contains(x));
                assert(x != e || e == Entity::spec_root());
            }
            assert(self.data.wf()) by {
                assert forall|k: usize| #[trigger] self.data.contains_key(k) implies 0
                    <= self.data.dense_pos(k) < self.data.dense@.len() && self.data.dense@[
                    self.data.dense_pos(k)].key == k by {}
            }
            assert forall|d2: int|
                0 <= d2 < self.data.dense@.len() implies (#[trigger] self
                .data.dense@[d2]).value.wf() by {
                assert(self.data.dense@.len() == vstd::std_specs::vec::spec_vec_len(
                    &self.data.dense,
                ));
                let k2 = self.data.dense@[d2].key;
                assert(self.data.sparse@[k2 as int] == d2);
                assert(self.data.contains_key(k2));
                assert(self.data.value_of(k2) == self.data.dense@[d2].value);
                self.data.lemma_as_map_point(k2);
                pre2.data.lemma_as_map_point(k2);
                assert(k2 != e.spec_index() as usize) by {
                    if k2 == e.spec_index() as usize {
                        assert(!self.data.as_map().dom().contains(k2));
                    }
                }
                assert(self.data.as_map()[k2] == pre2.data.as_map()[k2]);
                assert(pre2.data.contains_key(k2));
                assert(pre2.data.value_of(k2).wf()) by {
                    assert(pre2.data.dense@[pre2.data.dense_pos(k2)].value.wf());
                }
            }
            assert(self.same_but_entities(*old(self)));
        }
    }

    /// Removes an entity and its whole subtree: after the call, the entity
    /// and every descendant are absent from the tree, the style, cache and
    /// model stores, no observer set references them, and the dirty flags are
    /// set.  Everything else is untouched; in particular the siblings keep
    /// their relative order.
    pub fn remove(&mut self, entity: Entity)
        requires
            old(self).wf(),
            old(self).tree.contains(entity),
            entity != Entity::spec_root(),
        ensures
            final(self).wf(),
            // The branch is gone from the tree.
            forall|x: Entity|
                #[trigger] final(self).tree.contains(x) <==> (old(self).tree.contains(x) && !old(
                    self).tree.is_descendant(x, entity)),
            // Survivors keep their structure; the parent merely loses `entity`.
            forall|x: Entity|
                #[trigger] final(self).tree.contains(x) ==> final(self).tree.parent_of(x) == old(
                    self).tree.parent_of(x) && final(self).tree.depth_of(x) == old(
                    self).tree.depth_of(x),
            forall|x: Entity|
                #[trigger] final(self).tree.contains(x) && x != old(self).tree.parent_of(entity)
                    ==> final(self).tree.children_of(x) == old(self).tree.children_of(x),
            final(self).tree.children_of(old(self).tree.parent_of(entity)) == old(
                self).tree.children_of(old(self).tree.parent_of(entity)).remove_value(entity),
            // The branch is purged from every store.
            forall|k: usize|
                #[trigger] in_branch(old(self).tree, entity, k) ==> final(self).style.absent_at(k)
                    && !final(self).cache.as_map().dom().contains(k) && !final(
                    self).data.contains_key(k),
            // Everything else is untouched, except that surviving dependency
            // records lose exactly the observers of the removed branch.
            forall|k: usize|
                !(#[trigger] in_branch(old(self).tree, entity, k)) ==> {
                    &&& final(self).style.same_at(old(self).style, k)
                    &&& final(self).cache.as_map().dom().contains(k) == old(
                        self).cache.as_map().dom().contains(k)
                    &&& (final(self).cache.as_map().dom().contains(k) ==> final(
                        self).cache.as_map()[k] == old(self).cache.as_map()[k])
                    &&& final(self).data.contains_key(k) == old(self).data.contains_key(k)
                    &&& (final(self).data.contains_key(k) ==> observers_purged_by(
                        old(self).tree,
                        seq![entity],
                        old(self).data.value_of(k),
                        final(self).data.value_of(k),
                    ))
                },
            final(self).style.needs_restyle,
            final(self).style.needs_relayout,
            final(self).style.needs_redraw,
            final(self).style.rules == old(self).style.rules,
            final(self).style.default_font == old(self).style.default_font,
            final(self).current == old(self).current,
            final(self).count == old(self).count,
            final(self).event_queue == old(self).event_queue,
            final(self).event_schedule == old(self).event_schedule,
            final(self).captured == old(self).captured,
            final(self).hovered == old(self).hovered,
            final(self).focused == old(self).focused,
            final(self).resource_manager == old(self).resource_manager,
    {
        let mut roots: Vec<Entity> = Vec::new();
        roots.push(entity);
        self.purge_observers_by(&roots);
        self.style.needs_restyle = true;
        self.style.needs_relayout = true;
        self.style.needs_redraw = true;
        let ghost mid = *self;
        self.remove_branch(entity);
        proof {
            assert(roots@ =~= seq![entity]);
            assert(mid.tree == old(self).tree);
            assert forall|k: usize|
                !(#[trigger] in_branch(old(self).tree, entity, k)) && final(
                self).data.contains_key(k) implies observers_purged_by(
                old(self).tree,
                seq![entity],
                old(self).data.value_of(k),
                final(self).data.value_of(k),
            ) by {
                assert(self.stores_same_at(mid, k));
                assert(mid.data.contains_key(k));
                assert(old(self).data.contains_key(k)) by {
                    assert(mid.data.sparse == old(self).data.sparse);
                }
                let pos = old(self).data.dense_pos(k);
                assert(mid.data.dense_pos(k) == pos);
                assert(0 <= pos < old(self).data.dense@.len()) by {
                    assert(old(self).data.wf());
                }
                assert(observers_purged_by(
                    old(self).tree,
                    roots@,
                    old(self).data.dense@[pos].value,
                    mid.data.dense@[pos].value,
                ));
                assert(old(self).data.value_of(k) == old(self).data.dense@[pos].value);
                assert(mid.data.value_of(k) == mid.data.dense@[pos].value);
                assert(self.data.value_of(k) == mid.data.value_of(k));
            }
            assert forall|k: usize|
                !(#[trigger] in_branch(old(self).tree, entity, k)) implies final(
                self).style.same_at(old(self).style, k) by {
                assert(self.style.same_at(mid.style, k));
                mid.style.lemma_same_at_meta_change(old(self).style, k);
                self.style.lemma_same_at_trans(mid.style, old(self).style, k);
            }
            assert forall|k: usize|
                #[trigger] in_branch(old(self).tree, entity, k) implies final(
                self).style.absent_at(k) && !final(self).cache.as_map().dom().contains(k)
                && !final(self).data.contains_key(k) by {
                assert(in_branch(mid.tree, entity, k));
                assert(self.stores_absent_at(k));
            }
            assert forall|k: usize|
                !(#[trigger] in_branch(old(self).tree, entity, k)) implies final(
                self).data.contains_key(k) == old(self).data.contains_key(k) by {
                assert(self.stores_same_at(mid, k));
                assert(mid.data.sparse == old(self).data.sparse);
            }
        }
    }

    /// Removes every child of `entity` from index `from` on, each with its
    /// whole subtree.  Children before `from` are untouched.
    pub fn remove_children_from(&mut self, entity: Entity, from: usize)
        requires
            old(self).wf(),
            old(self).tree.contains(entity),
        ensures
            final(self).wf(),
            final(self).tree.contains(entity),
            from < old(self).tree.children_of(entity).len() ==> {
                &&& final(self).style.needs_restyle
                &&& final(self).style.needs_relayout
                &&& final(self).style.needs_redraw
            },
            from >= old(self).tree.children_of(entity).len() ==> *final(self) == *old(self),
            final(self).tree.children_of(entity) == old(self).tree.children_of(entity).take(
                (if from < old(self).tree.children_of(entity).len() {
                    from as int
                } else {
                    old(self).tree.children_of(entity).len() as int
                }),
            ),
            from < old(self).tree.children_of(entity).len() ==> forall|x: Entity|
                #[trigger] final(self).tree.contains(x) <==> (old(self).tree.contains(x)
                    && !removed_desc(
                    old(self).tree,
                    old(self).tree.children_of(entity).skip(from as int),
                    old(self).tree.children_of(entity).skip(from as int).len() as int,
                    x,
                )),
            forall|x: Entity|
                #[trigger] final(self).tree.contains(x) ==> final(self).tree.parent_of(x) == old(
                    self).tree.parent_of(x) && final(self).tree.depth_of(x) == old(
                    self).tree.depth_of(x),
            forall|x: Entity|
                #[trigger] final(self).tree.contains(x) && x != entity ==> final(
                    self).tree.children_of(x) == old(self).tree.children_of(x),
            from < old(self).tree.children_of(entity).len() ==> forall|k: usize|
                #[trigger] in_removed_branches(
                    old(self).tree,
                    old(self).tree.children_of(entity).skip(from as int),
                    old(self).tree.children_of(entity).skip(from as int).len() as int,
                    k,
                ) ==> final(self).stores_absent_at(k),
            from < old(self).tree.children_of(entity).len() ==> forall|k: usize|
                !(#[trigger] in_removed_branches(
                    old(self).tree,
                    old(self).tree.children_of(entity).skip(from as int),
                    old(self).tree.children_of(entity).skip(from as int).len() as int,
                    k,
                )) ==> {
                    &&& final(self).style.same_at(old(self).style, k)
                    &&& final(self).cache.as_map().dom().contains(k) == old(
                        self).cache.as_map().dom().contains(k)
                    &&& (final(self).cache.as_map().dom().contains(k) ==> final(
                        self).cache.as_map()[k] == old(self).cache.as_map()[k])
                    &&& final(self).data.contains_key(k) == old(self).data.contains_key(k)
                    &&& (final(self).data.contains_key(k) ==> observers_purged_by(
                        old(self).tree,
                        old(self).tree.children_of(entity).skip(from as int),
                        old(self).data.value_of(k),
                        final(self).data.value_of(k),
                    ))
                },
            final(self).style.rules == old(self).style.rules,
            final(self).style.default_font == old(self).style.default_font,
            final(self).current == old(self).current,
            final(self).count == old(self).count,
            final(self).event_queue == old(self).event_queue,
            final(self).event_schedule == old(self).event_schedule,
            final(self).captured == old(self).captured,
            final(self).hovered == old(self).hovered,
            final(self).focused == old(self).focused,
            final(self).resource_manager == old(self).resource_manager,
    {
        let n = match self.tree.get_num_children(entity) {
            Some(n) => n,
            None => {
                proof {
                    assert(false);
                }
                0
            },
        };
        if from >= n {
            proof {
                assert(old(self).tree.children_of(entity).take(
                    old(self).tree.children_of(entity).len() as int,
                ) =~= old(self).tree.children_of(entity));
            }
            return ;
        }
        // Collect the children to remove, for the observer purge.
        let mut roots: Vec<Entity> = Vec::new();
        let mut j: usize = from;
        while j < n
            invariant
                old(self).wf(),
                *self == *old(self),
                self.tree.contains(entity),
                n == self.tree.children_of(entity).len(),
                from <= j <= n,
                roots@ == self.tree.children_of(entity).subrange(from as int, j as int),
            decreases n - j,
        {
            match self.tree.get_child(entity, j) {
                Some(c) => {
                    roots.push(c);
                    proof {
                        assert(roots@ =~= self.tree.children_of(entity).subrange(
                            from as int,
                            j + 1,
                        ));
                    }
                },
                None => {
                    proof {
                        assert(false);
                    }
                },
            }
            j += 1;
        }
        let ghost cs = old(self).tree.children_of(entity);
        let ghost kept = cs.take(from as int);
        let ghost rl = cs.skip(from as int);
        proof {
            assert(roots@ =~= rl);
            assert(kept + rl =~= cs);
        }
        self.purge_observers_by(&roots);
        self.style.needs_restyle = true;
        self.style.needs_relayout = true;
        self.style.needs_redraw = true;
        let ghost mid = *self;
        proof {
            assert forall|k: usize| self.stores_same_at(mid, k) by {
                self.style.lemma_same_at_refl(k);
            }
            assert(self.tree.children_of(entity) == kept + rl.skip(0)) by {
                assert(kept + rl.skip(0) =~= cs);
            }
            assert(Context::remove_loop_inv(mid, *self, kept, rl, 0, entity));
        }
        let ghost mut rem: int = 0;
        let mut i: usize = from;
        // Remove the collected branches one by one.
        while i < n
            invariant
                old(self).wf(),
                mid.wf(),
                mid.tree == old(self).tree,
                old(self).tree.contains(entity),
                cs == old(self).tree.children_of(entity),
                kept == cs.take(from as int),
                rl == cs.skip(from as int),
                kept + rl == cs,
                from <= i <= n,
                n == cs.len(),
                rem == i - from,
                Context::remove_loop_inv(mid, *self, kept, rl, rem, entity),
            decreases n - i,
        {
            let ghost pre = *self;
            let c = match self.tree.get_child(entity, from) {
                Some(c) => c,
                None => {
                    proof {
                        assert(self.tree.children_of(entity).len() == kept.len() + rl.len()
                            - rem);
                        assert(false);
                    }
                    Entity::null()
                },
            };
            proof {
                assert(self.tree.children_of(entity)[from as int] == c);
                assert((kept + rl.skip(rem))[from as int] == c);
                assert(c == rl[rem]);
                assert(self.tree.contains(c)) by {
                    assert(self.tree.children_of(entity)[from as int] == c);
                }
                assert(c != Entity::spec_root());
            }
            self.remove_branch(c);
            proof {
                Context::lemma_remove_step(mid, pre, *self, kept, rl, rem, entity, c);
                rem = rem + 1;
            }
            i += 1;
        }
        proof {
            assert(rem == rl.len());
            assert(rl.skip(rem).len() == 0);
            assert(self.tree.children_of(entity) =~= kept);
            assert(self.tree.children_of(entity) == cs.take(from as int));
            // Relate the loop result (relative to mid) back to old(self).
            assert forall|x: Entity|
                #[trigger] final(self).tree.contains(x) <==> (old(self).tree.contains(x)
                    && !removed_desc(old(self).tree, rl, rl.len() as int, x)) by {}
            assert forall|k: usize|
                !(#[trigger] in_removed_branches(old(self).tree, rl, rl.len() as int, k)) implies {
                &&& final(self).style.same_at(old(self).style, k)
                &&& final(self).data.contains_key(k) == old(self).data.contains_key(k)
                &&& (final(self).data.contains_key(k) ==> observers_purged_by(
                    old(self).tree,
                    rl,
                    old(self).data.value_of(k),
                    final(self).data.value_of(k),
                ))
            } by {
                assert(self.stores_same_at(mid, k));
                mid.style.lemma_same_at_meta_change(old(self).style, k);
                self.style.lemma_same_at_trans(mid.style, old(self).style, k);
                assert(mid.data.sparse == old(self).data.sparse);
                if self.data.contains_key(k) {
                    assert(mid.data.contains_key(k) && old(self).data.contains_key(k));
                    let pos = old(self).data.dense_pos(k);
                    assert(mid.data.dense_pos(k) == pos);
                    assert(0 <= pos < old(self).data.dense@.len()) by {
                        assert(old(self).data.wf());
                    }
                    assert(observers_purged_by(
                        old(self).tree,
                        roots@,
                        old(self).data.dense@[pos].value,
                        mid.data.dense@[pos].value,
                    ));
                    assert(old(self).data.value_of(k) == old(self).data.dense@[pos].value);
                    assert(mid.data.value_of(k) == mid.data.dense@[pos].value);
                    assert(self.data.value_of(k) == mid.data.value_of(k));
                }
            }
        }
    }

    /// Removes every child of `entity`, each with its whole subtree.
    pub fn remove_children(&mut self, entity: Entity)
        requires
            old(self).wf(),
            old(self).tree.contains(entity),
        ensures
            final(self).wf(),
            final(self).tree.contains(entity),
            final(self).tree.children_of(entity).len() == 0,
            forall|x: Entity|
                #[trigger] final(self).tree.contains(x) <==> (old(self).tree.contains(x)
                    && !removed_desc(
                    old(self).tree,
                    old(self).tree.children_of(entity),
                    old(self).tree.children_of(entity).len() as int,
                    x,
                )),
            forall|x: Entity|
                #[trigger] final(self).tree.contains(x) ==> final(self).tree.parent_of(x) == old(
                    self).tree.parent_of(x) && final(self).tree.depth_of(x) == old(
                    self).tree.depth_of(x),
            forall|k: usize|
                #[trigger] in_removed_branches(
                    old(self).tree,
                    old(self).tree.children_of(entity),
                    old(self).tree.children_of(entity).len() as int,
                    k,
                ) ==> final(self).stores_absent_at(k),
            final(self).current == old(self).current,
            final(self).count == old(self).count,
            final(self).event_queue == old(self).event_queue,
            final(self).event_schedule == old(self).event_schedule,
    {
        self.remove_children_from(entity, 0);
        proof {
            let cs = old(self).tree.children_of(entity);
            assert(cs.skip(0) =~= cs);
            if 0 < cs.len() {
                assert(cs.take(0int) =~= Seq::<Entity>::empty());
            } else {
                assert(*final(self) == *old(self));
                assert forall|x: Entity|
                    #[trigger] final(self).tree.contains(x) <==> (old(self).tree.contains(x)
                        && !removed_desc(old(self).tree, cs, cs.len() as int, x)) by {
                    if removed_desc(old(self).tree, cs, cs.len() as int, x) {
                        let j = choose|j: int|
                            0 <= j < cs.len() && old(self).tree.is_descendant(x, cs[j]);
                        assert(false);
                    }
                }
                assert forall|k: usize|
                    #[trigger] in_removed_branches(old(self).tree, cs, cs.len() as int, k)
                    implies final(self).stores_absent_at(k) by {
                    let j = choose|j: int| 0 <= j < cs.len() && in_branch(old(self).tree, cs[j], k);
                    assert(false);
                }
            }
        }
    }

    /// Removes the children of the current entity that were cached in the
    /// tree beyond the `count` already rebuilt: everything from index `count`
    /// on is discarded with its subtree, so a rebuild leaves no stale
    /// entities behind.
    pub fn remove_trailing_children(&mut self)
        requires
            old(self).wf(),
            old(self).tree.contains(old(self).current),
        ensures
            final(self).wf(),
            final(self).tree.contains(old(self).current),
            final(self).tree.children_of(old(self).current) == old(self).tree.children_of(
                old(self).current,
            ).take(
                (if old(self).count < old(self).tree.children_of(old(self).current).len() {
                    old(self).count as int
                } else {
                    old(self).tree.children_of(old(self).current).len() as int
                }),
            ),
            old(self).count < old(self).tree.children_of(old(self).current).len() ==> forall|
                x: Entity,
            |
                #[trigger] final(self).tree.contains(x) <==> (old(self).tree.contains(x)
                    && !removed_desc(
                    old(self).tree,
                    old(self).tree.children_of(old(self).current).skip(old(self).count as int),
                    old(self).tree.children_of(old(self).current).skip(
                        old(self).count as int,
                    ).len() as int,
                    x,
                )),
            old(self).count >= old(self).tree.children_of(old(self).current).len() ==> *final(self)
                == *old(self),
            old(self).count < old(self).tree.children_of(old(self).current).len() ==> forall|
                k: usize,
            |
                #[trigger] in_removed_branches(
                    old(self).tree,
                    old(self).tree.children_of(old(self).current).skip(old(self).count as int),
                    old(self).tree.children_of(old(self).current).skip(
                        old(self).count as int,
                    ).len() as int,
                    k,
                ) ==> final(self).stores_absent_at(k),
            final(self).current == old(self).current,
            final(self).count == old(self).count,
    {
        let cur = self.current;
        let cnt = self.count;
        self.remove_children_from(cur, cnt);
    }
}

} // verus!

verus! {

/// An exact copy of a list of strings.
fn clone_string_vec(v: &Vec<String>) -> (r: Vec<String>)
    ensures
        r@ == v@,
{
    let n = v.len();
    let mut r: Vec<String> = Vec::new();
    let mut i: usize = 0;
    while i < n
        invariant
            n == v@.len(),
            i <= n,
            r@ == v@.take(i as int),
        decreases n - i,
    {
        r.push(v[i].clone());
        proof {
            assert(r@ =~= v@.take(i + 1));
        }
        i += 1;
    }
    proof {
        assert(v@.take(n as int) =~= v@);
    }
    r
}

impl<M, L: Lens> Context<M, L> {
    /// Sets the mouse cursor shown over the entity.
    pub fn cursor(&mut self, e: Entity, value: crate::style_types::CursorIcon)
        requires
            old(self).wf(),
            old(self).tree.contains(e),
        ensures
            final(self).wf(),
            final(self).style.cursor.contains_key(e.spec_index() as usize),
            final(self).style.cursor.value_of(e.spec_index() as usize) == value,
            final(self).same_but_style(*old(self)),
            final(self).style.needs_redraw,
    {
        proof {
            assert(old(self).tree.slots@.len() == vstd::std_specs::vec::spec_vec_len(
                &old(self).tree.slots,
            ));
        }
        let r_cursor = self.style.cursor.insert(e.index(), value.clone());
        proof {
            assert(r_cursor is Ok);
            self.style.cursor.lemma_as_map_point(e.spec_index() as usize);
        }
        self.style.needs_redraw = true;
    }

    /// Sets the entity's font by name.
    pub fn font(&mut self, e: Entity, value: String)
        requires
            old(self).wf(),
            old(self).tree.contains(e),
        ensures
            final(self).wf(),
            final(self).style.font.contains_key(e.spec_index() as usize),
            final(self).style.font.value_of(e.spec_index() as usize) == value,
            final(self).same_but_style(*old(self)),
            final(self).style.needs_redraw,
    {
        proof {
            assert(old(self).tree.slots@.len() == vstd::std_specs::vec::spec_vec_len(
                &old(self).tree.slots,
            ));
        }
        let r_font = self.style.font.insert(e.index(), value.clone());
        proof {
            assert(r_font is Ok);
            self.style.font.lemma_as_map_point(e.spec_index() as usize);
        }
        self.style.needs_redraw = true;
    }

    /// Sets the entity's text.  Setting the text an entity already shows is
    /// a complete no-op — nothing is stored and no redraw is requested — so
    /// calling twice with one value equals calling once.
    pub fn text(&mut self, e: Entity, value: String)
        requires
            old(self).wf(),
            old(self).tree.contains(e),
        ensures
            final(self).wf(),
            final(self).same_but_style(*old(self)),
            final(self).style.text.contains_key(e.spec_index() as usize),
            final(self).style.text.value_of(e.spec_index() as usize)@ == value@,
            (old(self).style.text.contains_key(e.spec_index() as usize) && old(
                self).style.text.value_of(e.spec_index() as usize)@ == value@) ==> *final(self)
                == *old(self),
            !(old(self).style.text.contains_key(e.spec_index() as usize) && old(
                self).style.text.value_of(e.spec_index() as usize)@ == value@) ==> {
                &&& final(self).style == (crate::style::Style {
                    text: final(self).style.text,
                    needs_redraw: true,
                    ..old(self).style
                })
                &&& final(self).style.text.as_map() == old(self).style.text.as_map().insert(
                    e.spec_index() as usize,
                    value,
                )
                &&& final(self).style.needs_redraw
            },
    {
        let same = match self.style.text.get(e.index()) {
            Some(existing) => {
                let ea: &str = existing;
                let va: &str = &value;
                crate::color::str_eq(ea, va)
            },
            None => false,
        };
        if same {
            return ;
        }
        proof {
            assert(old(self).tree.slots@.len() == vstd::std_specs::vec::spec_vec_len(
                &old(self).tree.slots,
            ));
        }
        let r_text = self.style.text.insert(e.index(), value);
        proof {
            assert(r_text is Ok);
            self.style.text.lemma_as_map_point(e.spec_index() as usize);
        }
        self.style.needs_redraw = true;
    }

    /// Sets whether the entity is disabled.
    pub fn disabled(&mut self, e: Entity, value: bool)
        requires
            old(self).wf(),
            old(self).tree.contains(e),
        ensures
            final(self).wf(),
            final(self).style.disabled.contains_key(e.spec_index() as usize),
            final(self).style.disabled.value_of(e.spec_index() as usize) == value,
            final(self).same_but_style(*old(self)),
            final(self).style.needs_restyle,
    {
        proof {
            assert(old(self).tree.slots@.len() == vstd::std_specs::vec::spec_vec_len(
                &old(self).tree.slots,
            ));
        }
        let r_disabled = self.style.disabled.insert(e.index(), value.clone());
        proof {
            assert(r_disabled is Ok);
            self.style.disabled.lemma_as_map_point(e.spec_index() as usize);
        }
        self.style.needs_restyle = true;
    }

    /// Sets the explicit stacking order.
    pub fn z_order(&mut self, e: Entity, value: i32)
        requires
            old(self).wf(),
            old(self).tree.contains(e),
        ensures
            final(self).wf(),
            final(self).style.z_order.contains_key(e.spec_index() as usize),
            final(self).style.z_order.value_of(e.spec_index() as usize) == value,
            final(self).same_but_style(*old(self)),
            final(self).style.needs_redraw,
    {
        proof {
            assert(old(self).tree.slots@.len() == vstd::std_specs::vec::spec_vec_len(
                &old(self).tree.slots,
            ));
        }
        let r_z_order = self.style.z_order.insert(e.index(), value.clone());
        proof {
            assert(r_z_order is Ok);
            self.style.z_order.lemma_as_map_point(e.spec_index() as usize);
        }
        self.style.needs_redraw = true;
    }

    /// Sets how overflowing content is treated.
    pub fn overflow(&mut self, e: Entity, value: crate::style_types::Overflow)
        requires
            old(self).wf(),
            old(self).tree.contains(e),
        ensures
            final(self).wf(),
            final(self).style.overflow.contains_key(e.spec_index() as usize),
            final(self).style.overflow.value_of(e.spec_index() as usize) == value,
            final(self).same_but_style(*old(self)),
            final(self).style.needs_redraw,
    {
        proof {
            assert(old(self).tree.slots@.len() == vstd::std_specs::vec::spec_vec_len(
                &old(self).tree.slots,
            ));
        }
        let r_overflow = self.style.overflow.insert(e.index(), value.clone());
        proof {
            assert(r_overflow is Ok);
            self.style.overflow.lemma_as_map_point(e.spec_index() as usize);
        }
        self.style.needs_redraw = true;
    }

    /// Sets whether the entity takes part in layout.
    pub fn display(&mut self, e: Entity, value: crate::style_types::Display)
        requires
            old(self).wf(),
            old(self).tree.contains(e),
        ensures
            final(self).wf(),
            final(self).style.display.contains_key(e.spec_index() as usize),
            final(self).style.display.value_of(e.spec_index() as usize) == value,
            final(self).same_but_style(*old(self)),
            final(self).style.needs_relayout,
            final(self).style.needs_redraw,
    {
        proof {
            assert(old(self).tree.slots@.len() == vstd::std_specs::vec::spec_vec_len(
                &old(self).tree.slots,
            ));
        }
        let r_display = self.style.display.insert(e.index(), value.clone());
        proof {
            assert(r_display is Ok);
            self.style.display.lemma_as_map_point(e.spec_index() as usize);
        }
        self.style.needs_relayout = true;
        self.style.needs_redraw = true;
    }

    /// Sets whether the entity is drawn.
    pub fn visibility(&mut self, e: Entity, value: crate::style_types::Visibility)
        requires
            old(self).wf(),
            old(self).tree.contains(e),
        ensures
            final(self).wf(),
            final(self).style.visibility.contains_key(e.spec_index() as usize),
            final(self).style.visibility.value_of(e.spec_index() as usize) == value,
            final(self).same_but_style(*old(self)),
            final(self).style.needs_redraw,
    {
        proof {
            assert(old(self).tree.slots@.len() == vstd::std_specs::vec::spec_vec_len(
                &old(self).tree.slots,
            ));
        }
        let r_visibility = self.style.visibility.insert(e.index(), value.clone());
        proof {
            assert(r_visibility is Ok);
            self.style.visibility.lemma_as_map_point(e.spec_index() as usize);
        }
        self.style.needs_redraw = true;
    }

    /// Sets the text color.
    pub fn color(&mut self, e: Entity, value: crate::color::Color)
        requires
            old(self).wf(),
            old(self).tree.contains(e),
        ensures
            final(self).wf(),
            final(self).style.font_color.contains_key(e.spec_index() as usize),
            final(self).style.font_color.value_of(e.spec_index() as usize) == value,
            final(self).same_but_style(*old(self)),
    {
        proof {
            assert(old(self).tree.slots@.len() == vstd::std_specs::vec::spec_vec_len(
                &old(self).tree.slots,
            ));
        }
        let r_font_color = self.style.font_color.insert(e.index(), value.clone());
        proof {
            assert(r_font_color is Ok);
            self.style.font_color.lemma_as_map_point(e.spec_index() as usize);
        }
    }

    /// Sets the background color.
    pub fn background_color(&mut self, e: Entity, value: crate::color::Color)
        requires
            old(self).wf(),
            old(self).tree.contains(e),
        ensures
            final(self).wf(),
            final(self).style.background_color.contains_key(e.spec_index() as usize),
            final(self).style.background_color.value_of(e.spec_index() as usize) == value,
            final(self).same_but_style(*old(self)),
            final(self).style.needs_relayout,
            final(self).style.needs_redraw,
    {
        proof {
            assert(old(self).tree.slots@.len() == vstd::std_specs::vec::spec_vec_len(
                &old(self).tree.slots,
            ));
        }
        let r_background_color = self.style.background_color.insert(e.index(), value.clone());
        proof {
            assert(r_background_color is Ok);
            self.style.background_color.lemma_as_map_point(e.spec_index() as usize);
        }
        self.style.needs_relayout = true;
        self.style.needs_redraw = true;
    }

    /// Sets the requested width.
    pub fn width(&mut self, e: Entity, value: crate::units::Units)
        requires
            old(self).wf(),
            old(self).tree.contains(e),
        ensures
            final(self).wf(),
            final(self).style.width.contains_key(e.spec_index() as usize),
            final(self).style.width.value_of(e.spec_index() as usize) == value,
            final(self).same_but_style(*old(self)),
            final(self).style.needs_relayout,
            final(self).style.needs_redraw,
    {
        proof {
            assert(old(self).tree.slots@.len() == vstd::std_specs::vec::spec_vec_len(
                &old(self).tree.slots,
            ));
        }
        let r_width = self.style.width.insert(e.index(), value.clone());
        proof {
            assert(r_width is Ok);
            self.style.width.lemma_as_map_point(e.spec_index() as usize);
        }
        self.style.needs_relayout = true;
        self.style.needs_redraw = true;
    }

    /// Sets the requested height.
    pub fn height(&mut self, e: Entity, value: crate::units::Units)
        requires
            old(self).wf(),
            old(self).tree.contains(e),
        ensures
            final(self).wf(),
            final(self).style.height.contains_key(e.spec_index() as usize),
            final(self).style.height.value_of(e.spec_index() as usize) == value,
            final(self).same_but_style(*old(self)),
            final(self).style.needs_relayout,
            final(self).style.needs_redraw,
    {
        proof {
            assert(old(self).tree.slots@.len() == vstd::std_specs::vec::spec_vec_len(
                &old(self).tree.slots,
            ));
        }
        let r_height = self.style.height.insert(e.index(), value.clone());
        proof {
            assert(r_height is Ok);
            self.style.height.lemma_as_map_point(e.spec_index() as usize);
        }
        self.style.needs_relayout = true;
        self.style.needs_redraw = true;
    }

    /// Sets how children are arranged.
    pub fn layout_type(&mut self, e: Entity, value: crate::style_types::LayoutType)
        requires
            old(self).wf(),
            old(self).tree.contains(e),
        ensures
            final(self).wf(),
            final(self).style.layout_type.contains_key(e.spec_index() as usize),
            final(self).style.layout_type.value_of(e.spec_index() as usize) == value,
            final(self).same_but_style(*old(self)),
            final(self).style.needs_relayout,
            final(self).style.needs_redraw,
    {
        proof {
            assert(old(self).tree.slots@.len() == vstd::std_specs::vec::spec_vec_len(
                &old(self).tree.slots,
            ));
        }
        let r_layout_type = self.style.layout_type.insert(e.index(), value.clone());
        proof {
            assert(r_layout_type is Ok);
            self.style.layout_type.lemma_as_map_point(e.spec_index() as usize);
        }
        self.style.needs_relayout = true;
        self.style.needs_redraw = true;
    }

    /// Sets how the entity is positioned.
    pub fn position_type(&mut self, e: Entity, value: crate::style_types::PositionType)
        requires
            old(self).wf(),
            old(self).tree.contains(e),
        ensures
            final(self).wf(),
            final(self).style.position_type.contains_key(e.spec_index() as usize),
            final(self).style.position_type.value_of(e.spec_index() as usize) == value,
            final(self).same_but_style(*old(self)),
            final(self).style.needs_relayout,
            final(self).style.needs_redraw,
    {
        proof {
            assert(old(self).tree.slots@.len() == vstd::std_specs::vec::spec_vec_len(
                &old(self).tree.slots,
            ));
        }
        let r_position_type = self.style.position_type.insert(e.index(), value.clone());
        proof {
            assert(r_position_type is Ok);
            self.style.position_type.lemma_as_map_point(e.spec_index() as usize);
        }
        self.style.needs_relayout = true;
        self.style.needs_redraw = true;
    }

    /// Sets all four child-space insets at once.
    pub fn child_space(&mut self, e: Entity, value: crate::units::Units)
        requires
            old(self).wf(),
            old(self).tree.contains(e),
        ensures
            final(self).wf(),
            final(self).style.child_left.contains_key(e.spec_index() as usize),
            final(self).style.child_left.value_of(e.spec_index() as usize) == value,
            final(self).style.child_right.contains_key(e.spec_index() as usize),
            final(self).style.child_right.value_of(e.spec_index() as usize) == value,
            final(self).style.child_top.contains_key(e.spec_index() as usize),
            final(self).style.child_top.value_of(e.spec_index() as usize) == value,
            final(self).style.child_bottom.contains_key(e.spec_index() as usize),
            final(self).style.child_bottom.value_of(e.spec_index() as usize) == value,
            final(self).same_but_style(*old(self)),
            final(self).style.needs_relayout,
            final(self).style.needs_redraw,
    {
        proof {
            assert(old(self).tree.slots@.len() == vstd::std_specs::vec::spec_vec_len(
                &old(self).tree.slots,
            ));
        }
        let r_child_left = self.style.child_left.insert(e.index(), value.clone());
        proof {
            assert(r_child_left is Ok);
            self.style.child_left.lemma_as_map_point(e.spec_index() as usize);
        }
        let r_child_right = self.style.child_right.insert(e.index(), value.clone());
        proof {
            assert(r_child_right is Ok);
            self.style.child_right.lemma_as_map_point(e.spec_index() as usize);
        }
        let r_child_top = self.style.child_top.insert(e.index(), value.clone());
        proof {
            assert(r_child_top is Ok);
            self.style.child_top.lemma_as_map_point(e.spec_index() as usize);
        }
        let r_child_bottom = self.style.child_bottom.insert(e.index(), value.clone());
        proof {
            assert(r_child_bottom is Ok);
            self.style.child_bottom.lemma_as_map_point(e.spec_index() as usize);
        }
        self.style.needs_relayout = true;
        self.style.needs_redraw = true;
    }

    /// Sets all four outer spaces at once.
    pub fn space(&mut self, e: Entity, value: crate::units::Units)
        requires
            old(self).wf(),
            old(self).tree.contains(e),
        ensures
            final(self).wf(),
            final(self).style.left.contains_key(e.spec_index() as usize),
            final(self).style.left.value_of(e.spec_index() as usize) == value,
            final(self).style.right.contains_key(e.spec_index() as usize),
            final(self).style.right.value_of(e.spec_index() as usize) == value,
            final(self).style.top.contains_key(e.spec_index() as usize),
            final(self).style.top.value_of(e.spec_index() as usize) == value,
            final(self).style.bottom.contains_key(e.spec_index() as usize),
            final(self).style.bottom.value_of(e.spec_index() as usize) == value,
            final(self).same_but_style(*old(self)),
            final(self).style.needs_relayout,
            final(self).style.needs_redraw,
    {
        proof {
            assert(old(self).tree.slots@.len() == vstd::std_specs::vec::spec_vec_len(
                &old(self).tree.slots,
            ));
        }
        let r_left = self.style.left.insert(e.index(), value.clone());
        proof {
            assert(r_left is Ok);
            self.style.left.lemma_as_map_point(e.spec_index() as usize);
        }
        let r_right = self.style.right.insert(e.index(), value.clone());
        proof {
            assert(r_right is Ok);
            self.style.right.lemma_as_map_point(e.spec_index() as usize);
        }
        let r_top = self.style.top.insert(e.index(), value.clone());
        proof {
            assert(r_top is Ok);
            self.style.top.lemma_as_map_point(e.spec_index() as usize);
        }
        let r_bottom = self.style.bottom.insert(e.index(), value.clone());
        proof {
            assert(r_bottom is Ok);
            self.style.bottom.lemma_as_map_point(e.spec_index() as usize);
        }
        self.style.needs_relayout = true;
        self.style.needs_redraw = true;
    }

    /// Sets the width and the height.
    pub fn size(&mut self, e: Entity, value: crate::units::Units)
        requires
            old(self).wf(),
            old(self).tree.contains(e),
        ensures
            final(self).wf(),
            final(self).style.width.contains_key(e.spec_index() as usize),
            final(self).style.width.value_of(e.spec_index() as usize) == value,
            final(self).style.height.contains_key(e.spec_index() as usize),
            final(self).style.height.value_of(e.spec_index() as usize) == value,
            final(self).same_but_style(*old(self)),
            final(self).style.needs_relayout,
            final(self).style.needs_redraw,
    {
        proof {
            assert(old(self).tree.slots@.len() == vstd::std_specs::vec::spec_vec_len(
                &old(self).tree.slots,
            ));
        }
        let r_width = self.style.width.insert(e.index(), value.clone());
        proof {
            assert(r_width is Ok);
            self.style.width.lemma_as_map_point(e.spec_index() as usize);
        }
        let r_height = self.style.height.insert(e.index(), value.clone());
        proof {
            assert(r_height is Ok);
            self.style.height.lemma_as_map_point(e.spec_index() as usize);
        }
        self.style.needs_relayout = true;
        self.style.needs_redraw = true;
    }

    /// Sets the minimum width and height.
    pub fn min_size(&mut self, e: Entity, value: crate::units::Units)
        requires
            old(self).wf(),
            old(self).tree.contains(e),
        ensures
            final(self).wf(),
            final(self).style.min_width.contains_key(e.spec_index() as usize),
            final(self).style.min_width.value_of(e.spec_index() as usize) == value,
            final(self).style.min_height.contains_key(e.spec_index() as usize),
            final(self).style.min_height.value_of(e.spec_index() as usize) == value,
            final(self).same_but_style(*old(self)),
            final(self).style.needs_relayout,
            final(self).style.needs_redraw,
    {
        proof {
            assert(old(self).tree.slots@.len() == vstd::std_specs::vec::spec_vec_len(
                &old(self).tree.slots,
            ));
        }
        let r_min_width = self.style.min_width.insert(e.index(), value.clone());
        proof {
            assert(r_min_width is Ok);
            self.style.min_width.lemma_as_map_point(e.spec_index() as usize);
        }
        let r_min_height = self.style.min_height.insert(e.index(), value.clone());
        proof {
            assert(r_min_height is Ok);
            self.style.min_height.lemma_as_map_point(e.spec_index() as usize);
        }
        self.style.needs_relayout = true;
        self.style.needs_redraw = true;
    }

    /// Sets the maximum width and height.
    pub fn max_size(&mut self, e: Entity, value: crate::units::Units)
        requires
            old(self).wf(),
            old(self).tree.contains(e),
        ensures
            final(self).wf(),
            final(self).style.max_width.contains_key(e.spec_index() as usize),
            final(self).style.max_width.value_of(e.spec_index() as usize) == value,
            final(self).style.max_height.contains_key(e.spec_index() as usize),
            final(self).style.max_height.value_of(e.spec_index() as usize) == value,
            final(self).same_but_style(*old(self)),
            final(self).style.needs_relayout,
            final(self).style.needs_redraw,
    {
        proof {
            assert(old(self).tree.slots@.len() == vstd::std_specs::vec::spec_vec_len(
                &old(self).tree.slots,
            ));
        }
        let r_max_width = self.style.max_width.insert(e.index(), value.clone());
        proof {
            assert(r_max_width is Ok);
            self.style.max_width.lemma_as_map_point(e.spec_index() as usize);
        }
        let r_max_height = self.style.max_height.insert(e.index(), value.clone());
        proof {
            assert(r_max_height is Ok);
            self.style.max_height.lemma_as_map_point(e.spec_index() as usize);
        }
        self.style.needs_relayout = true;
        self.style.needs_redraw = true;
    }

    /// Sets all four border corner radii at once.
    pub fn border_radius(&mut self, e: Entity, value: crate::units::Units)
        requires
            old(self).wf(),
            old(self).tree.contains(e),
        ensures
            final(self).wf(),
            final(self).style.border_radius_top_left.contains_key(e.spec_index() as usize),
            final(self).style.border_radius_top_left.value_of(e.spec_index() as usize) == value,
            final(self).style.border_radius_top_right.contains_key(e.spec_index() as usize),
            final(self).style.border_radius_top_right.value_of(e.spec_index() as usize) == value,
            final(self).style.border_radius_bottom_left.contains_key(e.spec_index() as usize),
            final(self).style.border_radius_bottom_left.value_of(e.spec_index() as usize) == value,
            final(self).style.border_radius_bottom_right.contains_key(e.spec_index() as usize),
            final(self).style.border_radius_bottom_right.value_of(e.spec_index() as usize) == value,
            final(self).same_but_style(*old(self)),
            final(self).style.needs_redraw,
    {
        proof {
            assert(old(self).tree.slots@.len() == vstd::std_specs::vec::spec_vec_len(
                &old(self).tree.slots,
            ));
        }
        let r_border_radius_top_left = self.style.border_radius_top_left.insert(e.index(), value.clone());
        proof {
            assert(r_border_radius_top_left is Ok);
            self.style.border_radius_top_left.lemma_as_map_point(e.spec_index() as usize);
        }
        let r_border_radius_top_right = self.style.border_radius_top_right.insert(e.index(), value.clone());
        proof {
            assert(r_border_radius_top_right is Ok);
            self.style.border_radius_top_right.lemma_as_map_point(e.spec_index() as usize);
        }
        let r_border_radius_bottom_left = self.style.border_radius_bottom_left.insert(e.index(), value.clone());
        proof {
            assert(r_border_radius_bottom_left is Ok);
            self.style.border_radius_bottom_left.lemma_as_map_point(e.spec_index() as usize);
        }
        let r_border_radius_bottom_right = self.style.border_radius_bottom_right.insert(e.index(), value.clone());
        proof {
            assert(r_border_radius_bottom_right is Ok);
            self.style.border_radius_bottom_right.lemma_as_map_point(e.spec_index() as usize);
        }
        self.style.needs_redraw = true;
    }

    /// Adds a style class to the entity; matching `.name` selectors then
    /// apply.  A class already present is not added again.
    pub fn class(&mut self, e: Entity, name: &str)
        requires
            old(self).wf(),
            old(self).tree.contains(e),
        ensures
            final(self).wf(),
            final(self).same_but_style(*old(self)),
            final(self).style.needs_restyle,
            final(self).style.classes.contains_key(e.spec_index() as usize),
            crate::style::class_present(
                final(self).style.classes.value_of(e.spec_index() as usize)@,
                name@,
            ),
            // Only this entity's class list changes, and only the restyle
            // flag besides; every other store and entity is untouched.
            (final(self).style == (crate::style::Style {
                classes: final(self).style.classes,
                needs_restyle: true,
                ..old(self).style
            })),
            final(self).style.classes.as_map() == old(self).style.classes.as_map().insert(
                e.spec_index() as usize,
                final(self).style.classes.value_of(e.spec_index() as usize),
            ),
            // The previous classes are all kept in order; at most `name` is
            // appended, and only when it was absent.
            ({
                let oldl: Seq<String> = if old(self).style.classes.contains_key(
                    e.spec_index() as usize,
                ) {
                    old(self).style.classes.value_of(e.spec_index() as usize)@
                } else {
                    Seq::<String>::empty()
                };
                let newl = final(self).style.classes.value_of(e.spec_index() as usize)@;
                &&& (crate::style::class_present(oldl, name@) ==> newl == oldl)
                &&& (!crate::style::class_present(oldl, name@) ==> newl.len() == oldl.len() + 1
                    && newl.take(oldl.len() as int) == oldl && newl.last()@ == name@)
            }),
    {
        proof {
            assert(old(self).tree.slots@.len() == vstd::std_specs::vec::spec_vec_len(
                &old(self).tree.slots,
            ));
        }
        let k = e.index();
        let mut list: Vec<String> = match self.style.classes.get(k) {
            Some(l) => clone_string_vec(l),
            None => Vec::new(),
        };
        let ghost oldl: Seq<String> = list@;
        let n = list.len();
        let mut present = false;
        let mut i: usize = 0;
        while i < n
            invariant
                n == list@.len(),
                i <= n,
                present == exists|j: int| 0 <= j < i && list@[j]@ == name@,
            decreases n - i,
        {
            let la: &str = &list[i];
            if crate::color::str_eq(la, name) {
                present = true;
            }
            i += 1;
        }
        proof {
            assert(present == crate::style::class_present(oldl, name@)) by {
                if present {
                    let j = choose|j: int| 0 <= j < n && list@[j]@ == name@;
                    assert(oldl[j]@ == name@);
                } else if crate::style::class_present(oldl, name@) {
                    let j = choose|j: int| 0 <= j < oldl.len() && oldl[j]@ == name@;
                    assert(list@[j]@ == name@);
                }
            }
        }
        if !present {
            list.push(name.to_owned());
            proof {
                assert(list@.last()@ == name@);
                assert(list@.take(oldl.len() as int) =~= oldl);
            }
        }
        proof {
            assert(crate::style::class_present(list@, name@)) by {
                if present {
                    let j = choose|j: int| 0 <= j < n && list@[j]@ == name@;
                    assert(list@[j]@ == name@);
                } else {
                    assert(list@[list@.len() - 1]@ == name@);
                }
            }
        }
        let r = self.style.classes.insert(k, list);
        proof {
            assert(r is Ok);
            self.style.classes.lemma_as_map_point(e.spec_index() as usize);
        }
        self.style.needs_restyle = true;
    }

    /// Sets or clears the `checked` pseudo-class of the entity.
    pub fn checked(&mut self, e: Entity, state: bool)
        requires
            old(self).wf(),
            old(self).tree.contains(e),
        ensures
            final(self).wf(),
            final(self).same_but_style(*old(self)),
            final(self).style.needs_restyle,
            final(self).style.pseudo_classes.contains_key(e.spec_index() as usize),
            crate::style_types::spec_has_bits(
                final(self).style.pseudo_classes.value_of(e.spec_index() as usize),
                crate::style_types::PSEUDO_CHECKED,
            ) == state,
            // Only this entity's pseudo-class bits change, only in the
            // checked bit, and only the restyle flag besides.
            (final(self).style == (crate::style::Style {
                pseudo_classes: final(self).style.pseudo_classes,
                needs_restyle: true,
                ..old(self).style
            })),
            final(self).style.pseudo_classes.as_map() == old(
                self).style.pseudo_classes.as_map().insert(
                e.spec_index() as usize,
                final(self).style.pseudo_classes.value_of(e.spec_index() as usize),
            ),
            ({
                let prev: u32 = if old(self).style.pseudo_classes.contains_key(
                    e.spec_index() as usize,
                ) {
                    old(self).style.pseudo_classes.value_of(e.spec_index() as usize)
                } else {
                    0
                };
                final(self).style.pseudo_classes.value_of(e.spec_index() as usize) == (if state {
                    prev | crate::style_types::PSEUDO_CHECKED
                } else {
                    prev & !crate::style_types::PSEUDO_CHECKED
                })
            }),
    {
        proof {
            assert(old(self).tree.slots@.len() == vstd::std_specs::vec::spec_vec_len(
                &old(self).tree.slots,
            ));
        }
        let k = e.index();
        let prev: u32 = match self.style.pseudo_classes.get(k) {
            Some(p) => *p,
            None => 0,
        };
        let next: u32 = if state {
            prev | crate::style_types::PSEUDO_CHECKED
        } else {
            prev & !crate::style_types::PSEUDO_CHECKED
        };
        proof {
            assert(crate::style_types::spec_has_bits(next, crate::style_types::PSEUDO_CHECKED)
                == state) by (bit_vector)
                requires
                    next == (if state {
                        prev | 32u32
                    } else {
                        prev & !32u32
                    }),
            ;
        }
        let r = self.style.pseudo_classes.insert(k, next);
        proof {
            assert(r is Ok);
            self.style.pseudo_classes.lemma_as_map_point(e.spec_index() as usize);
        }
        self.style.needs_restyle = true;
    }

    /// Sets or clears the `hoverable` ability of the entity.
    pub fn hoverable(&mut self, e: Entity, state: bool)
        requires
            old(self).wf(),
            old(self).tree.contains(e),
        ensures
            final(self).wf(),
            final(self).same_but_style(*old(self)),
            final(self).style.needs_restyle,
            final(self).style.abilities.contains_key(e.spec_index() as usize),
            crate::style_types::spec_has_bits(
                final(self).style.abilities.value_of(e.spec_index() as usize),
                crate::style_types::ABILITY_HOVERABLE,
            ) == state,
    {
        proof {
            assert(old(self).tree.slots@.len() == vstd::std_specs::vec::spec_vec_len(
                &old(self).tree.slots,
            ));
        }
        let k = e.index();
        let prev: u32 = match self.style.abilities.get(k) {
            Some(p) => *p,
            None => 0,
        };
        let next: u32 = if state {
            prev | crate::style_types::ABILITY_HOVERABLE
        } else {
            prev & !crate::style_types::ABILITY_HOVERABLE
        };
        proof {
            assert(crate::style_types::spec_has_bits(
                next,
                crate::style_types::ABILITY_HOVERABLE,
            ) == state) by (bit_vector)
                requires
                    next == (if state {
                        prev | 1u32
                    } else {
                        prev & !1u32
                    }),
            ;
        }
        let r = self.style.abilities.insert(k, next);
        proof {
            assert(r is Ok);
            self.style.abilities.lemma_as_map_point(e.spec_index() as usize);
        }
        self.style.needs_restyle = true;
    }

    /// Re-runs the cascade for every entity in the tree and clears the
    /// restyle flag.
    pub fn process_style_updates(&mut self)
        requires
            old(self).wf(),
        ensures
            final(self).wf(),
            !final(self).style.needs_restyle,
            final(self).style.match_env() == old(self).style.match_env(),
            final(self).style.rules == old(self).style.rules,
            final(self).same_but_style(*old(self)),
            // The pass is exactly the cascade folded over every entity in
            // the tree, in slot order.
            final(self).style.maps() == crate::style::restyle_all(
                old(self).style.match_env(),
                old(self).tree,
                old(self).style.maps(),
                old(self).style.rules@,
                old(self).tree.slots@.len() as int,
            ),
            final(self).style.needs_relayout == old(self).style.needs_relayout,
            final(self).style.needs_redraw == old(self).style.needs_redraw,
            final(self).style.default_font == old(self).style.default_font,
    {
        let n = self.tree.slots.len();
        let mut i: usize = 0;
        while i < n
            invariant
                old(self).wf(),
                self.wf(),
                n == self.tree.slots@.len(),
                i <= n,
                self.tree == old(self).tree,
                self.style.match_env() == old(self).style.match_env(),
                self.style.rules == old(self).style.rules,
                self.same_but_style(*old(self)),
                self.style.maps() == crate::style::restyle_all(
                    old(self).style.match_env(),
                    old(self).tree,
                    old(self).style.maps(),
                    old(self).style.rules@,
                    i as int,
                ),
                self.style.needs_relayout == old(self).style.needs_relayout,
                self.style.needs_redraw == old(self).style.needs_redraw,
                self.style.needs_restyle == old(self).style.needs_restyle,
                self.style.default_font == old(self).style.default_font,
            decreases n - i,
        {
            let target: Option<Entity> = match &self.tree.slots[i] {
                Some(node) => Some(node.entity),
                None => None,
            };
            let ghost pre_maps = self.style.maps();
            match target {
                Some(e) => {
                    proof {
                        assert(self.tree.contains(e));
                        assert(self.tree.slots@.len() == vstd::std_specs::vec::spec_vec_len(
                            &self.tree.slots,
                        ));
                    }
                    let tree = &self.tree;
                    self.style.restyle_entity(tree, e);
                    proof {
                        assert(old(self).tree.slots@[i as int]->Some_0.entity == e);
                        assert(self.style.maps() == crate::style::restyle_all(
                            old(self).style.match_env(),
                            old(self).tree,
                            old(self).style.maps(),
                            old(self).style.rules@,
                            i + 1,
                        ));
                    }
                },
                None => {
                    proof {
                        assert(self.style.maps() == crate::style::restyle_all(
                            old(self).style.match_env(),
                            old(self).tree,
                            old(self).style.maps(),
                            old(self).style.rules@,
                            i + 1,
                        ));
                    }
                },
            }
            i += 1;
        }
        self.style.needs_restyle = false;
    }
}

} // verus!
verus! {

impl<M, L: Lens> Context<M, L> {
    /// The pseudo-class and ability state the focus rules read.
    pub open spec fn spec_has_ability(self, node: Entity, mask: u32) -> bool {
        &&& self.style.abilities.contains_key(node.spec_index() as usize)
        &&& crate::style_types::spec_has_bits(
            self.style.abilities.value_of(node.spec_index() as usize),
            mask,
        )
    }

    /// Does the entity have every ability bit of `mask`?
    pub fn has_ability(&self, node: Entity, mask: u32) -> (r: bool)
        requires
            self.wf(),
        ensures
            r == self.spec_has_ability(node, mask),
    {
        match self.style.abilities.get(node.index()) {
            Some(bits) => crate::style_types::has_bits(*bits, mask),
            None => false,
        }
    }

    /// Whether tabbing can move onto `node`: it must be visible, enabled,
    /// displayed, inside the focus-locked subtree, and navigable.
    pub fn is_navigatable(&self, node: Entity, lock_focus_to: Entity) -> (r: bool)
        requires
            self.wf(),
        ensures
            r == {
                &&& self.cache.get_spec(node).visibility != crate::style_types::Visibility::Invisible
                &&& !(self.style.disabled.contains_key(node.spec_index() as usize)
                    && self.style.disabled.value_of(node.spec_index() as usize))
                &&& self.cache.get_spec(node).display != crate::style_types::Display::Gone
                &&& self.tree.is_descendant(node, lock_focus_to)
                &&& self.spec_has_ability(node, crate::style_types::ABILITY_NAVIGABLE)
            },
    {
        let entry = self.cache.get(node);
        if entry.visibility == crate::style_types::Visibility::Invisible {
            return false;
        }
        let disabled = match self.style.disabled.get(node.index()) {
            Some(d) => *d,
            None => false,
        };
        if disabled {
            return false;
        }
        if entry.display == crate::style_types::Display::Gone {
            return false;
        }
        if !self.tree.is_descendant_of(node, lock_focus_to) {
            return false;
        }
        self.has_ability(node, crate::style_types::ABILITY_NAVIGABLE)
    }

    /// Whether the entity can take focus at all (some focusable entities are
    /// not in the tab order).
    pub fn is_focusable(&self, node: Entity) -> (r: bool)
        requires
            self.wf(),
        ensures
            r == self.spec_has_ability(node, crate::style_types::ABILITY_FOCUSABLE),
    {
        self.has_ability(node, crate::style_types::ABILITY_FOCUSABLE)
    }
}

} // verus!
