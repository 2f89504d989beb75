//! Events, their propagation metadata, and the timed-event schedule.
//!
//! An event wraps a message with its origin, target and propagation rule.
//! Consuming an event halts further propagation.  Scheduled events carry a
//! fire time and a handle; a handle-based cancel removes a specific entry,
//! and a cancelled handle can never fire again.

use vstd::prelude::*;
use crate::entity::Entity;

verus! {

broadcast use vstd::std_specs::vec::group_vec_axioms;

/// How an event travels through the tree.
#[derive(Debug, Clone, Copy, PartialEq, Eq, Structural)]
pub enum Propagation {
    /// From the target through its ancestors up to and including the root.
    Up,
    /// To the target entity and to no others.
    Direct,
}

/// A message with metadata on how it should be propagated.
#[derive(Debug)]
pub struct Event<M> {
    /// The entity that produced the event; null for outside events.
    pub origin: Entity,
    /// The entity the event should be sent to.
    pub target: Entity,
    /// How the event propagates through the tree.
    pub propagation: Propagation,
    /// Whether the event can be consumed at all.
    pub consumable: bool,
    /// Whether propagation should stop.  Set by [`Event::consume`]; dispatch
    /// checks it after every recipient.
    pub consumed: bool,
    /// Order tag carried with the event; the queue itself is FIFO and does
    /// not reorder by it.
    pub order: i32,
    /// Whether dispatch of this event should be traced.
    pub trace: bool,
    /// The payload.
    pub message: M,
}

impl<M> Event<M> {
    /// Has this event been consumed?
    pub open spec fn is_consumed(self) -> bool {
        self.consumed
    }

    /// Creates a new event carrying `message`: targeted at the root,
    /// originating nowhere, propagating up, consumable and unconsumed.
    pub fn new(message: M) -> (e: Event<M>)
        ensures
            e.origin == Entity::spec_null(),
            e.target == Entity::spec_root(),
            e.propagation == Propagation::Up,
            e.consumable,
            !e.is_consumed(),
            e.order == 0,
            !e.trace,
            e.message == message,
    {
        Event {
            origin: Entity::null(),
            target: Entity::root(),
            propagation: Propagation::Up,
            consumable: true,
            consumed: false,
            order: 0,
            trace: false,
            message,
        }
    }

    /// Marks the event for dispatch tracing.
    pub fn trace(self) -> (e: Event<M>)
        ensures
            e == (Event { trace: true, ..self }),
    {
        Event { trace: true, ..self }
    }

    /// Sets the target of the event.
    pub fn target(self, entity: Entity) -> (e: Event<M>)
        ensures
            e == (Event { target: entity, ..self }),
    {
        Event { target: entity, ..self }
    }

    /// Sets the origin of the event.
    pub fn origin(self, entity: Entity) -> (e: Event<M>)
        ensures
            e == (Event { origin: entity, ..self }),
    {
        Event { origin: entity, ..self }
    }

    /// Sets the propagation rule of the event.
    pub fn propagate(self, propagation: Propagation) -> (e: Event<M>)
        ensures
            e == (Event { propagation: propagation, ..self }),
    {
        Event { propagation, ..self }
    }

    /// Targets `entity` directly, with no further propagation.
    pub fn direct(self, entity: Entity) -> (e: Event<M>)
        ensures
            e == (Event { propagation: Propagation::Direct, target: entity, ..self }),
    {
        Event { propagation: Propagation::Direct, target: entity, ..self }
    }

    /// Consumes the event, preventing it from continuing on its propagation
    /// path.  There is no way back.
    pub fn consume(&mut self)
        ensures
            *final(self) == (Event { consumed: true, ..*old(self) }),
            final(self).is_consumed(),
    {
        self.consumed = true;
    }
}

/// Identifies one scheduled event for cancellation.
#[derive(Debug, PartialEq, Eq, Structural, Copy, Clone)]
pub struct TimedEventHandle(pub usize);

/// An event with a fire time and its cancellation handle.
#[derive(Debug)]
pub struct TimedEvent<M> {
    pub ident: TimedEventHandle,
    pub event: Event<M>,
    /// Fire time in milliseconds on the caller's clock.
    pub time: u64,
}

/// The set of scheduled events, ordered on extraction by fire time (ties by
/// handle, which is allocation order).
#[derive(Debug)]
pub struct EventSchedule<M> {
    pub entries: Vec<TimedEvent<M>>,
    /// The next handle to hand out; handles are never reused.
    pub next_event_id: usize,
}

impl<M> EventSchedule<M> {
    /// Is some entry scheduled under handle `h`?
    pub open spec fn contains_handle(self, h: TimedEventHandle) -> bool {
        exists|i: int| 0 <= i < self.entries@.len() && self.entries@[i].ident == h
    }

    pub open spec fn wf(self) -> bool {
        &&& forall|i: int|
            0 <= i < self.entries@.len() ==> (#[trigger] self.entries@[i]).ident.0
                < self.next_event_id
        &&& forall|i: int, j: int|
            0 <= i < j < self.entries@.len() ==> (#[trigger] self.entries@[i]).ident != (
            #[trigger] self.entries@[j]).ident
    }

    pub fn new() -> (s: EventSchedule<M>)
        ensures
            s.wf(),
            s.entries@.len() == 0,
            s.next_event_id == 0,
    {
        EventSchedule { entries: Vec::new(), next_event_id: 0 }
    }

    /// Schedules `event` to fire at `time`, returning a fresh handle that was
    /// never handed out before.
    pub fn schedule(&mut self, event: Event<M>, time: u64) -> (h: TimedEventHandle)
        requires
            old(self).wf(),
            old(self).next_event_id < usize::MAX,
        ensures
            final(self).wf(),
            h == TimedEventHandle(old(self).next_event_id as usize),
            !old(self).contains_handle(h),
            final(self).contains_handle(h),
            final(self).entries@ == old(self).entries@.push(
                TimedEvent { ident: h, event, time },
            ),
            final(self).next_event_id == old(self).next_event_id + 1,
            forall|x: TimedEventHandle|
                #[trigger] final(self).contains_handle(x) <==> old(self).contains_handle(x) || x
                    == h,
    {
        let h = TimedEventHandle(self.next_event_id);
        self.entries.push(TimedEvent { ident: h, event, time });
        self.next_event_id += 1;
        proof {
            assert(self.contains_handle(h)) by {
                assert(self.entries@[self.entries@.len() - 1].ident == h);
            }
            assert forall|x: TimedEventHandle| #[trigger] self.contains_handle(x) implies old(
                self).contains_handle(x) || x == h by {
                let i = choose|i: int|
                    0 <= i < self.entries@.len() && self.entries@[i].ident == x;
                if i < self.entries@.len() - 1 {
                    assert(old(self).entries@[i].ident == x);
                }
            }
            assert forall|x: TimedEventHandle| old(self).contains_handle(x) implies #[trigger] self
                .contains_handle(x) by {
                let i = choose|i: int|
                    0 <= i < old(self).entries@.len() && old(self).entries@[i].ident == x;
                assert(self.entries@[i].ident == x);
            }
        }
        h
    }

    /// Cancels the entry scheduled under `h`.  Succeeds exactly when such an
    /// entry exists; otherwise it fails with no effect, so cancelling twice
    /// is harmless.  After a successful cancel the handle is gone, and since
    /// handles are never reused, the cancelled event can never fire.
    pub fn cancel(&mut self, h: TimedEventHandle) -> (r: Result<(), ()>)
        requires
            old(self).wf(),
        ensures
            final(self).wf(),
            final(self).next_event_id == old(self).next_event_id,
            !final(self).contains_handle(h),
            match r {
                Ok(()) => {
                    &&& old(self).contains_handle(h)
                    &&& final(self).entries@.len() == old(self).entries@.len() - 1
                    &&& forall|x: TimedEventHandle|
                        #[trigger] final(self).contains_handle(x) <==> (old(self).contains_handle(
                            x) && x != h)
                    &&& forall|i: int|
                        0 <= i < final(self).entries@.len()
                            ==> old(self).entries@.contains(#[trigger] final(self).entries@[i])
                },
                Err(()) => {
                    &&& !old(self).contains_handle(h)
                    &&& *final(self) == *old(self)
                },
            },
    {
        let n = self.entries.len();
        let mut k: usize = 0;
        while k < n && self.entries[k].ident.0 != h.0
            invariant
                n == self.entries@.len(),
                k <= n,
                forall|j: int| 0 <= j < k ==> (#[trigger] self.entries@[j]).ident != h,
            decreases n - k,
        {
            k += 1;
        }
        if k == n {
            proof {
                assert(!self.contains_handle(h));
            }
            return Err(());
        }
        proof {
            assert(self.entries@[k as int].ident == h);
        }
        let ghost olds = self.entries@;
        self.entries.remove(k);
        proof {
            assert(self.entries@ == olds.remove(k as int));
            assert forall|x: TimedEventHandle| #[trigger] self.contains_handle(x) implies (old(
                self).contains_handle(x) && x != h) by {
                let i = choose|i: int|
                    0 <= i < self.entries@.len() && self.entries@[i].ident == x;
                let oi: int = if i < k { i } else { i + 1 };
                assert(olds[oi].ident == x);
                if x == h {
                    assert(olds[k as int].ident == h);
                }
            }
            assert forall|x: TimedEventHandle| old(self).contains_handle(x) && x != h
                implies #[trigger] self.contains_handle(x) by {
                let oi = choose|i: int| 0 <= i < olds.len() && olds[i].ident == x;
                assert(oi != k);
                let i: int = if oi < k { oi } else { oi - 1 };
                assert(self.entries@[i].ident == x);
            }
            assert forall|i: int| 0 <= i < self.entries@.len() implies old(
                self).entries@.contains(#[trigger] self.entries@[i]) by {
                let oi: int = if i < k { i } else { i + 1 };
                assert(olds[oi] == self.entries@[i]);
            }
        }
        Ok(())
    }

    /// Removes and returns the due entry (fire time not after `now`) that
    /// fires first: smallest fire time, ties broken by handle, which is
    /// allocation order.  Returns `None` when nothing is due.
    pub fn pop_due(&mut self, now: u64) -> (r: Option<TimedEvent<M>>)
        requires
            old(self).wf(),
        ensures
            final(self).wf(),
            final(self).next_event_id == old(self).next_event_id,
            match r {
                Some(te) => {
                    &&& te.time <= now
                    &&& old(self).entries@.contains(te)
                    &&& old(self).contains_handle(te.ident)
                    &&& !final(self).contains_handle(te.ident)
                    &&& final(self).entries@.len() == old(self).entries@.len() - 1
                    &&& forall|x: TimedEventHandle|
                        #[trigger] final(self).contains_handle(x) <==> (old(self).contains_handle(
                            x) && x != te.ident)
                    &&& forall|j: int|
                        0 <= j < old(self).entries@.len() && (#[trigger] old(
                            self).entries@[j]).time <= now && old(self).entries@[j].ident
                            != te.ident ==> (te.time < old(self).entries@[j].time || (te.time
                            == old(self).entries@[j].time && te.ident.0 < old(
                            self).entries@[j].ident.0))
                    &&& forall|i: int|
                        0 <= i < final(self).entries@.len()
                            ==> old(self).entries@.contains(#[trigger] final(self).entries@[i])
                },
                None => {
                    &&& *final(self) == *old(self)
                    &&& forall|j: int|
                        0 <= j < old(self).entries@.len() ==> (#[trigger] old(
                            self).entries@[j]).time > now
                },
            },
    {
        let n = self.entries.len();
        let mut best: usize = n;
        let mut k: usize = 0;
        while k < n
            invariant
                old(self).wf(),
                *self == *old(self),
                n == self.entries@.len(),
                k <= n,
                best <= n,
                best == n ==> forall|j: int|
                    0 <= j < k ==> (#[trigger] self.entries@[j]).time > now,
                best < n ==> {
                    &&& self.entries@[best as int].time <= now
                    &&& forall|j: int|
                        0 <= j < k && (#[trigger] self.entries@[j]).time <= now && j != best
                            ==> (self.entries@[best as int].time < self.entries@[j].time || (
                            self.entries@[best as int].time == self.entries@[j].time
                                && self.entries@[best as int].ident.0
                                < self.entries@[j].ident.0))
                },
            decreases n - k,
        {
            if self.entries[k].time <= now {
                if best == n {
                    best = k;
                } else {
                    let bt = self.entries[best].time;
                    let kt = self.entries[k].time;
                    if kt < bt || (kt == bt && self.entries[k].ident.0 < self.entries[best].ident.0)
                    {
                        best = k;
                    }
                }
            }
            k += 1;
        }
        if best == n {
            return None;
        }
        let ghost olds = self.entries@;
        let te = self.entries.remove(best);
        proof {
            assert(te.ident == olds[best as int].ident);
            assert(olds.contains(te)) by {
                assert(olds[best as int] == te);
            }
            assert forall|x: TimedEventHandle| #[trigger] self.contains_handle(x) implies (old(
                self).contains_handle(x) && x != te.ident) by {
                let i = choose|i: int|
                    0 <= i < self.entries@.len() && self.entries@[i].ident == x;
                let oi: int = if i < best { i } else { i + 1 };
                assert(olds[oi].ident == x);
                if x == te.ident {
                    assert(olds[best as int].ident == te.ident);
                }
            }
            assert forall|x: TimedEventHandle| old(self).contains_handle(x) && x != te.ident
                implies #[trigger] self.contains_handle(x) by {
                let oi = choose|i: int| 0 <= i < olds.len() && olds[i].ident == x;
                assert(oi != best);
                let i: int = if oi < best { oi } else { oi - 1 };
                assert(self.entries@[i].ident == x);
            }
            assert forall|i: int| 0 <= i < self.entries@.len() implies old(
                self).entries@.contains(#[trigger] self.entries@[i]) by {
                let oi: int = if i < best { i } else { i + 1 };
                assert(olds[oi] == self.entries@[i]);
            }
        }
        Some(te)
    }

    /// A handle that has been cancelled stays gone: scheduling more events
    /// never brings it back, because fresh handles always carry a number that
    /// was never used.  Together with [`EventSchedule::cancel`] this is why a
    /// cancelled handle can never fire.
    pub proof fn lemma_cancelled_handle_stays_gone(
        pre: EventSchedule<M>,
        post: EventSchedule<M>,
        h: TimedEventHandle,
        fresh: TimedEventHandle,
        event: Event<M>,
        time: u64,
    )
        requires
            pre.wf(),
            !pre.contains_handle(h),
            h.0 < pre.next_event_id,
            fresh == TimedEventHandle(pre.next_event_id as usize),
            post.entries@ == pre.entries@.push(TimedEvent { ident: fresh, event, time }),
        ensures
            !post.contains_handle(h),
    {
        if post.contains_handle(h) {
            let i = choose|i: int| 0 <= i < post.entries@.len() && post.entries@[i].ident == h;
            if i < post.entries@.len() - 1 {
                assert(pre.entries@[i].ident == h);
            }
        }
    }
}

} // verus!
