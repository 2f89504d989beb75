//! The event queue, the timed schedule, and dispatch with consumption.

use vizia_core::binding::{Data, Lens};
use vizia_core::context::{Context, EventHandler};
use vizia_core::entity::Entity;
use vizia_core::events::{Event, Propagation};
use vizia_core::proxy::{ContextProxy, EventProxy, ProxyEmitError};
use std::cell::Cell;
use std::rc::Rc;

#[derive(Clone, Debug, PartialEq)]
struct Model(i64);

#[derive(Clone, Debug, PartialEq)]
struct Val(i64);

impl Data for Val {
    fn same_spec(&self, other: &Self) -> bool {
        self.0 == other.0
    }

    fn same(&self, other: &Self) -> bool {
        self.0 == other.0
    }
}

#[derive(Clone, Debug)]
struct ValueLens;

impl Lens for ValueLens {
    type Source = Model;
    type Target = Val;

    fn view_spec(&self, source: &Model) -> Option<Val> {
        Some(Val(source.0))
    }

    fn view(&self, source: &Model) -> Option<Val> {
        Some(Val(source.0))
    }

    fn key_spec(&self) -> Option<u64> {
        Some(1)
    }

    fn cache_key(&self) -> Option<u64> {
        Some(1)
    }

    fn dup(&self) -> Self {
        ValueLens
    }
}

type Cx = Context<u32, ValueLens>;

/// Records every delivery and consumes the event at chosen entities.
struct Recorder {
    delivered: Vec<(Entity, u32)>,
    consume_at: Vec<Entity>,
}

impl EventHandler<u32> for Recorder {
    fn handle(&mut self, recipient: Entity, event: &mut Event<u32>, _emitted: &mut Vec<Event<u32>>) {
        self.delivered.push((recipient, event.message));
        if self.consume_at.contains(&recipient) {
            event.consume();
        }
    }
}

#[test]
fn event_builders_set_fields() {
    let e = Event::new(7u32)
        .target(Entity { index: 4, generation: 0 })
        .origin(Entity::root())
        .propagate(Propagation::Direct);
    assert_eq!(e.target, Entity { index: 4, generation: 0 });
    assert_eq!(e.origin, Entity::root());
    assert_eq!(e.propagation, Propagation::Direct);
    assert_eq!(e.message, 7);
    assert!(e.consumable);
    assert!(!e.consumed);
    let e2 = Event::new(1u32).direct(Entity::root()).trace();
    assert_eq!(e2.propagation, Propagation::Direct);
    assert!(e2.trace);
}

#[test]
fn cancelled_handle_never_fires_and_second_cancel_fails() {
    let mut cx: Cx = Context::new();
    let h1 = cx.schedule_event(Event::new(1u32), 100);
    let h2 = cx.schedule_event(Event::new(2u32), 50);
    assert_ne!(h1, h2);
    assert!(cx.cancel_scheduled(h1).is_ok());
    // Cancelling twice: the second call fails without effect.
    assert!(cx.cancel_scheduled(h1).is_err());
    let before = cx.event_schedule.entries.len();
    assert!(cx.cancel_scheduled(h1).is_err());
    assert_eq!(cx.event_schedule.entries.len(), before);
    // The cancelled event never reaches the queue, however far time goes.
    let _ = cx.tick(1000000);
    let fired: Vec<u32> = cx.event_queue.iter().map(|e| e.message).collect();
    assert_eq!(fired, vec![2]);
    // Scheduling more events never revives the handle.
    let h3 = cx.schedule_event(Event::new(3u32), 10);
    assert_ne!(h3, h1);
    let _ = cx.tick(1000000);
    let fired: Vec<u32> = cx.event_queue.iter().map(|e| e.message).collect();
    assert_eq!(fired, vec![2, 3]);
}

#[test]
fn consume_on_target_stops_propagation() {
    // An upward event consumed by the target's handler reaches no ancestor.
    let mut cx: Cx = Context::new();
    let a = cx.build_entity(Entity::root()).unwrap();
    let b = cx.build_entity(a).unwrap();
    let mut rec = Recorder { delivered: Vec::new(), consume_at: vec![b] };
    let (delivered, _, _) = cx.dispatch_event(Event::new(9u32).target(b).propagate(Propagation::Up), &mut rec);
    assert_eq!(delivered, vec![b]);
    assert_eq!(rec.delivered.len(), 1);
    assert_eq!(rec.delivered[0].0, b);
}

#[test]
fn unconsumed_event_bubbles_to_root() {
    let mut cx: Cx = Context::new();
    let a = cx.build_entity(Entity::root()).unwrap();
    let b = cx.build_entity(a).unwrap();
    let mut rec = Recorder { delivered: Vec::new(), consume_at: Vec::new() };
    let (delivered, _, _) = cx.dispatch_event(Event::new(9u32).target(b).propagate(Propagation::Up), &mut rec);
    assert_eq!(delivered, vec![b, a, Entity::root()]);
}

#[test]
fn consume_midway_spares_upper_ancestors() {
    let mut cx: Cx = Context::new();
    let a = cx.build_entity(Entity::root()).unwrap();
    let b = cx.build_entity(a).unwrap();
    let mut rec = Recorder { delivered: Vec::new(), consume_at: vec![a] };
    let (delivered, _, _) = cx.dispatch_event(Event::new(9u32).target(b).propagate(Propagation::Up), &mut rec);
    assert_eq!(delivered, vec![b, a]);
}

#[test]
fn direct_event_reaches_only_target() {
    let mut cx: Cx = Context::new();
    let a = cx.build_entity(Entity::root()).unwrap();
    let b = cx.build_entity(a).unwrap();
    let mut rec = Recorder { delivered: Vec::new(), consume_at: Vec::new() };
    let (delivered, _, _) = cx.dispatch_event(Event::new(9u32).target(b).propagate(Propagation::Direct), &mut rec);
    assert_eq!(delivered, vec![b]);
}

#[test]
fn event_to_destroyed_target_is_dropped() {
    let mut cx: Cx = Context::new();
    let a = cx.build_entity(Entity::root()).unwrap();
    cx.remove(a);
    let mut rec = Recorder { delivered: Vec::new(), consume_at: Vec::new() };
    let (delivered, _, _) = cx.dispatch_event(Event::new(9u32).target(a).propagate(Propagation::Up), &mut rec);
    assert!(delivered.is_empty());
    assert!(rec.delivered.is_empty());
}

#[test]
fn tick_moves_due_events_in_fire_time_order() {
    // Schedule at t+100; advance to t+150 without ticking; on the next tick
    // the event joins the queue exactly once and fires before anything
    // scheduled for t+200.
    let mut cx: Cx = Context::new();
    let _late = cx.schedule_event(Event::new(200u32), 200);
    let _m = cx.schedule_event(Event::new(100u32), 100);
    // Time passes to t+150; nothing happened yet.
    assert_eq!(cx.event_queue.len(), 0);
    let _ = cx.tick(150);
    let fired: Vec<u32> = cx.event_queue.iter().map(|e| e.message).collect();
    assert_eq!(fired, vec![100]);
    // The later event is still pending and fires after.
    let _ = cx.tick(250);
    let fired: Vec<u32> = cx.event_queue.iter().map(|e| e.message).collect();
    assert_eq!(fired, vec![100, 200]);
}

#[test]
fn tick_breaks_ties_by_schedule_order() {
    let mut cx: Cx = Context::new();
    let _a = cx.schedule_event(Event::new(1u32), 40);
    let _b = cx.schedule_event(Event::new(2u32), 40);
    let _c = cx.schedule_event(Event::new(3u32), 30);
    let _ = cx.tick(40);
    let fired: Vec<u32> = cx.event_queue.iter().map(|e| e.message).collect();
    assert_eq!(fired, vec![3, 1, 2]);
}

#[test]
fn flush_dispatches_queued_events_in_order() {
    let mut cx: Cx = Context::new();
    let a = cx.build_entity(Entity::root()).unwrap();
    cx.emit_to(a, 5u32);
    cx.emit_to(a, 6u32);
    let mut rec = Recorder { delivered: Vec::new(), consume_at: Vec::new() };
    let (n, _) = cx.flush_events(&mut rec, 100);
    assert_eq!(n, 2);
    let messages: Vec<u32> = rec.delivered.iter().map(|d| d.1).collect();
    assert_eq!(messages, vec![5, 6]);
    assert_eq!(cx.event_queue.len(), 0);
}

/// Emits one follow-up event the first time it is called.
struct Chainer {
    delivered: Vec<u32>,
    emitted_once: bool,
    target: Entity,
}

impl EventHandler<u32> for Chainer {
    fn handle(&mut self, _recipient: Entity, event: &mut Event<u32>, emitted: &mut Vec<Event<u32>>) {
        self.delivered.push(event.message);
        if !self.emitted_once {
            self.emitted_once = true;
            emitted.push(Event::new(42u32).target(self.target).propagate(Propagation::Direct));
        }
    }
}

#[test]
fn events_emitted_during_dispatch_run_in_the_same_flush() {
    let mut cx: Cx = Context::new();
    let a = cx.build_entity(Entity::root()).unwrap();
    cx.emit_to(a, 1u32);
    let mut ch = Chainer { delivered: Vec::new(), emitted_once: false, target: a };
    let (n, _) = cx.flush_events(&mut ch, 100);
    assert_eq!(n, 2);
    assert_eq!(ch.delivered, vec![1, 42]);
}

#[test]
fn emit_uses_current_and_up_propagation() {
    let mut cx: Cx = Context::new();
    let a = cx.build_entity(Entity::root()).unwrap();
    cx.current = a;
    cx.emit(11u32);
    let ev = cx.event_queue.front().unwrap();
    assert_eq!(ev.target, a);
    assert_eq!(ev.origin, a);
    assert_eq!(ev.propagation, Propagation::Up);
}

#[test]
fn schedule_emit_targets_current() {
    let mut cx: Cx = Context::new();
    let a = cx.build_entity(Entity::root()).unwrap();
    cx.current = a;
    let h = cx.schedule_emit(77u32, 30);
    let entry = &cx.event_schedule.entries[0];
    assert_eq!(entry.ident, h);
    assert_eq!(entry.time, 30);
    assert_eq!(entry.event.target, a);
    assert_eq!(entry.event.propagation, Propagation::Up);
    let b = cx.build_entity(Entity::root()).unwrap();
    let h2 = cx.schedule_emit_to(88u32, b, 40);
    assert_ne!(h, h2);
    assert_eq!(cx.event_schedule.entries[1].event.target, b);
    assert_eq!(cx.event_schedule.entries[1].event.propagation, Propagation::Direct);
}

#[test]
fn emit_trace_marks_the_event() {
    let mut cx: Cx = Context::new();
    cx.emit_trace(3u32);
    assert!(cx.event_queue.front().unwrap().trace);
}

#[test]
fn proxy_without_channel_reports_unsupported() {
    struct NoProxy;
    impl EventProxy<u32> for NoProxy {
        fn send(&self, _event: Event<u32>) -> Result<(), ()> {
            Ok(())
        }
    }
    let mut p: ContextProxy<u32, NoProxy> = ContextProxy {
        current: Entity::root(),
        event_proxy: None,
        marker: std::marker::PhantomData,
    };
    assert_eq!(p.emit(1), Err(ProxyEmitError::Unsupported));
    assert_eq!(p.emit_to(Entity::root(), 1), Err(ProxyEmitError::Unsupported));
}

#[test]
fn proxy_reports_closed_channel() {
    struct Channel {
        open: Rc<Cell<bool>>,
        sent: Rc<Cell<usize>>,
    }
    impl EventProxy<u32> for Channel {
        fn send(&self, _event: Event<u32>) -> Result<(), ()> {
            if self.open.get() {
                self.sent.set(self.sent.get() + 1);
                Ok(())
            } else {
                Err(())
            }
        }
    }
    let open = Rc::new(Cell::new(true));
    let sent = Rc::new(Cell::new(0));
    let mut p: ContextProxy<u32, Channel> = ContextProxy {
        current: Entity::root(),
        event_proxy: Some(Channel { open: open.clone(), sent: sent.clone() }),
        marker: std::marker::PhantomData,
    };
    assert_eq!(p.emit(1), Ok(()));
    assert_eq!(sent.get(), 1);
    open.set(false);
    assert_eq!(p.emit(2), Err(ProxyEmitError::EventLoopClosed));
    assert_eq!(sent.get(), 1);
}
