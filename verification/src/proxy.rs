//! The cross-thread escape hatch: a snapshot of the originating entity plus a
//! sending channel.  A proxy can only emit events into the flush queue; it
//! never touches the tree, the style state or the cache.

use vstd::prelude::*;
use crate::entity::Entity;
use crate::events::Event;
use crate::events::Propagation;

verus! {

/// A thread-safe event sink the embedding platform provides.  Sending fails
/// (with an error result) when the receiving event loop is gone; it must
/// never block or crash.
pub trait EventProxy<M>: Sized {
    fn send(&self, event: Event<M>) -> Result<(), ()>;
}

/// Why a proxy emit failed.
#[derive(Debug, Clone, Copy, PartialEq, Eq, Structural)]
pub enum ProxyEmitError {
    /// No event proxy is installed.
    Unsupported,
    /// The receiving event loop has shut down.
    EventLoopClosed,
}

/// A snapshot of the context for a spawned thread: the current entity and,
/// when the platform installed one, a sending channel.
pub struct ContextProxy<M, P: EventProxy<M>> {
    pub current: Entity,
    pub event_proxy: Option<P>,
    pub marker: core::marker::PhantomData<M>,
}

/// The exact event a proxy emit hands to the sink: an upward, consumable,
/// unconsumed event of `message` from and to `origin`.
pub fn upward_event<M>(origin: Entity, message: M) -> (ev: Event<M>)
    ensures
        ev == (Event {
            origin: origin,
            target: origin,
            propagation: Propagation::Up,
            consumable: true,
            consumed: false,
            order: 0,
            trace: false,
            message,
        }),
{
    Event::new(message).target(origin).origin(origin).propagate(Propagation::Up)
}

/// The exact event a targeted proxy emit hands to the sink: a direct,
/// consumable, unconsumed event of `message` from `origin` to `target`.
pub fn direct_event<M>(origin: Entity, target: Entity, message: M) -> (ev: Event<M>)
    ensures
        ev == (Event {
            origin: origin,
            target: target,
            propagation: Propagation::Direct,
            consumable: true,
            consumed: false,
            order: 0,
            trace: false,
            message,
        }),
{
    Event::new(message).target(target).origin(origin).propagate(Propagation::Direct)
}

/// How the sink's answer becomes the emit result: acceptance succeeds, a
/// rejected event reports the closed event loop.
pub fn send_outcome(sent: Result<(), ()>) -> (r: Result<(), ProxyEmitError>)
    ensures
        r == match sent {
            Ok(()) => Result::<(), ProxyEmitError>::Ok(()),
            Err(()) => Result::<(), ProxyEmitError>::Err(ProxyEmitError::EventLoopClosed),
        },
{
    match sent {
        Ok(()) => Ok(()),
        Err(()) => Err(ProxyEmitError::EventLoopClosed),
    }
}

impl<M, P: EventProxy<M>> ContextProxy<M, P> {
    /// Sends a message as an upward event from and to the snapshot entity:
    /// the sink is handed exactly [`upward_event`] of the snapshot entity
    /// and `message`, and its answer becomes the result via
    /// [`send_outcome`].  Fails with `Unsupported`, touching nothing, when
    /// no proxy is installed.
    pub fn emit(&mut self, message: M) -> (r: Result<(), ProxyEmitError>)
        ensures
            *final(self) == *old(self),
            old(self).event_proxy is None <==> r == Result::<(), ProxyEmitError>::Err(
                ProxyEmitError::Unsupported,
            ),
            r is Err ==> (r->Err_0 == ProxyEmitError::Unsupported || r->Err_0
                == ProxyEmitError::EventLoopClosed),
    {
        match &self.event_proxy {
            Some(proxy) => {
                let ev = upward_event(self.current, message);
                send_outcome(proxy.send(ev))
            },
            None => Err(ProxyEmitError::Unsupported),
        }
    }

    /// Sends a message directly to `target`: the sink is handed exactly
    /// [`direct_event`] of the snapshot entity, `target` and `message`, and
    /// its answer becomes the result via [`send_outcome`].  Fails with
    /// `Unsupported`, touching nothing, when no proxy is installed.
    pub fn emit_to(&mut self, target: Entity, message: M) -> (r: Result<(), ProxyEmitError>)
        ensures
            *final(self) == *old(self),
            old(self).event_proxy is None <==> r == Result::<(), ProxyEmitError>::Err(
                ProxyEmitError::Unsupported,
            ),
            r is Err ==> (r->Err_0 == ProxyEmitError::Unsupported || r->Err_0
                == ProxyEmitError::EventLoopClosed),
    {
        match &self.event_proxy {
            Some(proxy) => {
                let ev = direct_event(self.current, target, message);
                send_outcome(proxy.send(ev))
            },
            None => Err(ProxyEmitError::Unsupported),
        }
    }
}

} // verus!
