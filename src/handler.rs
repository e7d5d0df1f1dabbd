//! The handler kinds, the events they react to, their settings, and one
//! handler's coalescing engine joined to its delivery queue.
use vstd::prelude::*;

use crate::channel::{pushed_all, Mailbox};
use crate::debounce::{
    excluding, in_buffer, is_due, keep, stepped, Debouncer, Key, Pending,
};

verus! {

/// What happened in the editor.
#[derive(Clone, Copy, Debug, PartialEq, Eq, Structural)]
pub enum EventKind {
    DocumentChanged,
    SelectionChanged,
    ModeChanged,
    FocusLost,
    BufferClosed,
}

/// One editor occurrence: its kind, where it happened, and a payload (a
/// document revision or a cursor offset, as the kind has it).
#[derive(Clone, Copy, Debug, PartialEq, Eq, Structural)]
pub struct Event {
    pub kind: EventKind,
    pub buffer: u64,
    pub view: u64,
    pub session: u64,
    pub payload: u64,
}

/// The fixed set of feature handlers.
#[derive(Clone, Copy, Debug, PartialEq, Eq, Structural)]
pub enum HandlerKind {
    Completion,
    SignatureHelp,
    InlayHints,
    AutoSave,
}

/// Whether a handler is on, and how long it waits for quiet.
#[derive(Clone, Copy, Debug, PartialEq, Eq, Structural)]
pub struct HandlerConfig {
    pub enabled: bool,
    pub delay: u64,
}

/// A snapshot of the settings of every handler.
#[derive(Clone, Copy, Debug, PartialEq, Eq, Structural)]
pub struct Config {
    pub completion: HandlerConfig,
    pub signature_help: HandlerConfig,
    pub inlay_hints: HandlerConfig,
    pub auto_save: HandlerConfig,
}

impl Config {
    pub open spec fn spec_for(&self, kind: HandlerKind) -> HandlerConfig {
        match kind {
            HandlerKind::Completion => self.completion,
            HandlerKind::SignatureHelp => self.signature_help,
            HandlerKind::InlayHints => self.inlay_hints,
            HandlerKind::AutoSave => self.auto_save,
        }
    }

    /// The settings of one handler kind.
    pub fn for_kind(&self, kind: HandlerKind) -> (r: HandlerConfig)
        ensures
            r == self.spec_for(kind),
    {
        match kind {
            HandlerKind::Completion => self.completion,
            HandlerKind::SignatureHelp => self.signature_help,
            HandlerKind::InlayHints => self.inlay_hints,
            HandlerKind::AutoSave => self.auto_save,
        }
    }
}

/// The coalescing key that a handler kind derives from an event it reacts
/// to, or none when the event does not concern it.
pub open spec fn spec_key_for(kind: HandlerKind, ev: Event) -> Option<Key> {
    match kind {
        HandlerKind::Completion => match ev.kind {
            EventKind::DocumentChanged | EventKind::SelectionChanged => Some(
                Key { buffer: ev.buffer, slot: ev.session },
            ),
            _ => None,
        },
        HandlerKind::SignatureHelp => match ev.kind {
            EventKind::DocumentChanged | EventKind::SelectionChanged | EventKind::ModeChanged => Some(
                Key { buffer: ev.buffer, slot: 0 },
            ),
            _ => None,
        },
        HandlerKind::InlayHints => match ev.kind {
            EventKind::DocumentChanged | EventKind::SelectionChanged => Some(
                Key { buffer: ev.buffer, slot: ev.view },
            ),
            _ => None,
        },
        HandlerKind::AutoSave => match ev.kind {
            EventKind::DocumentChanged => Some(Key { buffer: ev.buffer, slot: 0 }),
            _ => None,
        },
    }
}

/// Maps an event to the key under which `kind` coalesces it; pure, no I/O.
pub fn key_for(kind: HandlerKind, ev: &Event) -> (r: Option<Key>)
    ensures
        r == spec_key_for(kind, *ev),
{
    match kind {
        HandlerKind::Completion => match ev.kind {
            EventKind::DocumentChanged | EventKind::SelectionChanged => Some(
                Key { buffer: ev.buffer, slot: ev.session },
            ),
            _ => None,
        },
        HandlerKind::SignatureHelp => match ev.kind {
            EventKind::DocumentChanged | EventKind::SelectionChanged | EventKind::ModeChanged => Some(
                Key { buffer: ev.buffer, slot: 0 },
            ),
            _ => None,
        },
        HandlerKind::InlayHints => match ev.kind {
            EventKind::DocumentChanged | EventKind::SelectionChanged => Some(
                Key { buffer: ev.buffer, slot: ev.view },
            ),
            _ => None,
        },
        HandlerKind::AutoSave => match ev.kind {
            EventKind::DocumentChanged => Some(Key { buffer: ev.buffer, slot: 0 }),
            _ => None,
        },
    }
}

/// Whether a handler kind subscribes to events of `kind`. Every handler
/// listens for closed buffers, to drop their pending work.
pub open spec fn listens(handler: HandlerKind, kind: EventKind) -> bool {
    match kind {
        EventKind::DocumentChanged => true,
        EventKind::SelectionChanged => handler != HandlerKind::AutoSave,
        EventKind::ModeChanged => handler == HandlerKind::SignatureHelp,
        EventKind::FocusLost => false,
        EventKind::BufferClosed => true,
    }
}

/// Drops `item` when its buffer is no longer open: a worker commits a
/// result only for an identity that is still live.
pub fn revalidate<P>(item: Pending<P>, open_buffers: &Vec<u64>) -> (r: Option<Pending<P>>)
    ensures
        r == if open_buffers@.contains(item.key.buffer) {
            Some(item)
        } else {
            None
        },
{
    let mut i: usize = 0;
    while i < open_buffers.len()
        invariant
            i <= open_buffers@.len(),
            forall|j: int| 0 <= j < i ==> open_buffers@[j] != item.key.buffer,
        decreases open_buffers@.len() - i,
    {
        if open_buffers[i] == item.key.buffer {
            return Some(item);
        }
        i = i + 1;
    }
    None
}

/// One handler: its coalescing engine and the queue that feeds its worker.
pub struct Handler {
    kind: HandlerKind,
    enabled: bool,
    engine: Debouncer<u64>,
    outbox: Mailbox<Pending<u64>>,
}

/// What an event does to a handler's pending entries after the due ones
/// have left: a closed buffer drops its entries; an event that the handler
/// reacts to, while it is enabled, is accepted under its key.
pub open spec fn pending_after(
    kind: HandlerKind,
    enabled: bool,
    delay: u64,
    s: Seq<Pending<u64>>,
    ev: Event,
    now: u64,
) -> Seq<Pending<u64>> {
    let waiting = keep(s, excluding(is_due(now)));
    if ev.kind == EventKind::BufferClosed {
        keep(waiting, excluding(in_buffer(ev.buffer)))
    } else if enabled && spec_key_for(kind, ev) is Some {
        stepped(s, spec_key_for(kind, ev)->Some_0, ev.payload, now, delay)
    } else {
        waiting
    }
}

/// How one event at `now` changes handler `a` into handler `b`.
pub open spec fn event_effect(a: Handler, b: Handler, ev: Event, now: u64) -> bool {
    &&& b.wf()
    &&& b.spec_kind() == a.spec_kind()
    &&& b.spec_enabled() == a.spec_enabled()
    &&& b.spec_delay() == a.spec_delay()
    &&& b.spec_capacity() == a.spec_capacity()
    &&& b.spec_pending() == pending_after(
        a.spec_kind(),
        a.spec_enabled(),
        a.spec_delay(),
        a.spec_pending(),
        ev,
        now,
    )
    &&& b.spec_outbox() == pushed_all(
        a.spec_outbox(),
        a.spec_capacity(),
        keep(a.spec_pending(), is_due(now)),
    )
}

impl Handler {
    pub closed spec fn spec_kind(&self) -> HandlerKind {
        self.kind
    }

    pub closed spec fn spec_enabled(&self) -> bool {
        self.enabled
    }

    pub closed spec fn spec_delay(&self) -> u64 {
        self.engine.spec_delay()
    }

    pub closed spec fn spec_capacity(&self) -> nat {
        self.outbox.spec_capacity()
    }

    /// The entries waiting for their timer.
    pub closed spec fn spec_pending(&self) -> Seq<Pending<u64>> {
        self.engine@
    }

    /// The items delivered and not yet taken by the worker.
    pub closed spec fn spec_outbox(&self) -> Seq<Pending<u64>> {
        self.outbox@
    }

    pub closed spec fn wf(&self) -> bool {
        self.engine.wf() && self.outbox.wf()
    }

    /// A handler of `kind` with the settings of `config`, nothing pending,
    /// and a queue of `capacity` items.
    pub fn new(kind: HandlerKind, config: &Config, capacity: usize) -> (r: Self)
        requires
            capacity > 0,
        ensures
            r.wf(),
            r.spec_kind() == kind,
            r.spec_enabled() == config.spec_for(kind).enabled,
            r.spec_delay() == config.spec_for(kind).delay,
            r.spec_capacity() == capacity,
            r.spec_pending() == Seq::<Pending<u64>>::empty(),
            r.spec_outbox() == Seq::<Pending<u64>>::empty(),
    {
        let c = config.for_kind(kind);
        Handler {
            kind,
            enabled: c.enabled,
            engine: Debouncer::new(c.delay),
            outbox: Mailbox::new(capacity),
        }
    }

    /// Takes this kind's settings from a new snapshot; pending entries and
    /// delivered items stay as they are.
    pub fn configure(&mut self, config: &Config)
        requires
            old(self).wf(),
        ensures
            final(self).wf(),
            final(self).spec_kind() == old(self).spec_kind(),
            final(self).spec_enabled() == config.spec_for(old(self).spec_kind()).enabled,
            final(self).spec_delay() == config.spec_for(old(self).spec_kind()).delay,
            final(self).spec_capacity() == old(self).spec_capacity(),
            final(self).spec_pending() == old(self).spec_pending(),
            final(self).spec_outbox() == old(self).spec_outbox(),
    {
        let c = config.for_kind(self.kind);
        self.enabled = c.enabled;
        self.engine.set_delay(c.delay);
    }

    pub fn kind(&self) -> (r: HandlerKind)
        ensures
            r == self.spec_kind(),
    {
        self.kind
    }

    pub fn is_enabled(&self) -> (r: bool)
        ensures
            r == self.spec_enabled(),
    {
        self.enabled
    }

    pub fn pending_count(&self) -> (r: usize)
        ensures
            r == self.spec_pending().len(),
    {
        self.engine.pending_count()
    }

    pub fn queued_count(&self) -> (r: usize)
        ensures
            r == self.spec_outbox().len(),
    {
        self.outbox.len()
    }

    /// Delivers to the queue, in order, every entry due by `now`.
    pub fn tick(&mut self, now: u64)
        requires
            old(self).wf(),
        ensures
            final(self).wf(),
            final(self).spec_kind() == old(self).spec_kind(),
            final(self).spec_enabled() == old(self).spec_enabled(),
            final(self).spec_delay() == old(self).spec_delay(),
            final(self).spec_capacity() == old(self).spec_capacity(),
            final(self).spec_pending() == keep(old(self).spec_pending(), excluding(is_due(now))),
            final(self).spec_outbox() == pushed_all(
                old(self).spec_outbox(),
                old(self).spec_capacity(),
                keep(old(self).spec_pending(), is_due(now)),
            ),
    {
        let due = self.engine.expire(now);
        self.outbox.push_all(due);
    }

    /// Handles an event at `now`: delivers what is due, then drops the
    /// entries of a closed buffer or accepts the event under its key.
    pub fn on_event(&mut self, ev: &Event, now: u64)
        requires
            old(self).wf(),
        ensures
            final(self).wf(),
            final(self).spec_kind() == old(self).spec_kind(),
            final(self).spec_enabled() == old(self).spec_enabled(),
            final(self).spec_delay() == old(self).spec_delay(),
            final(self).spec_capacity() == old(self).spec_capacity(),
            final(self).spec_pending() == pending_after(
                old(self).spec_kind(),
                old(self).spec_enabled(),
                old(self).spec_delay(),
                old(self).spec_pending(),
                *ev,
                now,
            ),
            final(self).spec_outbox() == pushed_all(
                old(self).spec_outbox(),
                old(self).spec_capacity(),
                keep(old(self).spec_pending(), is_due(now)),
            ),
    {
        if ev.kind == EventKind::BufferClosed {
            self.tick(now);
            self.engine.forget_buffer(ev.buffer);
        } else {
            match key_for(self.kind, ev) {
                Some(key) => {
                    if self.enabled {
                        let due = self.engine.offer(key, ev.payload, now);
                        self.outbox.push_all(due);
                    } else {
                        self.tick(now);
                    }
                },
                None => {
                    self.tick(now);
                },
            }
        }
    }

    /// The worker's next item: takes the oldest delivered one and hands it
    /// on only if its buffer is still open; a stale one is discarded.
    pub fn next_job(&mut self, open_buffers: &Vec<u64>) -> (r: Option<Pending<u64>>)
        requires
            old(self).wf(),
        ensures
            final(self).wf(),
            final(self).spec_kind() == old(self).spec_kind(),
            final(self).spec_enabled() == old(self).spec_enabled(),
            final(self).spec_delay() == old(self).spec_delay(),
            final(self).spec_capacity() == old(self).spec_capacity(),
            final(self).spec_pending() == old(self).spec_pending(),
            old(self).spec_outbox().len() == 0 ==> r.is_none() && final(self).spec_outbox()
                == old(self).spec_outbox(),
            old(self).spec_outbox().len() > 0 ==> final(self).spec_outbox() == old(
                self,
            ).spec_outbox().drop_first() && r == if open_buffers@.contains(
                old(self).spec_outbox()[0].key.buffer,
            ) {
                Some(old(self).spec_outbox()[0])
            } else {
                None
            },
    {
        match self.outbox.pop() {
            Some(item) => revalidate(item, open_buffers),
            None => None,
        }
    }
}

} // verus!
