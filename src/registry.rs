//! The composition root: builds every handler from a settings snapshot,
//! registers their hooks on the event bus once, and routes events to them.
use vstd::prelude::*;

use crate::bus::{listeners, EventBus};
use crate::channel::pushed_all;
use crate::debounce::{excluding, is_due, keep, Pending};
use crate::handler::{event_effect, listens, Config, Event, EventKind, Handler, HandlerKind};

verus! {

/// The subscriptions made at startup, handler by handler.
pub open spec fn standard_hooks() -> Seq<(EventKind, HandlerKind)> {
    seq![
        (EventKind::DocumentChanged, HandlerKind::Completion),
        (EventKind::SelectionChanged, HandlerKind::Completion),
        (EventKind::BufferClosed, HandlerKind::Completion),
        (EventKind::DocumentChanged, HandlerKind::SignatureHelp),
        (EventKind::SelectionChanged, HandlerKind::SignatureHelp),
        (EventKind::ModeChanged, HandlerKind::SignatureHelp),
        (EventKind::BufferClosed, HandlerKind::SignatureHelp),
        (EventKind::DocumentChanged, HandlerKind::InlayHints),
        (EventKind::SelectionChanged, HandlerKind::InlayHints),
        (EventKind::BufferClosed, HandlerKind::InlayHints),
        (EventKind::DocumentChanged, HandlerKind::AutoSave),
        (EventKind::BufferClosed, HandlerKind::AutoSave),
    ]
}

/// The startup subscriptions name each handler at most once per event
/// kind, exactly the handlers that listen to it.
proof fn lemma_standard_listeners(kind: EventKind)
    ensures
        listeners(standard_hooks(), kind).no_duplicates(),
        forall|h: HandlerKind| #[trigger]
            listeners(standard_hooks(), kind).contains(h) <==> listens(h, kind),
{
    reveal_with_fuel(listeners, 13);
    let s = standard_hooks();
    let l = listeners(s, kind);
    let c = HandlerKind::Completion;
    let g = HandlerKind::SignatureHelp;
    let i = HandlerKind::InlayHints;
    let a = HandlerKind::AutoSave;
    match kind {
        EventKind::DocumentChanged => {
            assert(l =~= seq![c, g, i, a]);
            assert(l[0] == c && l[1] == g && l[2] == i && l[3] == a);
        },
        EventKind::SelectionChanged => {
            assert(l =~= seq![c, g, i]);
            assert(l[0] == c && l[1] == g && l[2] == i);
        },
        EventKind::ModeChanged => {
            assert(l =~= seq![g]);
            assert(l[0] == g);
        },
        EventKind::FocusLost => {
            assert(l =~= Seq::<HandlerKind>::empty());
        },
        EventKind::BufferClosed => {
            assert(l =~= seq![c, g, i, a]);
            assert(l[0] == c && l[1] == g && l[2] == i && l[3] == a);
        },
    }
}

/// Every handler, and the bus that routes events to them.
pub struct Handlers {
    bus: EventBus,
    completion: Handler,
    signature_help: Handler,
    inlay_hints: Handler,
    auto_save: Handler,
}

impl Handlers {
    /// The handler of one kind.
    pub closed spec fn spec_handler(&self, kind: HandlerKind) -> Handler {
        match kind {
            HandlerKind::Completion => self.completion,
            HandlerKind::SignatureHelp => self.signature_help,
            HandlerKind::InlayHints => self.inlay_hints,
            HandlerKind::AutoSave => self.auto_save,
        }
    }

    pub closed spec fn spec_hooks(&self) -> Seq<(EventKind, HandlerKind)> {
        self.bus@
    }

    pub open spec fn wf(&self) -> bool {
        &&& self.spec_hooks() == standard_hooks()
        &&& forall|h: HandlerKind| #[trigger] self.spec_handler(h).wf()
        &&& forall|h: HandlerKind| #[trigger] self.spec_handler(h).spec_kind() == h
    }

    /// The handler of one kind, to inspect it.
    pub fn handler(&self, kind: HandlerKind) -> (r: &Handler)
        ensures
            *r == self.spec_handler(kind),
    {
        match kind {
            HandlerKind::Completion => &self.completion,
            HandlerKind::SignatureHelp => &self.signature_help,
            HandlerKind::InlayHints => &self.inlay_hints,
            HandlerKind::AutoSave => &self.auto_save,
        }
    }

    /// Installs a new settings snapshot in every handler; what is pending
    /// or delivered stays.
    pub fn reconfigure(&mut self, config: &Config)
        requires
            old(self).wf(),
        ensures
            final(self).wf(),
            forall|h: HandlerKind|
                #[trigger] final(self).spec_handler(h).spec_enabled() == config.spec_for(h).enabled
                    && final(self).spec_handler(h).spec_delay() == config.spec_for(h).delay,
            forall|h: HandlerKind|
                #[trigger] final(self).spec_handler(h).spec_pending() == old(self).spec_handler(
                    h,
                ).spec_pending() && final(self).spec_handler(h).spec_outbox() == old(
                    self,
                ).spec_handler(h).spec_outbox() && final(self).spec_handler(h).spec_capacity()
                    == old(self).spec_handler(h).spec_capacity(),
    {
        proof {
            assert(self.spec_handler(HandlerKind::Completion).wf());
            assert(self.spec_handler(HandlerKind::SignatureHelp).wf());
            assert(self.spec_handler(HandlerKind::InlayHints).wf());
            assert(self.spec_handler(HandlerKind::AutoSave).wf());
            assert(self.spec_handler(HandlerKind::Completion).spec_kind() == HandlerKind::Completion);
            assert(self.spec_handler(HandlerKind::SignatureHelp).spec_kind() == HandlerKind::SignatureHelp);
            assert(self.spec_handler(HandlerKind::InlayHints).spec_kind() == HandlerKind::InlayHints);
            assert(self.spec_handler(HandlerKind::AutoSave).spec_kind() == HandlerKind::AutoSave);
        }
        self.completion.configure(config);
        self.signature_help.configure(config);
        self.inlay_hints.configure(config);
        self.auto_save.configure(config);
    }

    /// Delivers, for every handler, the entries that are due by `now`.
    pub fn tick(&mut self, now: u64)
        requires
            old(self).wf(),
        ensures
            final(self).wf(),
            forall|h: HandlerKind|
                #[trigger] final(self).spec_handler(h).spec_pending() == keep(
                    old(self).spec_handler(h).spec_pending(),
                    excluding(is_due(now)),
                ),
            forall|h: HandlerKind|
                #[trigger] final(self).spec_handler(h).spec_outbox() == pushed_all(
                    old(self).spec_handler(h).spec_outbox(),
                    old(self).spec_handler(h).spec_capacity(),
                    keep(old(self).spec_handler(h).spec_pending(), is_due(now)),
                ),
            forall|h: HandlerKind|
                #[trigger] final(self).spec_handler(h).spec_enabled() == old(self).spec_handler(
                    h,
                ).spec_enabled() && final(self).spec_handler(h).spec_delay() == old(
                    self,
                ).spec_handler(h).spec_delay() && final(self).spec_handler(h).spec_capacity()
                    == old(self).spec_handler(h).spec_capacity(),
    {
        proof {
            assert(self.spec_handler(HandlerKind::Completion).wf());
            assert(self.spec_handler(HandlerKind::SignatureHelp).wf());
            assert(self.spec_handler(HandlerKind::InlayHints).wf());
            assert(self.spec_handler(HandlerKind::AutoSave).wf());
            assert(self.spec_handler(HandlerKind::Completion).spec_kind() == HandlerKind::Completion);
            assert(self.spec_handler(HandlerKind::SignatureHelp).spec_kind() == HandlerKind::SignatureHelp);
            assert(self.spec_handler(HandlerKind::InlayHints).spec_kind() == HandlerKind::InlayHints);
            assert(self.spec_handler(HandlerKind::AutoSave).spec_kind() == HandlerKind::AutoSave);
        }
        self.completion.tick(now);
        self.signature_help.tick(now);
        self.inlay_hints.tick(now);
        self.auto_save.tick(now);
    }

    /// The next item for the worker of `kind`: the oldest delivered one,
    /// handed on only while its buffer is still open.
    pub fn next_job(&mut self, kind: HandlerKind, open_buffers: &Vec<u64>) -> (r: Option<
        Pending<u64>,
    >)
        requires
            old(self).wf(),
        ensures
            final(self).wf(),
            forall|h: HandlerKind|
                h != kind ==> #[trigger] final(self).spec_handler(h) == old(self).spec_handler(h),
            final(self).spec_handler(kind).spec_pending() == old(self).spec_handler(
                kind,
            ).spec_pending(),
            old(self).spec_handler(kind).spec_outbox().len() == 0 ==> r.is_none()
                && final(self).spec_handler(kind).spec_outbox() == old(self).spec_handler(
                kind,
            ).spec_outbox(),
            old(self).spec_handler(kind).spec_outbox().len() > 0 ==> final(self).spec_handler(
                kind,
            ).spec_outbox() == old(self).spec_handler(kind).spec_outbox().drop_first() && r
                == if open_buffers@.contains(old(self).spec_handler(kind).spec_outbox()[0].key.buffer) {
                Some(old(self).spec_handler(kind).spec_outbox()[0])
            } else {
                None
            },
    {
        proof {
            assert(self.spec_handler(HandlerKind::Completion).wf());
            assert(self.spec_handler(HandlerKind::SignatureHelp).wf());
            assert(self.spec_handler(HandlerKind::InlayHints).wf());
            assert(self.spec_handler(HandlerKind::AutoSave).wf());
            assert(self.spec_handler(HandlerKind::Completion).spec_kind() == HandlerKind::Completion);
            assert(self.spec_handler(HandlerKind::SignatureHelp).spec_kind() == HandlerKind::SignatureHelp);
            assert(self.spec_handler(HandlerKind::InlayHints).spec_kind() == HandlerKind::InlayHints);
            assert(self.spec_handler(HandlerKind::AutoSave).spec_kind() == HandlerKind::AutoSave);
        }
        match kind {
            HandlerKind::Completion => self.completion.next_job(open_buffers),
            HandlerKind::SignatureHelp => self.signature_help.next_job(open_buffers),
            HandlerKind::InlayHints => self.inlay_hints.next_job(open_buffers),
            HandlerKind::AutoSave => self.auto_save.next_job(open_buffers),
        }
    }

    /// Hands an event to every subscribed handler, in subscription order,
    /// on the caller's context; the others are left as they were.
    pub fn emit(&mut self, ev: &Event, now: u64)
        requires
            old(self).wf(),
        ensures
            final(self).wf(),
            forall|h: HandlerKind|
                listens(h, ev.kind) ==> event_effect(
                    #[trigger] old(self).spec_handler(h),
                    final(self).spec_handler(h),
                    *ev,
                    now,
                ),
            forall|h: HandlerKind|
                !listens(h, ev.kind) ==> #[trigger] final(self).spec_handler(h) == old(
                    self,
                ).spec_handler(h),
    {
        let targets = self.bus.emit(ev.kind);
        proof {
            lemma_standard_listeners(ev.kind);
        }
        let mut i: usize = 0;
        while i < targets.len()
            invariant
                i <= targets@.len(),
                targets@ == listeners(standard_hooks(), ev.kind),
                targets@.no_duplicates(),
                self.wf(),
                forall|h: HandlerKind|
                    #[trigger] targets@.subrange(0, i as int).contains(h) ==> event_effect(
                        old(self).spec_handler(h),
                        self.spec_handler(h),
                        *ev,
                        now,
                    ),
                forall|h: HandlerKind|
                    !#[trigger] targets@.subrange(0, i as int).contains(h) ==> self.spec_handler(h)
                        == old(self).spec_handler(h),
            decreases targets@.len() - i,
        {
            let t = targets[i];
            proof {
                let pre = targets@.subrange(0, i as int);
                assert(targets@.subrange(0, i + 1) =~= pre.push(t));
                assert(!pre.contains(t));
                assert forall|h: HandlerKind| pre.push(t).contains(h) <==> (pre.contains(h) || h
                    == t) by {
                    if pre.push(t).contains(h) && h != t {
                        let j = choose|j: int| 0 <= j < pre.len() + 1 && pre.push(t)[j] == h;
                        assert(pre[j] == h);
                    }
                    if pre.contains(h) {
                        let j = choose|j: int| 0 <= j < pre.len() && pre[j] == h;
                        assert(pre.push(t)[j] == h);
                    }
                    if h == t {
                        assert(pre.push(t)[pre.len() as int] == h);
                    }
                }
            }
            let ghost before = *self;
            match t {
                HandlerKind::Completion => self.completion.on_event(ev, now),
                HandlerKind::SignatureHelp => self.signature_help.on_event(ev, now),
                HandlerKind::InlayHints => self.inlay_hints.on_event(ev, now),
                HandlerKind::AutoSave => self.auto_save.on_event(ev, now),
            }
            proof {
                let pre = targets@.subrange(0, i as int);
                assert(event_effect(before.spec_handler(t), self.spec_handler(t), *ev, now));
                assert forall|h: HandlerKind| h != t implies self.spec_handler(h)
                    == before.spec_handler(h) by {}
                assert forall|h: HandlerKind| #[trigger] self.spec_handler(h).wf() by {
                    if h != t {
                        assert(self.spec_handler(h) == before.spec_handler(h));
                    }
                }
                assert forall|h: HandlerKind| #[trigger]
                    self.spec_handler(h).spec_kind() == h by {
                    if h != t {
                        assert(self.spec_handler(h) == before.spec_handler(h));
                    }
                }
                assert forall|h: HandlerKind| #[trigger]
                    targets@.subrange(0, i + 1).contains(h) implies event_effect(
                    old(self).spec_handler(h),
                    self.spec_handler(h),
                    *ev,
                    now,
                ) by {
                    if h != t {
                        assert(pre.contains(h));
                        assert(self.spec_handler(h) == before.spec_handler(h));
                    }
                }
                assert forall|h: HandlerKind| !#[trigger]
                    targets@.subrange(0, i + 1).contains(h) implies self.spec_handler(h)
                    == old(self).spec_handler(h) by {
                    assert(!pre.contains(h));
                    assert(h != t);
                }
            }
            i = i + 1;
        }
        proof {
            assert(targets@.subrange(0, targets@.len() as int) =~= targets@);
            assert forall|h: HandlerKind| #[trigger]
                targets@.contains(h) <==> listens(h, ev.kind) by {
                assert(listeners(standard_hooks(), ev.kind).contains(h) <==> listens(h, ev.kind));
            }
            assert forall|h: HandlerKind| listens(h, ev.kind) implies event_effect(
                #[trigger] old(self).spec_handler(h),
                self.spec_handler(h),
                *ev,
                now,
            ) by {
                assert(targets@.contains(h));
                assert(targets@.subrange(0, i as int).contains(h));
            }
            assert forall|h: HandlerKind| !listens(h, ev.kind) implies #[trigger] self.spec_handler(h)
                == old(self).spec_handler(h) by {
                assert(!targets@.contains(h));
                assert(!targets@.subrange(0, i as int).contains(h));
            }
        }
    }
}

/// Builds every handler from `config` with delivery queues of `capacity`
/// items and registers their hooks on a new bus.
pub fn setup(config: &Config, capacity: usize) -> (r: Handlers)
    requires
        capacity > 0,
    ensures
        r.wf(),
        forall|h: HandlerKind| #[trigger] r.spec_handler(h).spec_enabled() == config.spec_for(h).enabled,
        forall|h: HandlerKind| #[trigger] r.spec_handler(h).spec_delay() == config.spec_for(h).delay,
        forall|h: HandlerKind| #[trigger] r.spec_handler(h).spec_capacity() == capacity,
        forall|h: HandlerKind| #[trigger] r.spec_handler(h).spec_pending().len() == 0,
        forall|h: HandlerKind| #[trigger] r.spec_handler(h).spec_outbox().len() == 0,
{
    let mut bus = EventBus::new();
    bus.subscribe(EventKind::DocumentChanged, HandlerKind::Completion);
    bus.subscribe(EventKind::SelectionChanged, HandlerKind::Completion);
    bus.subscribe(EventKind::BufferClosed, HandlerKind::Completion);
    bus.subscribe(EventKind::DocumentChanged, HandlerKind::SignatureHelp);
    bus.subscribe(EventKind::SelectionChanged, HandlerKind::SignatureHelp);
    bus.subscribe(EventKind::ModeChanged, HandlerKind::SignatureHelp);
    bus.subscribe(EventKind::BufferClosed, HandlerKind::SignatureHelp);
    bus.subscribe(EventKind::DocumentChanged, HandlerKind::InlayHints);
    bus.subscribe(EventKind::SelectionChanged, HandlerKind::InlayHints);
    bus.subscribe(EventKind::BufferClosed, HandlerKind::InlayHints);
    bus.subscribe(EventKind::DocumentChanged, HandlerKind::AutoSave);
    bus.subscribe(EventKind::BufferClosed, HandlerKind::AutoSave);
    proof {
        assert(bus@ =~= standard_hooks());
    }
    let r = Handlers {
        bus,
        completion: Handler::new(HandlerKind::Completion, config, capacity),
        signature_help: Handler::new(HandlerKind::SignatureHelp, config, capacity),
        inlay_hints: Handler::new(HandlerKind::InlayHints, config, capacity),
        auto_save: Handler::new(HandlerKind::AutoSave, config, capacity),
    };
    r
}

} // verus!
