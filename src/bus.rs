//! The synchronous event bus: an ordered registry from event kind to the
//! handlers that subscribed to it, built once at startup.
use vstd::prelude::*;

use crate::handler::{EventKind, HandlerKind};

verus! {

/// The handlers subscribed to `kind`, in the order of subscription.
pub open spec fn listeners(hooks: Seq<(EventKind, HandlerKind)>, kind: EventKind) -> Seq<
    HandlerKind,
>
    decreases hooks.len(),
{
    if hooks.len() == 0 {
        Seq::empty()
    } else {
        let rest = listeners(hooks.drop_last(), kind);
        if hooks.last().0 == kind {
            rest.push(hooks.last().1)
        } else {
            rest
        }
    }
}

/// Subscriptions, in the order in which they were made.
pub struct EventBus {
    hooks: Vec<(EventKind, HandlerKind)>,
}

impl View for EventBus {
    type V = Seq<(EventKind, HandlerKind)>;

    closed spec fn view(&self) -> Seq<(EventKind, HandlerKind)> {
        self.hooks@
    }
}

impl EventBus {
    /// A bus with no subscription.
    pub fn new() -> (r: Self)
        ensures
            r@ == Seq::<(EventKind, HandlerKind)>::empty(),
    {
        EventBus { hooks: Vec::new() }
    }

    /// Registers `handler` for events of `kind`, after those already there.
    pub fn subscribe(&mut self, kind: EventKind, handler: HandlerKind)
        ensures
            final(self)@ == old(self)@.push((kind, handler)),
    {
        self.hooks.push((kind, handler));
    }

    /// The handlers to invoke, in order, for an event of `kind`.
    pub fn emit(&self, kind: EventKind) -> (r: Vec<HandlerKind>)
        ensures
            r@ == listeners(self@, kind),
    {
        let mut out: Vec<HandlerKind> = Vec::new();
        let mut i: usize = 0;
        while i < self.hooks.len()
            invariant
                i <= self@.len(),
                out@ == listeners(self@.subrange(0, i as int), kind),
            decreases self@.len() - i,
        {
            let (k, h) = self.hooks[i];
            proof {
                assert(self@.subrange(0, i + 1).drop_last() =~= self@.subrange(0, i as int));
            }
            if k == kind {
                out.push(h);
            }
            i = i + 1;
        }
        proof {
            assert(self@.subrange(0, self@.len() as int) =~= self@);
        }
        out
    }
}

} // verus!
