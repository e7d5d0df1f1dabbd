//! Identity-keyed coalescing: a burst of events for one identity becomes a
//! single item, carrying the last payload, once the identity has been quiet
//! for the configured delay.
use vstd::prelude::*;

verus! {

/// The grouping key of a pending item: a buffer, and a second component
/// whose meaning the handler kind chooses (a view, a cursor session, or 0).
#[derive(Clone, Copy, Debug, PartialEq, Eq, Structural)]
pub struct Key {
    pub buffer: u64,
    pub slot: u64,
}

/// The latest payload for a key and the instant at which it becomes due.
pub struct Pending<P> {
    pub key: Key,
    pub payload: P,
    pub deadline: u64,
}

/// `now + delay`, saturated at the largest instant.
pub open spec fn deadline_after(now: u64, delay: u64) -> u64 {
    if now + delay <= u64::MAX {
        (now + delay) as u64
    } else {
        u64::MAX
    }
}

/// The items of `s` that satisfy `f`, in their order.
pub open spec fn keep<P>(s: Seq<Pending<P>>, f: spec_fn(Pending<P>) -> bool) -> Seq<Pending<P>>
    decreases s.len(),
{
    if s.len() == 0 {
        s
    } else {
        let rest = keep(s.drop_last(), f);
        if f(s.last()) {
            rest.push(s.last())
        } else {
            rest
        }
    }
}

pub open spec fn excluding<P>(f: spec_fn(Pending<P>) -> bool) -> spec_fn(Pending<P>) -> bool {
    |e: Pending<P>| !f(e)
}

pub open spec fn has_key<P>(key: Key) -> spec_fn(Pending<P>) -> bool {
    |e: Pending<P>| e.key == key
}

pub open spec fn in_buffer<P>(buffer: u64) -> spec_fn(Pending<P>) -> bool {
    |e: Pending<P>| e.key.buffer == buffer
}

pub open spec fn is_due<P>(now: u64) -> spec_fn(Pending<P>) -> bool {
    |e: Pending<P>| e.deadline <= now
}

/// The entry for `key`, looked up from the most recent end.
pub open spec fn lookup<P>(s: Seq<Pending<P>>, key: Key) -> Option<Pending<P>>
    decreases s.len(),
{
    if s.len() == 0 {
        None
    } else if s.last().key == key {
        Some(s.last())
    } else {
        lookup(s.drop_last(), key)
    }
}

/// At most one entry per key.
pub open spec fn distinct_keys<P>(s: Seq<Pending<P>>) -> bool
    decreases s.len(),
{
    s.len() == 0 || (distinct_keys(s.drop_last()) && lookup(s.drop_last(), s.last().key).is_none())
}

/// The pending entries after an event for `key`: any earlier entry for the
/// key is replaced by a fresh one at the end, with a restarted deadline.
pub open spec fn accepted<P>(s: Seq<Pending<P>>, key: Key, payload: P, deadline: u64) -> Seq<
    Pending<P>,
> {
    keep(s, excluding(has_key(key))).push(Pending { key, payload, deadline })
}

/// Keeping a part of a sequence with distinct keys keeps the keys distinct,
/// and finds an entry exactly when the whole finds it and it is kept.
pub proof fn lemma_keep_lookup<P>(s: Seq<Pending<P>>, f: spec_fn(Pending<P>) -> bool, key: Key)
    requires
        distinct_keys(s),
    ensures
        distinct_keys(keep(s, f)),
        lookup(s, key) is Some ==> lookup(s, key)->Some_0.key == key,
        lookup(keep(s, f), key) == match lookup(s, key) {
            Some(e) => if f(e) {
                Some(e)
            } else {
                None
            },
            None => None,
        },
    decreases s.len(),
{
    if s.len() > 0 {
        let rest = keep(s.drop_last(), f);
        lemma_keep_lookup(s.drop_last(), f, key);
        lemma_keep_lookup(s.drop_last(), f, s.last().key);
        if f(s.last()) {
            assert(rest.push(s.last()).drop_last() =~= rest);
        }
    }
}

/// The state after an event for `key` with `payload` arrives at instant
/// `at`: what was due by then has left, then the event is accepted.
pub open spec fn stepped<P>(s: Seq<Pending<P>>, key: Key, payload: P, at: u64, delay: u64) -> Seq<
    Pending<P>,
> {
    accepted(keep(s, excluding(is_due(at))), key, payload, deadline_after(at, delay))
}

/// One arrival of an event for the engine: its key, payload and instant.
pub struct Arrival<P> {
    pub key: Key,
    pub payload: P,
    pub at: u64,
}

/// Feeds `events` in order to an engine in state `s`, polling it at each
/// arrival: the final state, and every item dispatched on the way.
pub open spec fn run<P>(s: Seq<Pending<P>>, events: Seq<Arrival<P>>, delay: u64) -> (
    Seq<Pending<P>>,
    Seq<Pending<P>>,
)
    decreases events.len(),
{
    if events.len() == 0 {
        (s, Seq::empty())
    } else {
        let (prev, sent) = run(s, events.drop_last(), delay);
        let ev = events.last();
        (
            stepped(prev, ev.key, ev.payload, ev.at, delay),
            sent + keep(prev, is_due(ev.at)),
        )
    }
}

/// No entry of `s` has `key` exactly when the lookup finds none.
pub proof fn lemma_lookup_none<P>(s: Seq<Pending<P>>, key: Key)
    ensures
        lookup(s, key) is None <==> forall|i: int| 0 <= i < s.len() ==> s[i].key != key,
    decreases s.len(),
{
    if s.len() > 0 {
        lemma_lookup_none(s.drop_last(), key);
        if lookup(s, key) is None {
            assert forall|i: int| 0 <= i < s.len() implies s[i].key != key by {
                if i < s.len() - 1 {
                    assert(s[i] == s.drop_last()[i]);
                }
            }
        } else if s.last().key != key {
            let j = choose|j: int| 0 <= j < s.drop_last().len() && s.drop_last()[j].key == key;
            assert(s[j] == s.drop_last()[j]);
        }
    }
}

/// With distinct keys, the entries for one key are its lookup or nothing.
pub proof fn lemma_keep_key<P>(s: Seq<Pending<P>>, key: Key)
    requires
        distinct_keys(s),
    ensures
        keep(s, has_key(key)) == match lookup(s, key) {
            Some(e) => seq![e],
            None => Seq::<Pending<P>>::empty(),
        },
    decreases s.len(),
{
    if s.len() > 0 {
        lemma_keep_key(s.drop_last(), key);
        if s.last().key == key {
            assert(Seq::<Pending<P>>::empty().push(s.last()) =~= seq![s.last()]);
        }
    }
}

/// Keeping twice by the same predicate keeps the same items as once.
pub proof fn lemma_keep_twice<P>(s: Seq<Pending<P>>, f: spec_fn(Pending<P>) -> bool)
    ensures
        keep(keep(s, f), f) == keep(s, f),
    decreases s.len(),
{
    if s.len() > 0 {
        lemma_keep_twice(s.drop_last(), f);
        let rest = keep(s.drop_last(), f);
        if f(s.last()) {
            assert(rest.push(s.last()).drop_last() =~= rest);
        }
    }
}

/// Feeding events to the engine keeps its keys distinct.
pub proof fn lemma_run_distinct<P>(s: Seq<Pending<P>>, events: Seq<Arrival<P>>, delay: u64)
    requires
        distinct_keys(s),
    ensures
        distinct_keys(run(s, events, delay).0),
    decreases events.len(),
{
    if events.len() > 0 {
        let prev = run(s, events.drop_last(), delay).0;
        let ev = events.last();
        lemma_run_distinct(s, events.drop_last(), delay);
        let waiting = keep(prev, excluding(is_due(ev.at)));
        lemma_keep_lookup(prev, excluding(is_due(ev.at)), ev.key);
        let kept = keep(waiting, excluding(has_key(ev.key)));
        lemma_keep_lookup(waiting, excluding(has_key(ev.key)), ev.key);
        let e = Pending { key: ev.key, payload: ev.payload, deadline: deadline_after(ev.at, delay) };
        assert(kept.push(e).drop_last() =~= kept);
    }
}

/// A burst of events for one key, each arriving before the timer that the
/// previous one started has run out, dispatches nothing for that key while
/// it lasts; once the delay has passed after the last one, polling
/// dispatches exactly one item for the key, carrying the last payload.
pub proof fn law_burst_coalesces<P>(
    s: Seq<Pending<P>>,
    events: Seq<Arrival<P>>,
    delay: u64,
    later: u64,
)
    requires
        distinct_keys(s),
        events.len() > 0,
        lookup(s, events[0].key) is None,
        forall|i: int| 0 <= i < events.len() ==> #[trigger] events[i].key == events[0].key,
        forall|i: int|
            0 < i < events.len() ==> events[i - 1].at <= #[trigger] events[i].at < deadline_after(
                events[i - 1].at,
                delay,
            ),
        deadline_after(events.last().at, delay) <= later,
    ensures
        forall|i: int|
            0 <= i < run(s, events, delay).1.len() ==> #[trigger] run(s, events, delay).1[i].key
                != events[0].key,
        keep(keep(run(s, events, delay).0, is_due(later)), has_key(events[0].key)) == seq![
            Pending {
                key: events[0].key,
                payload: events.last().payload,
                deadline: deadline_after(events.last().at, delay),
            },
        ],
{
    lemma_burst_prefix(s, events, delay);
    let fin = run(s, events, delay).0;
    let key = events[0].key;
    lemma_run_distinct(s, events, delay);
    lemma_keep_lookup(fin, is_due(later), key);
    lemma_keep_lookup(fin, is_due(later), key);
    lemma_keep_key(keep(fin, is_due(later)), key);
}

/// The induction behind the burst law: after each prefix of the burst the
/// key has one entry, for the latest event, and nothing for it was sent.
proof fn lemma_burst_prefix<P>(s: Seq<Pending<P>>, events: Seq<Arrival<P>>, delay: u64)
    requires
        distinct_keys(s),
        events.len() > 0,
        lookup(s, events[0].key) is None,
        forall|i: int| 0 <= i < events.len() ==> #[trigger] events[i].key == events[0].key,
        forall|i: int|
            0 < i < events.len() ==> events[i - 1].at <= #[trigger] events[i].at < deadline_after(
                events[i - 1].at,
                delay,
            ),
    ensures
        lookup(run(s, events, delay).0, events[0].key) == Some(
            Pending {
                key: events[0].key,
                payload: events.last().payload,
                deadline: deadline_after(events.last().at, delay),
            },
        ),
        forall|i: int|
            0 <= i < run(s, events, delay).1.len() ==> #[trigger] run(s, events, delay).1[i].key
                != events[0].key,
    decreases events.len(),
{
    let key = events[0].key;
    let ev = events.last();
    let pre = events.drop_last();
    let (prev, sent) = run(s, pre, delay);
    if pre.len() > 0 {
        assert(pre[0] == events[0]);
        assert forall|i: int| 0 <= i < pre.len() implies #[trigger] pre[i].key == pre[0].key by {
            assert(events[i] == pre[i]);
        }
        assert forall|i: int| 0 < i < pre.len() implies pre[i - 1].at <= #[trigger] pre[i].at
            < deadline_after(pre[i - 1].at, delay) by {
            assert(events[i] == pre[i] && events[i - 1] == pre[i - 1]);
        }
        lemma_burst_prefix(s, pre, delay);
        assert(events[events.len() - 1].at < deadline_after(events[events.len() - 2].at, delay));
        assert(pre.last() == events[events.len() - 2]);
    }
    lemma_run_distinct(s, pre, delay);
    assert(ev.key == key);
    let due = keep(prev, is_due(ev.at));
    lemma_keep_lookup(prev, is_due(ev.at), key);
    lemma_lookup_none(due, key);
    let waiting = keep(prev, excluding(is_due(ev.at)));
    lemma_keep_lookup(prev, excluding(is_due(ev.at)), key);
    let (fin, all_sent) = run(s, events, delay);
    assert forall|i: int| 0 <= i < all_sent.len() implies #[trigger] all_sent[i].key != key by {
        if i < sent.len() {
            assert(all_sent[i] == sent[i]);
        } else {
            assert(all_sent[i] == due[i - sent.len()]);
        }
    }
}

/// An isolated event, followed by a wait of at least the delay, dispatches
/// exactly one item for its key, carrying its payload.
pub proof fn law_isolated_event<P>(s: Seq<Pending<P>>, key: Key, payload: P, at: u64, delay: u64, later: u64)
    requires
        distinct_keys(s),
        lookup(s, key) is None,
        deadline_after(at, delay) <= later,
    ensures
        keep(keep(stepped(s, key, payload, at, delay), is_due(later)), has_key(key)) == seq![
            Pending { key, payload, deadline: deadline_after(at, delay) },
        ],
{
    let events = seq![Arrival { key, payload, at }];
    assert(events.drop_last() =~= Seq::<Arrival<P>>::empty());
    assert(run(s, events.drop_last(), delay).0 == s);
    assert(run(s, events, delay).0 == stepped(s, key, payload, at, delay));
    law_burst_coalesces(s, events, delay, later);
}

/// An event for one key leaves every other key's entry, and so its timer,
/// as it was, and keeps the other entries in the same order, which is the
/// order in which they are dispatched.
pub proof fn law_keys_independent<P>(s: Seq<Pending<P>>, key: Key, payload: P, deadline: u64, other: Key)
    requires
        distinct_keys(s),
        other != key,
    ensures
        lookup(accepted(s, key, payload, deadline), other) == lookup(s, other),
        keep(accepted(s, key, payload, deadline), excluding(has_key(key))) == keep(
            s,
            excluding(has_key(key)),
        ),
{
    let kept = keep(s, excluding(has_key(key)));
    lemma_keep_lookup(s, excluding(has_key(key)), other);
    lemma_keep_twice(s, excluding(has_key(key)));
    let e = Pending { key, payload, deadline };
    assert(kept.push(e).drop_last() =~= kept);
}

/// The three ways in which the engine partitions its entries.
enum Selector {
    Key(Key),
    Buffer(u64),
    DueAt(u64),
}

spec fn selects<P>(sel: Selector) -> spec_fn(Pending<P>) -> bool {
    match sel {
        Selector::Key(k) => has_key(k),
        Selector::Buffer(b) => in_buffer(b),
        Selector::DueAt(now) => is_due(now),
    }
}

fn check<P>(sel: &Selector, e: &Pending<P>) -> (r: bool)
    ensures
        r == selects::<P>(*sel)(*e),
{
    match sel {
        Selector::Key(k) => e.key == *k,
        Selector::Buffer(b) => e.key.buffer == *b,
        Selector::DueAt(now) => e.deadline <= *now,
    }
}

/// Splits `v` into the entries that `sel` picks and the others, both in order.
fn partition<P>(v: Vec<Pending<P>>, sel: Selector) -> (r: (Vec<Pending<P>>, Vec<Pending<P>>))
    ensures
        r.0@ == keep(v@, selects(sel)),
        r.1@ == keep(v@, excluding(selects(sel))),
{
    let ghost orig = v@;
    let mut src = v;
    let mut taken: Vec<Pending<P>> = Vec::new();
    let mut rest: Vec<Pending<P>> = Vec::new();
    while src.len() > 0
        invariant
            src@.len() <= orig.len(),
            src@ == orig.subrange(orig.len() - src@.len(), orig.len() as int),
            taken@ == keep(orig.subrange(0, orig.len() - src@.len()), selects(sel)),
            rest@ == keep(orig.subrange(0, orig.len() - src@.len()), excluding(selects(sel))),
        decreases src.len(),
    {
        let ghost done = orig.len() - src@.len();
        let e = src.remove(0);
        proof {
            let pre = orig.subrange(0, done + 1);
            assert(pre.drop_last() =~= orig.subrange(0, done));
            assert(pre.last() == e);
            assert(src@ =~= orig.subrange(done + 1, orig.len() as int));
        }
        if check(&sel, &e) {
            taken.push(e);
        } else {
            rest.push(e);
        }
    }
    proof {
        assert(orig.subrange(0, orig.len() as int) =~= orig);
    }
    (taken, rest)
}

/// Coalescing engine for one handler kind: at most one pending entry per
/// key, with a fixed delay.
pub struct Debouncer<P> {
    delay: u64,
    pending: Vec<Pending<P>>,
}

impl<P> View for Debouncer<P> {
    type V = Seq<Pending<P>>;

    closed spec fn view(&self) -> Seq<Pending<P>> {
        self.pending@
    }
}

impl<P> Debouncer<P> {
    pub closed spec fn spec_delay(&self) -> u64 {
        self.delay
    }

    pub open spec fn wf(&self) -> bool {
        distinct_keys(self@)
    }

    /// An engine with nothing pending.
    pub fn new(delay: u64) -> (r: Self)
        ensures
            r.wf(),
            r@ == Seq::<Pending<P>>::empty(),
            r.spec_delay() == delay,
    {
        Debouncer { delay, pending: Vec::new() }
    }

    pub fn delay(&self) -> (r: u64)
        ensures
            r == self.spec_delay(),
    {
        self.delay
    }

    /// Uses `delay` for events from now on; running timers keep their
    /// deadlines.
    pub fn set_delay(&mut self, delay: u64)
        requires
            old(self).wf(),
        ensures
            final(self).wf(),
            final(self)@ == old(self)@,
            final(self).spec_delay() == delay,
    {
        self.delay = delay;
    }

    /// How many keys have a pending entry.
    pub fn pending_count(&self) -> (r: usize)
        ensures
            r == self@.len(),
    {
        self.pending.len()
    }

    /// Takes an event for `key` at instant `now`: replaces the payload of
    /// a pending entry for the key and restarts its timer, or starts one.
    pub fn accept(&mut self, key: Key, payload: P, now: u64)
        requires
            old(self).wf(),
        ensures
            final(self).wf(),
            final(self).spec_delay() == old(self).spec_delay(),
            final(self)@ == accepted(
                old(self)@,
                key,
                payload,
                deadline_after(now, old(self).spec_delay()),
            ),
    {
        let mut all: Vec<Pending<P>> = Vec::new();
        core::mem::swap(&mut self.pending, &mut all);
        let (_, mut rest) = partition(all, Selector::Key(key));
        let deadline = now.saturating_add(self.delay);
        proof {
            lemma_keep_lookup(old(self)@, excluding(has_key::<P>(key)), key);
            let e = Pending { key, payload, deadline };
            assert(rest@.push(e).drop_last() =~= rest@);
        }
        rest.push(Pending { key, payload, deadline });
        self.pending = rest;
    }

    /// Removes and returns, in order, the entries whose deadline is at or
    /// before `now`.
    pub fn expire(&mut self, now: u64) -> (r: Vec<Pending<P>>)
        requires
            old(self).wf(),
        ensures
            final(self).wf(),
            final(self).spec_delay() == old(self).spec_delay(),
            r@ == keep(old(self)@, is_due(now)),
            final(self)@ == keep(old(self)@, excluding(is_due(now))),
            distinct_keys(r@),
    {
        let mut all: Vec<Pending<P>> = Vec::new();
        core::mem::swap(&mut self.pending, &mut all);
        let (due, rest) = partition(all, Selector::DueAt(now));
        proof {
            lemma_keep_lookup(old(self)@, excluding(is_due::<P>(now)), Key { buffer: 0, slot: 0 });
            lemma_keep_lookup(old(self)@, is_due::<P>(now), Key { buffer: 0, slot: 0 });
        }
        self.pending = rest;
        due
    }

    /// Handles an event for `key` arriving at `now`: first takes out, in
    /// order, the entries that are due by then, then accepts the event.
    pub fn offer(&mut self, key: Key, payload: P, now: u64) -> (r: Vec<Pending<P>>)
        requires
            old(self).wf(),
        ensures
            final(self).wf(),
            final(self).spec_delay() == old(self).spec_delay(),
            r@ == keep(old(self)@, is_due(now)),
            final(self)@ == stepped(old(self)@, key, payload, now, old(self).spec_delay()),
    {
        let due = self.expire(now);
        self.accept(key, payload, now);
        due
    }

    /// Drops, without delivery, every pending entry of a buffer that is no
    /// longer live.
    pub fn forget_buffer(&mut self, buffer: u64)
        requires
            old(self).wf(),
        ensures
            final(self).wf(),
            final(self).spec_delay() == old(self).spec_delay(),
            final(self)@ == keep(old(self)@, excluding(in_buffer(buffer))),
    {
        let mut all: Vec<Pending<P>> = Vec::new();
        core::mem::swap(&mut self.pending, &mut all);
        let (_, rest) = partition(all, Selector::Buffer(buffer));
        proof {
            lemma_keep_lookup(old(self)@, excluding(in_buffer::<P>(buffer)), Key { buffer: 0, slot: 0 });
        }
        self.pending = rest;
    }
}

} // verus!
