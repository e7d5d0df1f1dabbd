//! A bounded delivery queue that never blocks its producer: when it is
//! full, the oldest buffered item is evicted to make room for the newest.
use vstd::prelude::*;

verus! {

/// Bounded single-producer/single-consumer conduit with a drop-oldest policy.
pub struct Mailbox<T> {
    capacity: usize,
    items: Vec<T>,
    evicted: u64,
}

/// What a push does to the buffered items, given the capacity.
pub open spec fn pushed<T>(items: Seq<T>, capacity: nat, item: T) -> Seq<T> {
    if items.len() >= capacity {
        items.drop_first().push(item)
    } else {
        items.push(item)
    }
}

impl<T> View for Mailbox<T> {
    type V = Seq<T>;

    closed spec fn view(&self) -> Seq<T> {
        self.items@
    }
}

impl<T> Mailbox<T> {
    pub closed spec fn spec_capacity(&self) -> nat {
        self.capacity as nat
    }

    pub closed spec fn spec_evicted(&self) -> nat {
        self.evicted as nat
    }

    /// The buffered items never exceed the capacity, which is positive.
    pub closed spec fn wf(&self) -> bool {
        &&& self.capacity > 0
        &&& self.items@.len() <= self.capacity
    }

    /// An empty queue holding at most `capacity` items.
    pub fn new(capacity: usize) -> (r: Self)
        requires
            capacity > 0,
        ensures
            r.wf(),
            r@ == Seq::<T>::empty(),
            r.spec_capacity() == capacity,
            r.spec_evicted() == 0,
    {
        Mailbox { capacity, items: Vec::new(), evicted: 0 }
    }

    pub fn capacity(&self) -> (r: usize)
        ensures
            r == self.spec_capacity(),
    {
        self.capacity
    }

    pub fn len(&self) -> (r: usize)
        ensures
            r == self@.len(),
    {
        self.items.len()
    }

    pub fn is_empty(&self) -> (r: bool)
        ensures
            r == (self@.len() == 0),
    {
        self.items.len() == 0
    }

    /// How many items were evicted so far (saturating).
    pub fn evicted(&self) -> (r: u64)
        ensures
            r == self.spec_evicted(),
    {
        self.evicted
    }

    /// Appends `item`; when the queue is full its oldest item is evicted
    /// and handed back. Never blocks and never fails.
    pub fn push(&mut self, item: T) -> (r: Option<T>)
        requires
            old(self).wf(),
        ensures
            final(self).wf(),
            final(self)@ == pushed(old(self)@, old(self).spec_capacity(), item),
            final(self).spec_capacity() == old(self).spec_capacity(),
            old(self)@.len() == old(self).spec_capacity() ==> r == Some(old(self)@[0])
                && final(self).spec_evicted() == if old(self).spec_evicted() < u64::MAX {
                    old(self).spec_evicted() + 1
                } else {
                    old(self).spec_evicted()
                },
            old(self)@.len() < old(self).spec_capacity() ==> r.is_none()
                && final(self).spec_evicted() == old(self).spec_evicted(),
    {
        let mut out: Option<T> = None;
        if self.items.len() >= self.capacity {
            out = Some(self.items.remove(0));
            self.evicted = self.evicted.saturating_add(1);
        }
        self.items.push(item);
        proof {
            assert(self.items@ =~= pushed(old(self)@, old(self).spec_capacity(), item));
        }
        out
    }

    /// Takes the oldest buffered item, if any.
    pub fn pop(&mut self) -> (r: Option<T>)
        requires
            old(self).wf(),
        ensures
            final(self).wf(),
            final(self).spec_capacity() == old(self).spec_capacity(),
            final(self).spec_evicted() == old(self).spec_evicted(),
            old(self)@.len() == 0 ==> r.is_none() && final(self)@ == old(self)@,
            old(self)@.len() > 0 ==> r == Some(old(self)@[0]) && final(self)@
                == old(self)@.drop_first(),
    {
        if self.items.len() == 0 {
            None
        } else {
            let x = self.items.remove(0);
            proof {
                assert(self.items@ =~= old(self)@.drop_first());
            }
            Some(x)
        }
    }
}

} // verus!

verus! {

/// The buffered items after pushing each of `new`, in order.
pub open spec fn pushed_all<T>(items: Seq<T>, capacity: nat, new: Seq<T>) -> Seq<T>
    decreases new.len(),
{
    if new.len() == 0 {
        items
    } else {
        pushed(pushed_all(items, capacity, new.drop_last()), capacity, new.last())
    }
}

impl<T> Mailbox<T> {
    /// Pushes each item of `new` in order, evicting the oldest as needed.
    pub fn push_all(&mut self, new: Vec<T>)
        requires
            old(self).wf(),
        ensures
            final(self).wf(),
            final(self).spec_capacity() == old(self).spec_capacity(),
            final(self)@ == pushed_all(old(self)@, old(self).spec_capacity(), new@),
    {
        let ghost orig = new@;
        let mut src = new;
        while src.len() > 0
            invariant
                self.wf(),
                self.spec_capacity() == old(self).spec_capacity(),
                src@.len() <= orig.len(),
                src@ == orig.subrange(orig.len() - src@.len(), orig.len() as int),
                self@ == pushed_all(
                    old(self)@,
                    old(self).spec_capacity(),
                    orig.subrange(0, orig.len() - src@.len()),
                ),
            decreases src.len(),
        {
            let ghost done = orig.len() - src@.len();
            let x = src.remove(0);
            proof {
                let pre = orig.subrange(0, done + 1);
                assert(pre.drop_last() =~= orig.subrange(0, done));
                assert(pre.last() == x);
                assert(src@ =~= orig.subrange(done + 1, orig.len() as int));
            }
            self.push(x);
        }
        proof {
            assert(orig.subrange(0, orig.len() as int) =~= orig);
        }
    }
}

} // verus!

verus! {

/// Whatever is pushed, the queue holds exactly the most recent items that
/// fit: the oldest are the ones evicted, and nothing is ever refused.
pub proof fn law_keeps_most_recent<T>(items: Seq<T>, capacity: nat, new: Seq<T>)
    requires
        capacity > 0,
        items.len() <= capacity,
    ensures
        pushed_all(items, capacity, new) == (items + new).subrange(
            if items.len() + new.len() > capacity {
                items.len() + new.len() - capacity
            } else {
                0
            },
            (items.len() + new.len()) as int,
        ),
    decreases new.len(),
{
    if new.len() > 0 {
        let pre = new.drop_last();
        law_keeps_most_recent(items, capacity, pre);
        let all = items + new;
        assert((items + pre) =~= all.drop_last());
        let prev = pushed_all(items, capacity, pre);
        let n: int = (items.len() + pre.len()) as int;
        let lo: int = if n > capacity { n - capacity } else { 0 };
        assert(prev.len() <= capacity);
        if prev.len() >= capacity {
            assert(prev.drop_first().push(new.last()) =~= all.subrange(lo + 1, n + 1));
        } else {
            assert(prev.push(new.last()) =~= all.subrange(lo, n + 1));
        }
    }
}

} // verus!
