//! The bounded event queue between watcher and coordinator.
//!
//! The watcher thread must never block, so the queue sheds load: an enqueue
//! against a full queue drops the new event and counts the drop instead of
//! waiting. The earliest events survive a burst; the overflow is observable
//! through the drop counter.

use vstd::prelude::*;

use crate::event::FileChangeEvent;

verus! {

/// The queue capacity the pipeline uses unless the host picks another.
pub const DEFAULT_QUEUE_CAPACITY: usize = 100;

/// What one non-blocking enqueue does to the queue's contents: append the
/// event if there is room, otherwise leave the contents unchanged.
pub open spec fn step_contents(
    s: Seq<FileChangeEvent>,
    cap: nat,
    e: FileChangeEvent,
) -> Seq<FileChangeEvent> {
    if s.len() < cap {
        s.push(e)
    } else {
        s
    }
}

/// How many drops one non-blocking enqueue adds.
pub open spec fn step_dropped(s: Seq<FileChangeEvent>, cap: nat) -> nat {
    if s.len() < cap {
        0
    } else {
        1
    }
}

/// The contents after enqueueing a whole burst of events, in order.
pub open spec fn run_contents(
    s: Seq<FileChangeEvent>,
    cap: nat,
    es: Seq<FileChangeEvent>,
) -> Seq<FileChangeEvent>
    decreases es.len(),
{
    if es.len() == 0 {
        s
    } else {
        run_contents(step_contents(s, cap, es[0]), cap, es.subrange(1, es.len() as int))
    }
}

/// How many events of a burst are dropped.
pub open spec fn run_dropped(s: Seq<FileChangeEvent>, cap: nat, es: Seq<FileChangeEvent>) -> nat
    decreases es.len(),
{
    if es.len() == 0 {
        0
    } else {
        step_dropped(s, cap) + run_dropped(
            step_contents(s, cap, es[0]),
            cap,
            es.subrange(1, es.len() as int),
        )
    }
}

/// The smaller of two naturals.
pub open spec fn min_nat(a: nat, b: nat) -> nat {
    if a <= b {
        a
    } else {
        b
    }
}

/// Load-shedding law of the bounded queue: a burst of events against a queue
/// holding `s` retains the earliest events up to capacity — the retained
/// prefix is `(s + es).take(min(|s| + |es|, cap))` — and drops, observably
/// counted, exactly the excess beyond capacity. In particular a burst against
/// an empty queue retains the first `cap` events and drops the rest.
pub proof fn lemma_burst_policy(s: Seq<FileChangeEvent>, cap: nat, es: Seq<FileChangeEvent>)
    requires
        s.len() <= cap,
    ensures
        run_contents(s, cap, es) == (s + es).take(min_nat(s.len() + es.len(), cap) as int),
        run_dropped(s, cap, es) == (s.len() + es.len()) - min_nat(s.len() + es.len(), cap),
    decreases es.len(),
{
    if es.len() == 0 {
        assert((s + es).take(min_nat(s.len() + es.len(), cap) as int) =~= s);
    } else {
        let rest = es.subrange(1, es.len() as int);
        if s.len() < cap {
            let s2 = s.push(es[0]);
            lemma_burst_policy(s2, cap, rest);
            assert(s2 + rest =~= s + es);
        } else {
            lemma_burst_policy(s, cap, rest);
            assert((s + rest).take(cap as int) =~= (s + es).take(cap as int));
        }
    }
}

/// A fixed-capacity FIFO queue of filesystem events with a drop-on-full
/// enqueue and a drop counter.
pub struct EventQueue {
    items: Vec<FileChangeEvent>,
    capacity: usize,
    dropped: u64,
}

impl View for EventQueue {
    type V = Seq<FileChangeEvent>;

    closed spec fn view(&self) -> Seq<FileChangeEvent> {
        self.items@
    }
}

impl EventQueue {
    /// The fixed capacity the queue was built with.
    pub closed spec fn spec_capacity(&self) -> usize {
        self.capacity
    }

    /// How many enqueues have been refused so far.
    pub closed spec fn spec_dropped(&self) -> u64 {
        self.dropped
    }

    /// The queue never holds more than its capacity, and the capacity is
    /// at least one.
    pub open spec fn wf(&self) -> bool {
        self@.len() <= self.spec_capacity() && self.spec_capacity() >= 1
    }

    /// An empty queue of the given capacity.
    pub fn new(capacity: usize) -> (q: EventQueue)
        requires
            capacity >= 1,
        ensures
            q.wf(),
            q@ == Seq::<FileChangeEvent>::empty(),
            q.spec_capacity() == capacity,
            q.spec_dropped() == 0,
    {
        EventQueue { items: Vec::new(), capacity, dropped: 0 }
    }

    #[verifier::when_used_as_spec(spec_capacity)]
    pub fn capacity(&self) -> (c: usize)
        ensures
            c == self.spec_capacity(),
    {
        self.capacity
    }

    #[verifier::when_used_as_spec(spec_dropped)]
    pub fn dropped(&self) -> (d: u64)
        ensures
            d == self.spec_dropped(),
    {
        self.dropped
    }

    /// How many events are waiting.
    pub fn len(&self) -> (n: usize)
        ensures
            n == self@.len(),
    {
        self.items.len()
    }

    /// Non-blocking enqueue: appends the event if there is room and reports
    /// `true`; with the queue full it leaves the contents untouched, counts
    /// the drop (saturating), and reports `false`.
    pub fn try_enqueue(&mut self, e: FileChangeEvent) -> (accepted: bool)
        requires
            old(self).wf(),
        ensures
            final(self).wf(),
            final(self).spec_capacity() == old(self).spec_capacity(),
            accepted == (old(self)@.len() < old(self).spec_capacity()),
            final(self)@ == step_contents(old(self)@, old(self).spec_capacity() as nat, e),
            accepted ==> final(self).spec_dropped() == old(self).spec_dropped(),
            !accepted && old(self).spec_dropped() < u64::MAX ==> final(self).spec_dropped()
                == old(self).spec_dropped() + 1,
            !accepted && old(self).spec_dropped() == u64::MAX ==> final(self).spec_dropped()
                == u64::MAX,
    {
        if self.items.len() < self.capacity {
            self.items.push(e);
            true
        } else {
            if self.dropped < u64::MAX {
                self.dropped = self.dropped + 1;
            }
            false
        }
    }

    /// Removes and returns the oldest waiting event, if any.
    pub fn dequeue(&mut self) -> (r: Option<FileChangeEvent>)
        requires
            old(self).wf(),
        ensures
            final(self).wf(),
            final(self).spec_capacity() == old(self).spec_capacity(),
            final(self).spec_dropped() == old(self).spec_dropped(),
            match r {
                Some(e) => old(self)@.len() > 0 && e == old(self)@[0] && final(self)@ == old(
                    self,
                )@.subrange(1, old(self)@.len() as int),
                None => old(self)@.len() == 0 && final(self)@ == old(self)@,
            },
    {
        if self.items.len() == 0 {
            None
        } else {
            let e = self.items.remove(0);
            Some(e)
        }
    }
}

} // verus!
