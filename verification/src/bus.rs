//! The event bus: a bounded broadcast that fans every published event out
//! to independently paced subscribers.
//!
//! The bus retains the newest events up to its capacity.  Publishing never
//! blocks and never fails: when the buffer is full the oldest retained
//! event is dropped, and a subscriber that has fallen behind the retained
//! window observes a lag indicator (with the number of events it missed)
//! instead of stalling the publisher or other subscribers.  A subscriber
//! may be registered inactive — a cheap placeholder that buffers nothing —
//! and activated later, from the then-current position.  New and newly
//! activated subscribers start at the current head: there is no history
//! replay.
//!
//! The ghost `history` field records every event ever published, so
//! contracts can pin down exactly which event a receive delivers.

use vstd::prelude::*;

verus! {

/// One subscriber's cursor: its absolute position in the publish history
/// and whether it currently consumes.
#[derive(Clone, Copy, Debug, PartialEq, Eq, Structural)]
pub struct Subscriber {
    pub pos: u64,
    pub active: bool,
}

/// What one receive call yields.
#[derive(Debug)]
pub enum RecvOutcome<'a, T> {
    /// The next event, in publish order.
    Event(&'a T),
    /// The subscriber fell behind the retained window; it skipped this many
    /// events and was advanced to the oldest retained one.
    Lagged(u64),
    /// The subscriber has seen everything published so far; the caller
    /// waits for a new publish.
    Empty,
    /// The subscriber is a deactivated placeholder.
    Inactive,
}

/// The bounded broadcast bus.
#[verifier::reject_recursive_types(T)]
pub struct EventBus<T> {
    pub capacity: usize,
    pub published: u64,
    pub buffer: Vec<T>,
    pub history: Ghost<Seq<T>>,
    pub subs: Vec<Subscriber>,
}

impl<T> EventBus<T> {
    /// Absolute position of the oldest retained event.
    pub open spec fn oldest(self) -> int {
        self.published - self.buffer@.len()
    }

    /// Well-formedness: the buffer is the newest slice of the history, at
    /// most `capacity` long, and no subscriber is ahead of the head.
    pub open spec fn wf(self) -> bool {
        &&& self.capacity >= 1
        &&& self.buffer@.len() <= self.capacity
        &&& self.buffer@.len() <= self.published
        &&& self.history@.len() == self.published
        &&& self.buffer@ == self.history@.subrange(self.oldest(), self.published as int)
        &&& forall|i: int|
            0 <= i < self.subs@.len() ==> (#[trigger] self.subs@[i]).pos <= self.published
    }

    /// A receive by subscriber `i` would deliver a lag indicator: it is
    /// active and behind the oldest retained event.
    pub open spec fn recv_would_lag(self, i: int) -> bool {
        self.subs@[i].active && (self.subs@[i].pos as int) < self.oldest()
    }

    /// A receive by subscriber `i` would deliver an event: it is active and
    /// within the retained window, short of the head.
    pub open spec fn recv_has_event(self, i: int) -> bool {
        self.subs@[i].active && self.oldest() <= self.subs@[i].pos as int
            && (self.subs@[i].pos as int) < self.published as int
    }

    /// An empty bus of the given capacity.
    pub fn new(capacity: usize) -> (r: EventBus<T>)
        requires
            capacity >= 1,
        ensures
            r.wf(),
            r.capacity == capacity,
            r.published == 0,
            r.history@.len() == 0,
            r.subs@.len() == 0,
    {
        let r = EventBus {
            capacity,
            published: 0u64,
            buffer: Vec::new(),
            history: Ghost(Seq::empty()),
            subs: Vec::new(),
        };
        proof {
            assert(r.buffer@ =~= r.history@.subrange(0, 0));
        }
        r
    }

    /// Registers a subscriber at the current head — it will see only events
    /// published from now on — active or as an inactive placeholder.
    /// Returns its id.
    pub fn subscribe(&mut self, active: bool) -> (id: usize)
        requires
            old(self).wf(),
        ensures
            final(self).wf(),
            id == old(self).subs@.len(),
            final(self).subs@ == old(self).subs@.push(
                Subscriber { pos: old(self).published, active },
            ),
            final(self).capacity == old(self).capacity,
            final(self).published == old(self).published,
            final(self).buffer@ == old(self).buffer@,
            final(self).history@ == old(self).history@,
    {
        let id = self.subs.len();
        self.subs.push(Subscriber { pos: self.published, active });
        id
    }

    /// Activates a placeholder subscriber from the current head onwards.
    pub fn activate(&mut self, sub: usize)
        requires
            old(self).wf(),
            sub < old(self).subs@.len(),
        ensures
            final(self).wf(),
            final(self).subs@ == old(self).subs@.update(
                sub as int,
                Subscriber { pos: old(self).published, active: true },
            ),
            final(self).subs@[sub as int].pos >= old(self).subs@[sub as int].pos,
            final(self).capacity == old(self).capacity,
            final(self).published == old(self).published,
            final(self).buffer@ == old(self).buffer@,
            final(self).history@ == old(self).history@,
    {
        self.subs.set(sub, Subscriber { pos: self.published, active: true });
    }

    /// Deactivates a subscriber, keeping its slot.
    pub fn deactivate(&mut self, sub: usize)
        requires
            old(self).wf(),
            sub < old(self).subs@.len(),
        ensures
            final(self).wf(),
            final(self).subs@ == old(self).subs@.update(
                sub as int,
                Subscriber { pos: old(self).subs@[sub as int].pos, active: false },
            ),
            final(self).capacity == old(self).capacity,
            final(self).published == old(self).published,
            final(self).buffer@ == old(self).buffer@,
            final(self).history@ == old(self).history@,
    {
        let s = self.subs[sub];
        self.subs.set(sub, Subscriber { pos: s.pos, active: false });
    }

    /// Publishes one event to every subscriber.  Publishing is total: it
    /// never blocks and never fails, whatever the subscribers do; when the
    /// buffer is full the oldest retained event makes room.
    pub fn publish(&mut self, event: T)
        requires
            old(self).wf(),
            old(self).published < u64::MAX,
        ensures
            final(self).wf(),
            final(self).published == old(self).published + 1,
            final(self).history@ == old(self).history@.push(event),
            final(self).subs@ == old(self).subs@,
            final(self).capacity == old(self).capacity,
            final(self).buffer@.len() as int == if old(self).buffer@.len() < old(self).capacity {
                old(self).buffer@.len() + 1
            } else {
                old(self).capacity as nat
            },
    {
        if self.buffer.len() == self.capacity {
            let _ = self.buffer.remove(0);
            proof {
                old(self).buffer@.remove_ensures(0);
            }
        }
        self.buffer.push(event);
        self.published = self.published + 1;
        proof {
            self.history@ = self.history@.push(event);
            let obuf = old(self).buffer@;
            let oh = old(self).history@;
            let opub = old(self).published as int;
            assert forall|k: int| 0 <= k < self.buffer@.len() implies self.buffer@[k]
                == self.history@[self.published - self.buffer@.len() + k] by {
                let dropped = if obuf.len() == old(self).capacity {
                    1int
                } else {
                    0int
                };
                if k < self.buffer@.len() - 1 {
                    assert(self.buffer@[k] == obuf[k + dropped]);
                    assert(obuf[k + dropped] == oh[opub - obuf.len() + k + dropped]);
                } else {
                    assert(self.buffer@[k] == event);
                }
            }
            assert(self.buffer@ =~= self.history@.subrange(
                self.published - self.buffer@.len(),
                self.published as int,
            ));
        }
    }

    /// One receive step for subscriber `sub`.  The outcome is pinned by the
    /// subscriber's state: inactive placeholders get `Inactive`; a cursor
    /// at the head gets `Empty`; one behind the retained window gets
    /// `Lagged` with the number of skipped events and is advanced to the
    /// oldest retained event; otherwise the event at the cursor is
    /// delivered and the cursor advances by one.  Cursors never move
    /// backward, and no other subscriber is touched.
    pub fn receive<'a>(&'a mut self, sub: usize) -> (r: RecvOutcome<'a, T>)
        requires
            old(self).wf(),
            sub < old(self).subs@.len(),
        ensures
            final(self).wf(),
            final(self).capacity == old(self).capacity,
            final(self).published == old(self).published,
            final(self).buffer@ == old(self).buffer@,
            final(self).history@ == old(self).history@,
            final(self).subs@.len() == old(self).subs@.len(),
            forall|j: int|
                0 <= j < old(self).subs@.len() && j != sub ==> final(self).subs@[j] == old(
                    self,
                ).subs@[j],
            final(self).subs@[sub as int].active == old(self).subs@[sub as int].active,
            final(self).subs@[sub as int].pos >= old(self).subs@[sub as int].pos,
            match r {
                RecvOutcome::Inactive => {
                    &&& !old(self).subs@[sub as int].active
                    &&& final(self).subs@ == old(self).subs@
                },
                RecvOutcome::Empty => {
                    &&& old(self).subs@[sub as int].active
                    &&& old(self).subs@[sub as int].pos == old(self).published
                    &&& final(self).subs@ == old(self).subs@
                },
                RecvOutcome::Lagged(n) => {
                    &&& old(self).recv_would_lag(sub as int)
                    &&& n as int == old(self).oldest() - old(self).subs@[sub as int].pos
                    &&& final(self).subs@[sub as int].pos as int == old(self).oldest()
                },
                RecvOutcome::Event(e) => {
                    &&& old(self).recv_has_event(sub as int)
                    &&& *e == old(self).history@[old(self).subs@[sub as int].pos as int]
                    &&& final(self).subs@[sub as int].pos == old(self).subs@[sub as int].pos + 1
                },
            },
            !old(self).subs@[sub as int].active ==> r is Inactive,
            old(self).subs@[sub as int].active && old(self).subs@[sub as int].pos == old(
                self,
            ).published ==> r is Empty,
            old(self).recv_would_lag(sub as int) ==> r is Lagged,
            old(self).recv_has_event(sub as int) ==> r is Event,
    {
        let s = self.subs[sub];
        if !s.active {
            return RecvOutcome::Inactive;
        }
        if s.pos == self.published {
            return RecvOutcome::Empty;
        }
        let blen: u64 = self.buffer.len() as u64;
        let oldest: u64 = self.published - blen;
        if s.pos < oldest {
            let n = oldest - s.pos;
            self.subs.set(sub, Subscriber { pos: oldest, active: true });
            return RecvOutcome::Lagged(n);
        }
        let idx: usize = (s.pos - oldest) as usize;
        self.subs.set(sub, Subscriber { pos: s.pos + 1, active: true });
        RecvOutcome::Event(&self.buffer[idx])
    }
}

/// A subscriber that went without receiving for more than the bus capacity
/// while events kept arriving is behind the retained window, so its next
/// receive yields the lag indicator — it never blocks the publisher, whose
/// `publish` is total.
pub proof fn lemma_lag_when_behind<T>(b: EventBus<T>, i: int)
    requires
        b.wf(),
        0 <= i < b.subs@.len(),
        b.subs@[i].active,
        b.published - b.subs@[i].pos > b.capacity,
    ensures
        b.recv_would_lag(i),
{
}

/// A subscriber whose cursor is at or past position `n` can only ever be
/// delivered events published at positions `n` and later: a subscriber
/// registered after `n` events were published (its cursor starts at the
/// head, per `subscribe`) never sees those `n` events, since cursors never
/// move backward.
pub proof fn lemma_fresh_subscriber_skips_history<T>(b: EventBus<T>, i: int, n: int)
    requires
        b.wf(),
        0 <= i < b.subs@.len(),
        b.subs@[i].pos >= n,
    ensures
        b.recv_has_event(i) ==> n <= b.subs@[i].pos < b.history@.len(),
{
}

} // verus!
