//! In-process publish/subscribe of queue events.
//!
//! A bounded ring: publishing never blocks and never waits for consumers.
//! Each subscriber walks the published history at its own pace; one that
//! falls behind the ring's capacity observes an explicit lag signal carrying
//! the number of messages it lost — the oldest ones — rather than slowing
//! anybody down.

use vstd::prelude::*;

use crate::model::{GameId, JobId};

verus! {

/// A queue event: a job was handed out, given back, or finished. Carries the
/// job and the game it concerns.
#[derive(Debug)]
pub enum FishnetMsg {
    JobAcquired(JobId, GameId),
    JobAborted(JobId, GameId),
    JobCompleted(JobId, GameId),
}

impl Clone for FishnetMsg {
    fn clone(&self) -> (res: Self)
        ensures
            res == *self,
    {
        match self {
            FishnetMsg::JobAcquired(j, g) => FishnetMsg::JobAcquired(*j, g.clone()),
            FishnetMsg::JobAborted(j, g) => FishnetMsg::JobAborted(*j, g.clone()),
            FishnetMsg::JobCompleted(j, g) => FishnetMsg::JobCompleted(*j, g.clone()),
        }
    }
}

/// What one receive attempt yields.
#[derive(Debug)]
pub enum RecvResult {
    /// The next message after the subscriber's position.
    Msg(FishnetMsg),
    /// The subscriber lagged: this many messages were dropped for it, the
    /// oldest first; its position moves to the oldest retained message.
    Lagged(u64),
    /// Nothing new yet.
    Empty,
    /// Nothing new will ever come: the channel was closed.
    Closed,
}

/// The broadcast channel: the whole published history in ghost form, of
/// which the newest `capacity` messages are retained for delivery.
pub struct Bus {
    buf: Vec<FishnetMsg>,
    head: u64,
    capacity: usize,
    closed: bool,
    hist: Ghost<Seq<FishnetMsg>>,
}

/// A subscriber's cursor into the published history.
#[derive(Debug)]
pub struct Subscriber {
    next: u64,
}

impl Subscriber {
    /// The position in the history this subscriber will read next.
    pub closed spec fn pos(self) -> int {
        self.next as int
    }
}

impl Bus {
    /// Every message ever published, oldest first.
    pub closed spec fn history(self) -> Seq<FishnetMsg> {
        self.hist@
    }

    /// How many of the newest messages are retained for slow subscribers.
    pub closed spec fn cap(self) -> int {
        self.capacity as int
    }

    /// The position of the oldest message still retained.
    pub closed spec fn first_retained(self) -> int {
        self.history().len() - self.buf@.len()
    }

    /// Whether the channel was closed: no further publications come.
    pub closed spec fn is_closed(self) -> bool {
        self.closed
    }

    /// The ring's internal consistency: the buffer holds exactly the newest
    /// retained suffix of the history, never more than the capacity.
    pub closed spec fn wf(self) -> bool {
        &&& self.capacity > 0
        &&& self.buf@.len() <= self.capacity
        &&& self.buf@.len() <= self.history().len()
        &&& self.buf@ == self.history().skip(self.first_retained())
        &&& self.head == self.history().len()
        &&& self.history().len() < u64::MAX
    }

    /// A well-formed channel retains a suffix of its history: the oldest
    /// retained position lies within it.
    pub proof fn lemma_bounds(self)
        requires
            self.wf(),
        ensures
            0 <= self.first_retained() <= self.history().len(),
    {
    }

    /// A fresh channel with the given ring capacity.
    pub fn new(capacity: usize) -> (bus: Bus)
        requires
            capacity > 0,
        ensures
            bus.wf(),
            bus.history().len() == 0,
            bus.cap() == capacity,
            !bus.is_closed(),
    {
        let bus = Bus { buf: Vec::new(), head: 0, capacity, closed: false, hist: Ghost(Seq::empty()) };
        proof {
            assert(bus.buf@ =~= bus.history().skip(0));
        }
        bus
    }

    /// Publishes a message without blocking: it lands at the end of the
    /// history; if the ring is full the oldest retained message is dropped,
    /// so slow subscribers lose the oldest messages first.
    pub fn publish(&mut self, m: FishnetMsg)
        requires
            old(self).wf(),
            !old(self).is_closed(),
            old(self).history().len() + 1 < u64::MAX,
        ensures
            final(self).wf(),
            final(self).history() == old(self).history().push(m),
            final(self).cap() == old(self).cap(),
            !final(self).is_closed(),
            final(self).first_retained() >= old(self).first_retained(),
    {
        let ghost pre = *self;
        if self.buf.len() == self.capacity {
            self.buf.remove(0);
        }
        self.buf.push(m);
        self.head = self.head + 1;
        proof {
            self.hist@ = self.hist@.push(m);
            let h = self.history();
            let s = h.len() - self.buf@.len();
            assert forall|t: int| 0 <= t < self.buf@.len() implies self.buf@[t] == h.skip(s)[t] by {
                if t < self.buf@.len() - 1 {
                    // a surviving element of the old ring
                    let drop_front = pre.buf@.len() == pre.capacity;
                    if drop_front {
                        assert(self.buf@[t] == pre.buf@[t + 1]);
                        assert(pre.buf@[t + 1] == pre.history().skip(pre.first_retained())[t + 1]);
                    } else {
                        assert(self.buf@[t] == pre.buf@[t]);
                        assert(pre.buf@[t] == pre.history().skip(pre.first_retained())[t]);
                    }
                } else {
                    assert(self.buf@[t] == m);
                }
            }
            assert(self.buf@ =~= h.skip(s));
        }
    }

    /// Closes the channel: subscribers that drain it then see `Closed`.
    pub fn close(&mut self)
        requires
            old(self).wf(),
        ensures
            final(self).wf(),
            final(self).history() == old(self).history(),
            final(self).cap() == old(self).cap(),
            final(self).first_retained() == old(self).first_retained(),
            final(self).is_closed(),
    {
        self.closed = true;
    }

    /// Whether the channel was closed, for the process around the library.
    pub fn closed(&self) -> (r: bool)
        ensures
            r == self.is_closed(),
    {
        self.closed
    }

    /// How many messages were ever published.
    pub fn published(&self) -> (r: u64)
        requires
            self.wf(),
        ensures
            r == self.history().len(),
    {
        self.head
    }

    /// Attaches a subscriber; it will see exactly the messages published
    /// from this point on, in publish order, or lag signals where it falls
    /// more than the ring's capacity behind.
    pub fn subscribe(&self) -> (sub: Subscriber)
        requires
            self.wf(),
        ensures
            sub.pos() == self.history().len(),
    {
        Subscriber { next: self.head }
    }

    /// One receive attempt for `sub`: the next unseen message, a lag signal,
    /// or the channel's current end.
    pub fn recv(&self, sub: &mut Subscriber) -> (r: RecvResult)
        requires
            self.wf(),
            old(sub).pos() <= self.history().len(),
        ensures
            final(sub).pos() <= self.history().len(),
            match r {
                RecvResult::Lagged(n) => {
                    &&& old(sub).pos() < self.first_retained()
                    &&& n == self.first_retained() - old(sub).pos()
                    &&& final(sub).pos() == self.first_retained()
                },
                RecvResult::Msg(m) => {
                    &&& self.first_retained() <= old(sub).pos() < self.history().len()
                    &&& m == self.history()[old(sub).pos()]
                    &&& final(sub).pos() == old(sub).pos() + 1
                },
                RecvResult::Empty => {
                    &&& old(sub).pos() == self.history().len()
                    &&& !self.is_closed()
                    &&& final(sub).pos() == old(sub).pos()
                },
                RecvResult::Closed => {
                    &&& old(sub).pos() == self.history().len()
                    &&& self.is_closed()
                    &&& final(sub).pos() == old(sub).pos()
                },
            },
    {
        let head = self.head;
        let start = head - self.buf.len() as u64;
        if sub.next < start {
            let dropped = start - sub.next;
            sub.next = start;
            RecvResult::Lagged(dropped)
        } else if sub.next < head {
            let idx = (sub.next - start) as usize;
            let m = self.buf[idx].clone();
            proof {
                assert(self.buf@[idx as int] == self.history()[sub.next as int]);
            }
            sub.next = sub.next + 1;
            RecvResult::Msg(m)
        } else {
            if self.closed {
                RecvResult::Closed
            } else {
                RecvResult::Empty
            }
        }
    }
}

} // verus!
