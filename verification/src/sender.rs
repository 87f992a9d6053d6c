//! Send policies. The fire-and-forget sender drains a bounded per-destination
//! queue that drops its oldest frame when full. The reliable sender retries
//! one send with exponential backoff until the first reply arrives or the
//! caller cancels; the decision at every turn is taken here.

use vstd::prelude::*;
use crate::{CHANNEL_CAPACITY, BACKOFF_INITIAL_MS, BACKOFF_CAP_MS};

verus! {

/// The byte strings held by a list of frames.
pub open spec fn frames_of(v: Seq<Vec<u8>>) -> Seq<Seq<u8>> {
    v.map_values(|f: Vec<u8>| f@)
}

/// What one enqueue leaves in a bounded drop-oldest queue.
pub open spec fn enqueue_model(items: Seq<Seq<u8>>, capacity: int, frame: Seq<u8>) -> Seq<Seq<u8>> {
    if items.len() < capacity {
        items.push(frame)
    } else {
        items.skip(1).push(frame)
    }
}

/// A per-destination outbound queue: bounded, oldest-out when full.
pub struct SendQueue {
    pub items: Vec<Vec<u8>>,
    pub capacity: usize,
}

impl SendQueue {
    /// The queue never outgrows its capacity, which is at least one.
    pub open spec fn wf(&self) -> bool {
        self.items@.len() <= self.capacity && self.capacity >= 1
    }

    /// An empty queue with the default capacity.
    pub fn new() -> (q: SendQueue)
        ensures
            q.wf(),
            q.capacity == CHANNEL_CAPACITY,
            frames_of(q.items@) == Seq::<Seq<u8>>::empty(),
    {
        let q = SendQueue { items: Vec::new(), capacity: CHANNEL_CAPACITY };
        proof {
            assert(frames_of(q.items@) =~= Seq::<Seq<u8>>::empty());
        }
        q
    }

    /// An empty queue with the given capacity.
    pub fn with_capacity(capacity: usize) -> (q: SendQueue)
        requires
            capacity >= 1,
        ensures
            q.wf(),
            q.capacity == capacity,
            frames_of(q.items@) == Seq::<Seq<u8>>::empty(),
    {
        let q = SendQueue { items: Vec::new(), capacity };
        proof {
            assert(frames_of(q.items@) =~= Seq::<Seq<u8>>::empty());
        }
        q
    }

    /// How many frames wait.
    pub fn len(&self) -> (r: usize)
        ensures
            r == self.items@.len(),
    {
        self.items.len()
    }

    /// Accepts a frame; when the queue is full the oldest pending frame is
    /// dropped first (fire-and-forget backpressure).
    pub fn enqueue(&mut self, frame: Vec<u8>)
        requires
            old(self).wf(),
        ensures
            final(self).wf(),
            final(self).capacity == old(self).capacity,
            frames_of(final(self).items@) == enqueue_model(
                frames_of(old(self).items@),
                old(self).capacity as int,
                frame@,
            ),
    {
        if self.items.len() >= self.capacity {
            let _dropped = self.items.remove(0);
            proof {
                assert(frames_of(self.items@) =~= frames_of(old(self).items@).skip(1));
            }
        }
        let ghost mid = frames_of(self.items@);
        self.items.push(frame);
        proof {
            assert(frames_of(self.items@) =~= mid.push(frame@));
        }
    }

    /// Takes the oldest frame, if any.
    pub fn dequeue(&mut self) -> (r: Option<Vec<u8>>)
        requires
            old(self).wf(),
        ensures
            final(self).wf(),
            final(self).capacity == old(self).capacity,
            match r {
                Some(f) => old(self).items@.len() > 0 && f@ == frames_of(old(self).items@)[0]
                    && frames_of(final(self).items@) == frames_of(old(self).items@).skip(1),
                None => old(self).items@.len() == 0 && *final(self) == *old(self),
            },
    {
        if self.items.len() == 0 {
            None
        } else {
            let f = self.items.remove(0);
            proof {
                assert(frames_of(self.items@) =~= frames_of(old(self).items@).skip(1));
                assert(frames_of(old(self).items@)[0] == old(self).items@[0]@);
            }
            Some(f)
        }
    }
}

/// The retry delay before attempt `n`: it starts at the initial delay,
/// doubles each retry, and never exceeds the cap.
pub open spec fn spec_backoff(attempt: nat) -> int
    decreases attempt,
{
    if attempt == 0 {
        BACKOFF_INITIAL_MS as int
    } else if 2 * spec_backoff((attempt - 1) as nat) > BACKOFF_CAP_MS as int {
        BACKOFF_CAP_MS as int
    } else {
        2 * spec_backoff((attempt - 1) as nat)
    }
}

/// Every retry delay lies between the initial delay and the cap.
pub proof fn lemma_backoff_bounds(attempt: nat)
    ensures
        BACKOFF_INITIAL_MS as int <= spec_backoff(attempt) <= BACKOFF_CAP_MS as int,
    decreases attempt,
{
    if attempt > 0 {
        lemma_backoff_bounds((attempt - 1) as nat);
    }
}

/// The delay before retry `attempt`, in milliseconds.
pub fn backoff_delay_ms(attempt: u64) -> (r: u64)
    ensures
        r as int == spec_backoff(attempt as nat),
        BACKOFF_INITIAL_MS <= r <= BACKOFF_CAP_MS,
{
    proof {
        lemma_backoff_bounds(attempt as nat);
    }
    let mut d: u64 = BACKOFF_INITIAL_MS;
    let mut i: u64 = 0;
    while i < attempt
        invariant
            i <= attempt,
            d as int == spec_backoff(i as nat),
            BACKOFF_INITIAL_MS <= d <= BACKOFF_CAP_MS,
        decreases attempt - i,
    {
        proof {
            lemma_backoff_bounds((i + 1) as nat);
        }
        if d > BACKOFF_CAP_MS / 2 {
            d = BACKOFF_CAP_MS;
        } else {
            d = 2 * d;
        }
        i = i + 1;
    }
    d
}

/// One reliable send in flight: how often it was retried, whether a reply
/// arrived, and whether the caller cancelled.
pub struct RetrySession {
    pub attempt: u64,
    pub resolved: Option<Vec<u8>>,
    pub cancelled: bool,
}

/// What the connection task observed for the send.
#[derive(Clone, Debug, PartialEq, Eq)]
pub enum RetryEvent {
    /// The peer's reply bytes arrived.
    Reply(Vec<u8>),
    /// A connect, write, read or decode failure before any reply.
    Failure,
    /// The cancel handle was dropped.
    Cancelled,
}

/// What the connection task must do next.
#[derive(Clone, Debug, PartialEq, Eq)]
pub enum RetryDecision {
    /// Hand these bytes to the awaiting caller; the send is done.
    Resolve(Vec<u8>),
    /// Reconnect and resend after this many milliseconds.
    RetryAfter(u64),
    /// Stop: the send was cancelled or already resolved.
    Stop,
}

impl RetrySession {
    /// A send that has not been tried yet.
    pub fn new() -> (s: RetrySession)
        ensures
            s.attempt == 0,
            s.resolved is None,
            !s.cancelled,
    {
        RetrySession { attempt: 0, resolved: None, cancelled: false }
    }

    /// Decides the next move. A pending send is never abandoned: every
    /// failure is answered with a retry and a capped exponential delay; the
    /// first reply resolves the send with exactly the received bytes; only
    /// cancellation or an earlier resolution stops it.
    pub fn step(&mut self, event: RetryEvent) -> (r: RetryDecision)
        ensures
            old(self).cancelled || old(self).resolved is Some ==> r == RetryDecision::Stop
                && *final(self) == *old(self),
            !old(self).cancelled && old(self).resolved is None ==> match event {
                RetryEvent::Reply(bytes) => (r matches RetryDecision::Resolve(v) && v@ == bytes@)
                    && (final(self).resolved matches Some(w) && w@ == bytes@)
                    && !final(self).cancelled,
                RetryEvent::Failure => r == RetryDecision::RetryAfter(
                    backoff_value(old(self).attempt),
                ) && final(self).resolved is None && !final(self).cancelled && final(self).attempt
                    == saturating_inc(old(self).attempt),
                RetryEvent::Cancelled => r == RetryDecision::Stop && final(self).cancelled,
            },
    {
        if self.cancelled || self.resolved.is_some() {
            return RetryDecision::Stop;
        }
        match event {
            RetryEvent::Reply(bytes) => {
                let copy = crate::bytestr::clone_bytes(&bytes);
                self.resolved = Some(copy);
                RetryDecision::Resolve(bytes)
            },
            RetryEvent::Failure => {
                let delay = backoff_delay_ms(self.attempt);
                if self.attempt < u64::MAX {
                    self.attempt = self.attempt + 1;
                }
                RetryDecision::RetryAfter(delay)
            },
            RetryEvent::Cancelled => {
                self.cancelled = true;
                RetryDecision::Stop
            },
        }
    }
}

/// The delay the session uses at a given attempt, as a machine integer.
pub open spec fn backoff_value(attempt: u64) -> u64 {
    spec_backoff(attempt as nat) as u64
}

/// One more try, stopping at the largest counter value.
pub open spec fn saturating_inc(n: u64) -> u64 {
    if n < u64::MAX {
        (n + 1) as u64
    } else {
        n
    }
}

} // verus!
