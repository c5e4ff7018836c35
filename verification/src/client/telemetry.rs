//! The telemetry queue: a bounded queue of append requests that drops its
//! oldest entry to make room for a new one, and the counters a worker thread
//! keeps while it drains it.
//!
//! The queue never blocks and performs no I/O; the thread that drains it and
//! the connection it writes to live with the program.
use std::collections::VecDeque;
use vstd::prelude::*;
use crate::client::turn::AppendRequest;

verus! {

/// Default maximum number of queued requests.
pub const DEFAULT_QUEUE_CAPACITY: usize = 512;

/// Counters of a telemetry queue.
#[derive(Clone, Copy, Debug, PartialEq, Eq, Structural)]
pub struct TelemetryStats {
    /// Requests written to the server.
    pub sent: u64,
    /// Requests dropped because the queue was full.
    pub dropped_overflow: u64,
    /// Requests dropped because writing them failed.
    pub dropped_error: u64,
    /// Requests waiting in the queue.
    pub queue_len: usize,
}

impl Default for TelemetryStats {
    fn default() -> (r: TelemetryStats)
        ensures
            r.sent == 0,
            r.dropped_overflow == 0,
            r.dropped_error == 0,
            r.queue_len == 0,
    {
        TelemetryStats { sent: 0, dropped_overflow: 0, dropped_error: 0, queue_len: 0 }
    }
}

/// What the worker does next.
#[derive(Debug)]
pub enum WorkerStep {
    /// Nothing is queued and the queue is open: wait for a request.
    Wait,
    /// The queue was shut down and is empty: the worker ends.
    Stop,
    /// Write this request.
    Send(AppendRequest),
}

/// A bounded queue of telemetry requests with its counters.
pub struct TelemetrySender {
    queue: VecDeque<AppendRequest>,
    capacity: usize,
    stats: TelemetryStats,
    is_shut_down: bool,
}

/// The queue after `req` is offered to `q` with room for `capacity`
/// requests: when full, the oldest request leaves first.
pub open spec fn queue_after_send(q: Seq<AppendRequest>, capacity: nat, req: AppendRequest) -> Seq<AppendRequest> {
    if q.len() >= capacity {
        if q.len() > 0 {
            q.drop_first().push(req)
        } else {
            seq![req]
        }
    } else {
        q.push(req)
    }
}

impl TelemetrySender {
    /// The requests waiting, oldest first.
    pub closed spec fn queued(&self) -> Seq<AppendRequest> {
        self.queue@
    }

    pub closed spec fn capacity_spec(&self) -> nat {
        self.capacity as nat
    }

    pub closed spec fn stats_spec(&self) -> TelemetryStats {
        self.stats
    }

    pub closed spec fn shut_down_spec(&self) -> bool {
        self.is_shut_down
    }

    /// The counters agree with the queue.
    pub open spec fn well_formed(&self) -> bool {
        self.stats_spec().queue_len == self.queued().len()
    }

    /// An open, empty queue with room for `capacity` requests.
    pub fn with_capacity(capacity: usize) -> (s: TelemetrySender)
        ensures
            s.well_formed(),
            s.queued() == Seq::<AppendRequest>::empty(),
            s.capacity_spec() == capacity,
            s.stats_spec() == (TelemetryStats { sent: 0, dropped_overflow: 0, dropped_error: 0, queue_len: 0 }),
            !s.shut_down_spec(),
    {
        TelemetrySender {
            queue: VecDeque::with_capacity(capacity),
            capacity,
            stats: TelemetryStats { sent: 0, dropped_overflow: 0, dropped_error: 0, queue_len: 0 },
            is_shut_down: false,
        }
    }

    /// Queues a request.  Once the queue is shut down nothing is queued and
    /// `false` is returned.  Otherwise, when the queue is full its oldest
    /// request is dropped and counted, and `false` is returned; else `true`.
    pub fn send(&mut self, req: AppendRequest) -> (queued: bool)
        requires
            old(self).well_formed(),
            old(self).stats_spec().dropped_overflow < u64::MAX,
        ensures
            final(self).well_formed(),
            final(self).capacity_spec() == old(self).capacity_spec(),
            final(self).shut_down_spec() == old(self).shut_down_spec(),
            final(self).stats_spec().sent == old(self).stats_spec().sent,
            final(self).stats_spec().dropped_error == old(self).stats_spec().dropped_error,
            old(self).shut_down_spec() ==> !queued && final(self).queued() == old(self).queued()
                && final(self).stats_spec() == old(self).stats_spec(),
            !old(self).shut_down_spec() ==> {
                &&& queued == (old(self).queued().len() < old(self).capacity_spec())
                &&& final(self).queued() == queue_after_send(old(self).queued(), old(self).capacity_spec(), req)
                &&& final(self).stats_spec().dropped_overflow == old(self).stats_spec().dropped_overflow
                    + if queued { 0int } else { 1int }
            },
    {
        if self.is_shut_down {
            return false;
        }
        let overflowed = if self.queue.len() >= self.capacity {
            let _ = self.queue.pop_front();
            self.stats.dropped_overflow = self.stats.dropped_overflow + 1;
            true
        } else {
            false
        };
        proof {
            if overflowed && old(self).queue@.len() == 0 {
                assert(self.queue@ =~= Seq::<AppendRequest>::empty());
            }
        }
        self.queue.push_back(req);
        self.stats.queue_len = self.queue.len();
        proof {
            if overflowed && old(self).queue@.len() == 0 {
                assert(self.queue@ =~= seq![req]);
            }
        }
        !overflowed
    }

    /// The counters as they stand.
    pub fn stats(&self) -> (r: TelemetryStats)
        ensures
            r == self.stats_spec(),
            self.well_formed() ==> r.queue_len == self.queued().len(),
    {
        self.stats
    }

    /// Closes the queue: no request is queued after this.  Requests already
    /// queued stay for the worker.
    pub fn shutdown(&mut self)
        ensures
            final(self).shut_down_spec(),
            final(self).queued() == old(self).queued(),
            final(self).stats_spec() == old(self).stats_spec(),
            final(self).capacity_spec() == old(self).capacity_spec(),
            old(self).well_formed() ==> final(self).well_formed(),
    {
        self.is_shut_down = true;
    }

    /// Whether the queue was shut down.
    pub fn is_shut_down(&self) -> (r: bool)
        ensures
            r == self.shut_down_spec(),
    {
        self.is_shut_down
    }

    /// The context ids of the waiting requests, oldest first.
    pub fn queued_context_ids(&self) -> (ids: Vec<u64>)
        ensures
            ids@.len() == self.queued().len(),
            forall|i: int| 0 <= i < ids@.len() ==> ids@[i] == self.queued()[i].context_id,
    {
        let mut ids: Vec<u64> = Vec::new();
        let n = self.queue.len();
        let mut i: usize = 0;
        while i < n
            invariant
                n == self.queue@.len(),
                i <= n,
                ids@.len() == i,
                forall|j: int| 0 <= j < i ==> ids@[j] == self.queue@[j].context_id,
            decreases n - i,
        {
            ids.push(self.queue[i].context_id);
            i = i + 1;
        }
        ids
    }

    /// The worker's next step: the oldest request, taken from the queue;
    /// else stop once shut down, or wait.
    pub fn next_step(&mut self) -> (step: WorkerStep)
        requires
            old(self).well_formed(),
        ensures
            final(self).well_formed(),
            final(self).capacity_spec() == old(self).capacity_spec(),
            final(self).shut_down_spec() == old(self).shut_down_spec(),
            final(self).stats_spec().sent == old(self).stats_spec().sent,
            final(self).stats_spec().dropped_overflow == old(self).stats_spec().dropped_overflow,
            final(self).stats_spec().dropped_error == old(self).stats_spec().dropped_error,
            old(self).queued().len() > 0 ==> step == WorkerStep::Send(old(self).queued()[0])
                && final(self).queued() == old(self).queued().drop_first(),
            old(self).queued().len() == 0 ==> final(self).queued() == old(self).queued()
                && step == (if old(self).shut_down_spec() { WorkerStep::Stop } else { WorkerStep::Wait }),
    {
        match self.queue.pop_front() {
            Some(req) => {
                self.stats.queue_len = self.queue.len();
                WorkerStep::Send(req)
            },
            None => {
                if self.is_shut_down {
                    WorkerStep::Stop
                } else {
                    WorkerStep::Wait
                }
            },
        }
    }

    /// Counts a request written to the server.
    pub fn record_sent(&mut self)
        requires
            old(self).stats_spec().sent < u64::MAX,
        ensures
            final(self).stats_spec() == (TelemetryStats { sent: (old(self).stats_spec().sent + 1) as u64, ..old(self).stats_spec() }),
            final(self).queued() == old(self).queued(),
            final(self).capacity_spec() == old(self).capacity_spec(),
            final(self).shut_down_spec() == old(self).shut_down_spec(),
            old(self).well_formed() ==> final(self).well_formed(),
    {
        self.stats.sent = self.stats.sent + 1;
    }

    /// Counts a request dropped because it could not be written.
    pub fn record_error(&mut self)
        requires
            old(self).stats_spec().dropped_error < u64::MAX,
        ensures
            final(self).stats_spec() == (TelemetryStats { dropped_error: (old(self).stats_spec().dropped_error + 1) as u64, ..old(self).stats_spec() }),
            final(self).queued() == old(self).queued(),
            final(self).capacity_spec() == old(self).capacity_spec(),
            final(self).shut_down_spec() == old(self).shut_down_spec(),
            old(self).well_formed() ==> final(self).well_formed(),
    {
        self.stats.dropped_error = self.stats.dropped_error + 1;
    }
}

/// A full queue keeps its length when a request arrives: the newest request
/// is last and the one that was oldest is gone.
pub proof fn law_full_queue_keeps_newest(q: Seq<AppendRequest>, capacity: nat, req: AppendRequest)
    requires
        q.len() == capacity,
        capacity > 0,
    ensures
        queue_after_send(q, capacity, req).len() == capacity,
        queue_after_send(q, capacity, req).last() == req,
        queue_after_send(q, capacity, req) == q.subrange(1, q.len() as int).push(req),
{
}

/// Below capacity, no request is dropped: every queued request stays, in
/// order, and the new one comes last.
pub proof fn law_queue_below_capacity_keeps_all(q: Seq<AppendRequest>, capacity: nat, req: AppendRequest)
    requires
        q.len() < capacity,
    ensures
        queue_after_send(q, capacity, req) == q.push(req),
        queue_after_send(q, capacity, req).len() <= capacity,
{
}


/// A send keeps the queue within its capacity: a full queue drops its
/// oldest request, and the new request is always the newest.
pub proof fn law_send_keeps_capacity(q: Seq<AppendRequest>, capacity: nat, req: AppendRequest)
    requires
        capacity >= 1,
        q.len() <= capacity,
    ensures
        queue_after_send(q, capacity, req).len() <= capacity,
        queue_after_send(q, capacity, req).last() == req,
        queue_after_send(q, capacity, req) == (if q.len() >= capacity {
            q.drop_first()
        } else {
            q
        }).push(req),
{
}

} // verus!
