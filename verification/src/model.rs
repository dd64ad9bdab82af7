use vstd::prelude::*;

use crate::error::WorkerPoolError;

verus! {

/// The most free permits the pool's semaphore may hold, tokio's limit. The
/// pool is made with at most this many; a job channel of twice the pool
/// size is held to the same limit by whoever makes the pool.
pub const MAX_PERMITS: usize = usize::MAX / 8;

/// What the dispatcher is told to do next.
#[derive(Debug, Clone, Copy, PartialEq, Eq, Structural)]
pub enum Dispatch {
    /// Run the job with this id; it holds one permit until it stops.
    Start(u64),
    /// Nothing to do until a job is sent, a job stops or the pool resizes.
    Idle,
    /// The pool is shut down and every job sent has stopped.
    Finished,
}

/// How a resize changes the semaphore's permits.
#[derive(Debug, Clone, Copy, PartialEq, Eq, Structural)]
pub enum PermitChange {
    /// This many permits were added.
    Added(usize),
    /// A withdrawal of this many permits began: it takes them one request at a time.
    Removed(usize),
    /// The size did not change.
    Unchanged,
}

/// A request queued on the pool's semaphore because no permit was free.
/// The semaphore is fair: released permits go to the oldest request first.
#[derive(Debug, Clone, Copy, PartialEq, Eq, Structural)]
pub enum Waiter {
    /// The dispatcher, for the job it holds.
    Dispatcher,
    /// A withdrawal that still needs this many permits; it requests one at a
    /// time and requests again, at the back, after each one it gets.
    Retirement(usize),
}

/// The abstract state of a worker pool.
///
/// Jobs get consecutive ids in the order in which they enter the job
/// channel: the channel holds the ids `received .. sent`.
pub struct PoolView {
    /// The number of jobs allowed to run at once.
    pub max_size: nat,
    /// The capacity of the job channel, fixed when the pool is made.
    pub capacity: nat,
    /// Whether shutdown has begun.
    pub shutdown: bool,
    /// Jobs that entered the channel so far.
    pub sent: nat,
    /// Jobs the dispatcher has taken out of the channel so far.
    pub received: nat,
    /// The dispatcher holds job `received - 1`, not yet started.
    pub holding: bool,
    /// The held job has been given its permit.
    pub granted: bool,
    /// Submissions accepted and not yet taken out of the channel.
    pub queued: nat,
    /// Jobs running, each holding a permit.
    pub active: nat,
    /// Jobs that ran to completion.
    pub completed: nat,
    /// Jobs that panicked; each released its permit when it stopped.
    pub failed: nat,
    /// Free permits.
    pub available: nat,
    /// Permits that withdrawals still have to take.
    pub retiring: nat,
    /// The requests waiting for a permit, oldest first.
    pub waiters: Seq<Waiter>,
}

/// The permits a request still needs to withdraw.
pub open spec fn need(w: Waiter) -> nat {
    match w {
        Waiter::Dispatcher => 0,
        Waiter::Retirement(r) => r as nat,
    }
}

/// The permits the withdrawals in `q` still need.
pub open spec fn retire_sum(q: Seq<Waiter>) -> nat
    decreases q.len(),
{
    if q.len() == 0 {
        0
    } else {
        need(q[0]) + retire_sum(q.drop_first())
    }
}

/// How many times the dispatcher waits in `q`.
pub open spec fn dispatcher_count(q: Seq<Waiter>) -> nat
    decreases q.len(),
{
    if q.len() == 0 {
        0
    } else {
        bit(q[0] is Dispatcher) + dispatcher_count(q.drop_first())
    }
}

/// Every withdrawal in `q` still needs a permit.
pub open spec fn needs_positive(q: Seq<Waiter>) -> bool {
    forall|i: int| 0 <= i < q.len() ==> (#[trigger] q[i] matches Waiter::Retirement(r) ==> r >= 1)
}

/// `q` holds withdrawals only.
pub open spec fn retirements_only(q: Seq<Waiter>) -> bool {
    forall|i: int| 0 <= i < q.len() ==> #[trigger] q[i] is Retirement
}

/// Jobs that have been given a permit and started so far.
pub open spec fn started(v: PoolView) -> nat {
    if v.holding {
        (v.received - 1) as nat
    } else {
        v.received
    }
}

/// Jobs in the channel.
pub open spec fn in_channel(v: PoolView) -> nat {
    (v.sent - v.received) as nat
}

/// Accepted submissions that wait for room in the channel.
pub open spec fn unsent(v: PoolView) -> int {
    v.queued - in_channel(v)
}

pub open spec fn bit(b: bool) -> nat {
    if b {
        1
    } else {
        0
    }
}

/// What holds of every reachable pool state.
pub open spec fn pool_inv(v: PoolView) -> bool {
    &&& v.max_size >= 1
    &&& v.capacity >= 1
    &&& v.received <= v.sent
    &&& in_channel(v) <= v.capacity
    &&& (v.holding ==> v.received >= 1)
    &&& v.queued >= in_channel(v)
    &&& v.completed + v.failed + v.active == started(v)
    &&& (v.granted ==> v.holding)
    &&& v.available + v.active + bit(v.granted) == v.max_size + v.retiring
    &&& v.retiring == retire_sum(v.waiters)
    &&& dispatcher_count(v.waiters) == bit(v.holding && !v.granted)
    &&& needs_positive(v.waiters)
    &&& (v.waiters.len() > 0 ==> v.available == 0)
}

/// A fresh pool of `max_size` permits.
pub open spec fn initial(max_size: nat) -> PoolView {
    PoolView {
        max_size,
        capacity: 2 * max_size,
        shutdown: false,
        sent: 0,
        received: 0,
        holding: false,
        granted: false,
        queued: 0,
        active: 0,
        completed: 0,
        failed: 0,
        available: max_size,
        retiring: 0,
        waiters: Seq::empty(),
    }
}

/// Shutdown marks the pool; nothing else changes.
pub open spec fn shut(v: PoolView) -> PoolView {
    PoolView { shutdown: true, ..v }
}

/// A submission: refused once shutdown has begun, else counted as queued.
pub open spec fn accept(v: PoolView) -> (PoolView, Result<(), WorkerPoolError>) {
    if v.shutdown {
        (v, Err(WorkerPoolError::ShutDown))
    } else {
        (PoolView { queued: v.queued + 1, ..v }, Ok(()))
    }
}

/// An accepted submission tries to enter the channel: it gets the next id
/// where the channel has room, and waits otherwise.
pub open spec fn send(v: PoolView) -> (PoolView, Option<nat>) {
    if in_channel(v) < v.capacity {
        (PoolView { sent: v.sent + 1, ..v }, Some(v.sent))
    } else {
        (v, None)
    }
}

/// When it holds no job, the dispatcher takes the oldest job out of the
/// channel and requests a permit for it: it takes a free one, or waits at
/// the back of the queue.
pub open spec fn receive(v: PoolView) -> PoolView {
    if !v.holding && v.received < v.sent {
        if v.available > 0 {
            PoolView {
                received: v.received + 1,
                queued: (v.queued - 1) as nat,
                holding: true,
                granted: true,
                available: (v.available - 1) as nat,
                ..v
            }
        } else {
            PoolView {
                received: v.received + 1,
                queued: (v.queued - 1) as nat,
                holding: true,
                waiters: v.waiters.push(Waiter::Dispatcher),
                ..v
            }
        }
    } else {
        v
    }
}

/// One dispatch step: receive, then start the held job once it has its permit.
pub open spec fn dispatch(v: PoolView) -> (PoolView, Dispatch) {
    let w = receive(v);
    if w.holding && w.granted {
        (
            PoolView { holding: false, granted: false, active: w.active + 1, ..w },
            Dispatch::Start((w.received - 1) as u64),
        )
    } else if !w.holding && w.received == w.sent && w.shutdown && w.active == 0 {
        (w, Dispatch::Finished)
    } else {
        (w, Dispatch::Idle)
    }
}

/// The outcome of handing permits to the queue, oldest request first.
pub struct Handout {
    /// The requests not reached.
    pub rest: Seq<Waiter>,
    /// The permits left after every request was served once.
    pub left: nat,
    /// Whether the dispatcher was served.
    pub dispatcher_served: bool,
    /// The withdrawals that were served and still need permits, in order.
    pub again: Seq<Waiter>,
    /// The permits the withdrawals took.
    pub withdrawn: nat,
}

/// Hands `k` permits to the requests of `q` in order, one to each, as the
/// semaphore does when permits are added.
pub open spec fn hand_out(q: Seq<Waiter>, k: nat, h: Handout) -> Handout
    decreases k,
{
    if k == 0 || q.len() == 0 {
        Handout { rest: q, left: k, ..h }
    } else {
        match q[0] {
            Waiter::Dispatcher => hand_out(
                q.drop_first(),
                (k - 1) as nat,
                Handout { dispatcher_served: true, ..h },
            ),
            Waiter::Retirement(r) => hand_out(
                q.drop_first(),
                (k - 1) as nat,
                Handout {
                    again: if r > 1 {
                        h.again.push(Waiter::Retirement((r - 1) as usize))
                    } else {
                        h.again
                    },
                    withdrawn: h.withdrawn + 1,
                    ..h
                },
            ),
        }
    }
}

pub open spec fn min_nat(a: nat, b: nat) -> nat {
    if a <= b {
        a
    } else {
        b
    }
}

/// The served withdrawals request again, in order: each takes free permits
/// while it needs them and there are any, and queues once there are none.
pub open spec fn request_again(again: Seq<Waiter>, avail: nat, q: Seq<Waiter>) -> (nat, Seq<Waiter>)
    decreases again.len(),
{
    if again.len() == 0 {
        (avail, q)
    } else {
        let r = need(again[0]);
        let t = min_nat(r, avail);
        request_again(
            again.drop_first(),
            (avail - t) as nat,
            if r > t {
                q.push(Waiter::Retirement((r - t) as usize))
            } else {
                q
            },
        )
    }
}

pub open spec fn empty_handout() -> Handout {
    Handout {
        rest: Seq::empty(),
        left: 0,
        dispatcher_served: false,
        again: Seq::empty(),
        withdrawn: 0,
    }
}

/// The semaphore gets `k` permits: they go to the waiting requests, oldest
/// first and one each; what is left becomes free, and the withdrawals just
/// served take of it what they still need.
pub open spec fn add_permits(v: PoolView, k: nat) -> PoolView {
    let h = hand_out(v.waiters, k, empty_handout());
    let (avail, q) = request_again(h.again, v.available + h.left, h.rest);
    PoolView {
        available: avail,
        waiters: q,
        granted: v.granted || h.dispatcher_served,
        retiring: retire_sum(q),
        ..v
    }
}

/// Whether the semaphore can take `k` more permits: what is left after the
/// waiting requests are served must not push the free permits past the
/// semaphore limit.
pub open spec fn permits_fit(v: PoolView, k: nat) -> bool {
    let left = if k > v.waiters.len() {
        (k - v.waiters.len()) as nat
    } else {
        0nat
    };
    left == 0 || v.available + left <= MAX_PERMITS
}

/// A running job stops and releases its permit.
pub open spec fn release(v: PoolView) -> PoolView {
    add_permits(PoolView { active: (v.active - 1) as nat, ..v }, 1)
}

/// A running job completes.
pub open spec fn finish(v: PoolView) -> PoolView {
    PoolView { completed: v.completed + 1, ..release(v) }
}

/// A running job panics.
pub open spec fn fail(v: PoolView) -> PoolView {
    PoolView { failed: v.failed + 1, ..release(v) }
}

/// A withdrawal of `k` permits begins: it takes free permits one by one and
/// queues, at the back, for the ones it still needs.
pub open spec fn withdraw(v: PoolView, k: nat) -> PoolView {
    let t = min_nat(k, v.available);
    let q = if k > t {
        v.waiters.push(Waiter::Retirement((k - t) as usize))
    } else {
        v.waiters
    };
    PoolView { available: (v.available - t) as nat, waiters: q, retiring: retire_sum(q), ..v }
}

/// A resize to `n` permits: growing adds the difference to the semaphore,
/// shrinking begins the withdrawal of the difference.
pub open spec fn resize(v: PoolView, n: nat) -> (PoolView, PermitChange) {
    if n > v.max_size {
        let k = (n - v.max_size) as nat;
        (PoolView { max_size: n, ..add_permits(v, k) }, PermitChange::Added(k as usize))
    } else if n < v.max_size {
        let k = (v.max_size - n) as nat;
        (PoolView { max_size: n, ..withdraw(v, k) }, PermitChange::Removed(k as usize))
    } else {
        (v, PermitChange::Unchanged)
    }
}

} // verus!
