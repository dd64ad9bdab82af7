use vstd::prelude::*;

use crate::error::WorkerPoolError;
use crate::lemmas::{lemma_add_permits, lemma_push, lemma_push_retirement};
use crate::model::{
    accept, bit, dispatch, dispatcher_count, fail, finish, in_channel, initial,
    min_nat, permits_fit, pool_inv, release, resize, retire_sum, send, shut, started, unsent,
    withdraw, Dispatch, PermitChange, PoolView, Waiter, MAX_PERMITS,
};

verus! {

/// A fresh pool of at least one permit is in a valid state.
pub proof fn initial_is_valid(max_size: nat)
    requires
        max_size >= 1,
    ensures
        pool_inv(initial(max_size)),
{
    assert(retire_sum(Seq::<Waiter>::empty()) == 0);
    assert(dispatcher_count(Seq::<Waiter>::empty()) == 0);
}

/// Beginning shutdown keeps the pool valid.
pub proof fn shut_keeps_valid(v: PoolView)
    requires
        pool_inv(v),
    ensures
        pool_inv(shut(v)),
{
}

/// Accepting a submission keeps the pool valid.
pub proof fn accept_keeps_valid(v: PoolView)
    requires
        pool_inv(v),
    ensures
        pool_inv(accept(v).0),
{
}

/// Sending an accepted submission keeps the pool valid.
pub proof fn send_keeps_valid(v: PoolView)
    requires
        pool_inv(v),
        unsent(v) > 0,
    ensures
        pool_inv(send(v).0),
{
}

/// A dispatch step keeps the pool valid.
pub proof fn dispatch_keeps_valid(v: PoolView)
    requires
        pool_inv(v),
    ensures
        pool_inv(dispatch(v).0),
{
    if !v.holding && v.received < v.sent && v.available == 0 {
        lemma_push(v.waiters, Waiter::Dispatcher);
        let p = v.waiters.push(Waiter::Dispatcher);
        assert forall|i: int| 0 <= i < p.len() implies (#[trigger] p[i] matches Waiter::Retirement(
            x,
        ) ==> x >= 1) by {
            if i < v.waiters.len() {
                assert(p[i] == v.waiters[i]);
            }
        }
    }
}

/// A running job that stops releases its permit and keeps the pool valid,
/// whether it completed or panicked.
pub proof fn release_keeps_valid(v: PoolView)
    requires
        pool_inv(v),
        v.active > 0,
    ensures
        pool_inv(finish(v)),
        pool_inv(fail(v)),
        release(v).retiring <= v.retiring,
        permits_fit(v, 1) && v.available <= MAX_PERMITS ==> release(v).available <= MAX_PERMITS,
{
    lemma_add_permits(PoolView { active: (v.active - 1) as nat, ..v }, 1);
}

/// A resize to a positive size keeps the pool valid, and a growth that fits
/// the semaphore keeps the free permits within its limit.
pub proof fn resize_keeps_valid(v: PoolView, n: nat)
    requires
        pool_inv(v),
        n >= 1,
        v.max_size <= usize::MAX,
    ensures
        pool_inv(resize(v, n).0),
        n <= v.max_size ==> resize(v, n).0.max_size + resize(v, n).0.retiring <= v.max_size
            + v.retiring,
        n > v.max_size ==> resize(v, n).0.retiring <= v.retiring,
        n > v.max_size && permits_fit(v, (n - v.max_size) as nat) && v.available <= MAX_PERMITS
            ==> resize(v, n).0.available <= MAX_PERMITS,
        n <= v.max_size ==> resize(v, n).0.available <= v.available,
{
    if n > v.max_size {
        lemma_add_permits(v, (n - v.max_size) as nat);
    } else if n < v.max_size {
        let k = (v.max_size - n) as nat;
        let t = min_nat(k, v.available);
        if k > t {
            lemma_push_retirement(v.waiters, (k - t) as usize);
        }
    }
}

/// Bounded concurrency: the running jobs never outnumber the permits, that
/// is the pool size plus what withdrawals still have to take; with no
/// withdrawal pending they never outnumber the pool size.
pub proof fn active_jobs_are_bounded(v: PoolView)
    requires
        pool_inv(v),
    ensures
        v.active <= v.max_size + v.retiring,
        v.retiring == 0 ==> v.active <= v.max_size,
{
}

/// Backpressure: the channel never holds more jobs than its capacity, and a
/// send waits exactly when the channel is full.
pub proof fn channel_is_bounded(v: PoolView)
    requires
        pool_inv(v),
    ensures
        in_channel(v) <= v.capacity,
        send(v).1 is None <==> in_channel(v) == v.capacity,
{
}

/// First in, first out: the k-th job sent gets id k, and the next job to
/// start is always the one with the lowest id not started yet.
pub proof fn jobs_start_in_send_order(v: PoolView)
    requires
        pool_inv(v),
        v.sent <= u64::MAX,
    ensures
        send(v).1 matches Some(id) ==> id == v.sent,
        dispatch(v).1 matches Dispatch::Start(id) ==> id as nat == started(v) && started(
            dispatch(v).0,
        ) == started(v) + 1,
        !(dispatch(v).1 is Start) ==> started(dispatch(v).0) == started(v),
{
}

/// A free permit and a waiting job are never left idle: the dispatch step
/// then starts a job.
pub proof fn free_permit_starts_waiting_job(v: PoolView)
    requires
        pool_inv(v),
        v.available > 0,
        v.holding || v.received < v.sent,
    ensures
        dispatch(v).1 is Start,
{
}

/// The semaphore is fair: a released permit goes to the oldest waiting
/// request. When that is the dispatcher, its job gets the permit; when it is
/// a withdrawal, the permit is withdrawn and nothing else changes.
pub proof fn release_serves_oldest_request(v: PoolView)
    requires
        pool_inv(v),
        v.active > 0,
        v.waiters.len() > 0,
    ensures
        v.waiters[0] is Dispatcher ==> release(v).granted,
        v.waiters[0] is Retirement ==> release(v).granted == v.granted && release(v).available
            == v.available && release(v).retiring + 1 == v.retiring,
{
    lemma_add_permits(PoolView { active: (v.active - 1) as nat, ..v }, 1);
}

/// A withdrawal queues behind every request already waiting: a dispatcher
/// that waits before a shrink is served before it.
pub proof fn withdrawal_queues_behind_waiters(v: PoolView, n: nat)
    requires
        pool_inv(v),
        1 <= n < v.max_size,
    ensures
        resize(v, n).0.waiters.len() >= v.waiters.len(),
        resize(v, n).0.waiters.take(v.waiters.len() as int) == v.waiters,
{
    let k = (v.max_size - n) as nat;
    let t = min_nat(k, v.available);
    assert(withdraw(v, k).waiters.take(v.waiters.len() as int) =~= v.waiters);
}

/// Graceful shutdown: the dispatcher finishes only after shutdown, once
/// every job that entered the channel has run and stopped, and it finishes
/// as soon as that is so.
pub proof fn finish_only_when_drained(v: PoolView)
    requires
        pool_inv(v),
    ensures
        dispatch(v).1 is Finished ==> v.shutdown && v.completed + v.failed == v.sent && v.active
            == 0 && in_channel(v) == 0,
        v.shutdown && v.completed + v.failed == v.sent ==> dispatch(v).1 is Finished,
{
}

/// A pool that has begun shutdown refuses every submission and stays as it
/// is; no later step takes shutdown back.
pub proof fn shutdown_refuses_and_persists(v: PoolView, n: nat)
    requires
        v.shutdown,
    ensures
        accept(v) == (v, Err::<(), WorkerPoolError>(WorkerPoolError::ShutDown)),
        shut(v).shutdown,
        send(v).0.shutdown,
        dispatch(v).0.shutdown,
        finish(v).shutdown,
        fail(v).shutdown,
        resize(v, n).0.shutdown,
{
}

/// Only beginning shutdown sets the shutdown flag: every other step keeps
/// it as it was.
pub proof fn only_shut_sets_shutdown(v: PoolView, n: nat)
    ensures
        shut(v).shutdown,
        accept(v).0.shutdown == v.shutdown,
        send(v).0.shutdown == v.shutdown,
        dispatch(v).0.shutdown == v.shutdown,
        finish(v).shutdown == v.shutdown,
        fail(v).shutdown == v.shutdown,
        resize(v, n).0.shutdown == v.shutdown,
{
}

/// The job counts only ever grow: no step lowers the completed, failed,
/// sent or received jobs; a completion adds one completed job, a panic one
/// failed job.
pub proof fn job_counts_never_decrease(v: PoolView, n: nat)
    ensures
        shut(v).completed == v.completed,
        accept(v).0.completed == v.completed,
        send(v).0.completed == v.completed,
        dispatch(v).0.completed == v.completed,
        finish(v).completed == v.completed + 1,
        fail(v).completed == v.completed,
        resize(v, n).0.completed == v.completed,
        fail(v).failed == v.failed + 1,
        shut(v).failed == v.failed && accept(v).0.failed == v.failed && send(v).0.failed
            == v.failed && dispatch(v).0.failed == v.failed && finish(v).failed == v.failed
            && resize(v, n).0.failed == v.failed,
        send(v).0.sent >= v.sent && dispatch(v).0.sent == v.sent && dispatch(v).0.received
            >= v.received,
        accept(v).0.sent == v.sent && accept(v).0.received == v.received,
        finish(v).sent == v.sent && finish(v).received == v.received,
        fail(v).sent == v.sent && fail(v).received == v.received,
        resize(v, n).0.sent == v.sent && resize(v, n).0.received == v.received,
{
}

/// A pool before shutdown accepts every submission.
pub proof fn open_pool_accepts(v: PoolView)
    requires
        !v.shutdown,
    ensures
        accept(v).1 is Ok,
        accept(v).0.queued == v.queued + 1,
{
}

/// With no request waiting for a permit, a resize undone by a resize back to
/// the old size restores the pool exactly, whichever way it went.
pub proof fn resize_round_trip(v: PoolView, n: nat)
    requires
        pool_inv(v),
        n >= 1,
        v.max_size <= usize::MAX,
        v.waiters.len() == 0,
    ensures
        resize(resize(v, n).0, v.max_size).0 == v,
{
    assert(retire_sum(Seq::<Waiter>::empty()) == 0);
    if n > v.max_size {
        let k = (n - v.max_size) as nat;
        lemma_add_permits(v, k);
        let w = resize(v, n).0;
        assert(w.waiters.len() == 0);
        assert(w.available == v.available + k);
        assert(w.waiters =~= v.waiters);
    } else if n < v.max_size {
        let k = (v.max_size - n) as nat;
        let t = min_nat(k, v.available);
        let w = resize(v, n).0;
        if k > t {
            lemma_push_retirement(v.waiters, (k - t) as usize);
            assert(w.waiters.len() == 1);
            assert(w.waiters[0] == Waiter::Retirement((k - t) as usize));
            lemma_add_permits(w, k);
            assert(w.waiters.drop_first() =~= Seq::<Waiter>::empty());
            let z = resize(w, v.max_size).0;
            assert(z.waiters.len() == 0) by {
                assert(z.available + bit(z.granted) + w.retiring == w.available + bit(w.granted)
                    + z.retiring + k);
            }
            assert(z.waiters =~= v.waiters);
        } else {
            assert(w.waiters =~= v.waiters);
            lemma_add_permits(w, k);
        }
    }
}

/// A resize sets the size, leaves the channel capacity and the job counts
/// alone, and reports the difference of the sizes.
pub proof fn resize_reports_difference(v: PoolView, n: nat)
    requires
        pool_inv(v),
        n >= 1,
        n <= usize::MAX,
        v.max_size <= usize::MAX,
    ensures
        resize(v, n).0.max_size == n,
        resize(v, n).0.capacity == v.capacity,
        resize(v, n).0.active == v.active,
        resize(v, n).0.completed == v.completed,
        resize(v, n).0.queued == v.queued,
        n > v.max_size ==> resize(v, n).1 == PermitChange::Added((n - v.max_size) as usize),
        n < v.max_size ==> resize(v, n).1 == PermitChange::Removed((v.max_size - n) as usize),
        n == v.max_size ==> resize(v, n).1 == PermitChange::Unchanged,
{
}

/// Once no job runs, the dispatcher holds no job and no request waits,
/// every permit of the pool is free.
pub proof fn quiet_pool_has_all_permits(v: PoolView)
    requires
        pool_inv(v),
        v.active == 0,
        !v.holding,
        v.waiters.len() == 0,
    ensures
        v.available == v.max_size,
{
    assert(retire_sum(v.waiters) == 0);
}


/// The jobs of two states are the same: what was sent, received, queued,
/// running, completed and failed, and what the dispatcher holds.
pub open spec fn same_jobs(a: PoolView, b: PoolView) -> bool {
    &&& a.sent == b.sent
    &&& a.received == b.received
    &&& a.queued == b.queued
    &&& a.active == b.active
    &&& a.completed == b.completed
    &&& a.failed == b.failed
    &&& a.holding == b.holding
}

/// The permits of two states are the same: size, free permits, debts, the
/// held job's permit and the waiting requests.
pub open spec fn same_permits(a: PoolView, b: PoolView) -> bool {
    &&& a.max_size == b.max_size
    &&& a.capacity == b.capacity
    &&& a.available == b.available
    &&& a.retiring == b.retiring
    &&& a.granted == b.granted
    &&& a.waiters == b.waiters
}

/// A new pool of `n` permits: a channel of twice that many jobs, all `n`
/// permits free, no job anywhere, no request waiting, not shut down.
pub proof fn new_pool_is_empty(n: nat)
    ensures
        initial(n).max_size == n,
        initial(n).capacity == 2 * n,
        initial(n).available == n,
        initial(n).retiring == 0,
        initial(n).waiters.len() == 0,
        !initial(n).shutdown,
        !initial(n).holding,
        !initial(n).granted,
        initial(n).sent == 0 && initial(n).received == 0 && initial(n).queued == 0,
        initial(n).active == 0 && initial(n).completed == 0 && initial(n).failed == 0,
{
}

/// Beginning shutdown only raises the flag: every job already accepted, in
/// the channel, held or running stays where it is, and so do the permits.
pub proof fn shutdown_keeps_every_job(v: PoolView)
    ensures
        shut(v).shutdown,
        same_jobs(shut(v), v),
        same_permits(shut(v), v),
        in_channel(shut(v)) == in_channel(v),
{
}

/// Admission: a pool that is shut down refuses and changes nothing; an open
/// pool accepts and counts exactly one more queued submission.
pub proof fn accept_counts_one_submission(v: PoolView)
    ensures
        v.shutdown ==> accept(v).1 == Err::<(), WorkerPoolError>(WorkerPoolError::ShutDown)
            && accept(v).0 == v,
        !v.shutdown ==> accept(v).1 == Ok::<(), WorkerPoolError>(()) && accept(v).0.queued
            == v.queued + 1 && accept(v).0.sent == v.sent && accept(v).0.received == v.received
            && accept(v).0.active == v.active && accept(v).0.completed == v.completed
            && accept(v).0.failed == v.failed && accept(v).0.holding == v.holding
            && !accept(v).0.shutdown && same_permits(accept(v).0, v),
{
}

/// A send puts exactly one job into the channel, with the next id, when the
/// channel has room; when it is full, nothing changes and the submitter
/// waits. Each successful send uses up exactly one waiting submission.
pub proof fn send_moves_one_job(v: PoolView)
    requires
        pool_inv(v),
    ensures
        send(v).1 is Some <==> in_channel(v) < v.capacity,
        send(v).1 is Some ==> send(v).1 == Some(v.sent) && send(v).0.sent == v.sent + 1
            && send(v).0.received == v.received && in_channel(send(v).0) == in_channel(v) + 1
            && unsent(send(v).0) == unsent(v) - 1 && send(v).0.queued == v.queued
            && send(v).0.active == v.active && send(v).0.completed == v.completed
            && send(v).0.failed == v.failed && send(v).0.holding == v.holding
            && send(v).0.shutdown == v.shutdown && same_permits(send(v).0, v),
        send(v).1 is None ==> send(v).0 == v,
{
}

/// What a dispatch step does, case by case:
/// - a held job that has its permit starts at once;
/// - otherwise, with no job held, the oldest job in the channel is taken:
///   it starts at once when a permit is free, and waits at the back of the
///   semaphore's queue when none is;
/// - a held job without its permit keeps waiting;
/// - with no job held and none in the channel, the dispatcher finishes
///   exactly when shutdown has begun and no job runs.
pub proof fn dispatch_steps(v: PoolView)
    requires
        pool_inv(v),
        v.sent <= u64::MAX,
    ensures
        v.holding && v.granted ==> dispatch(v).1 == Dispatch::Start((v.received - 1) as u64)
            && !dispatch(v).0.holding && !dispatch(v).0.granted && dispatch(v).0.active
            == v.active + 1 && dispatch(v).0.received == v.received && dispatch(v).0.sent
            == v.sent && dispatch(v).0.queued == v.queued && dispatch(v).0.available
            == v.available && dispatch(v).0.waiters == v.waiters,
        !v.holding && v.received < v.sent && v.available > 0 ==> dispatch(v).1 == Dispatch::Start(
            v.received as u64,
        ) && dispatch(v).0.received == v.received + 1 && dispatch(v).0.queued == v.queued - 1
            && dispatch(v).0.active == v.active + 1 && dispatch(v).0.available == v.available - 1
            && !dispatch(v).0.holding && dispatch(v).0.waiters == v.waiters,
        !v.holding && v.received < v.sent && v.available == 0 ==> dispatch(v).1 == Dispatch::Idle
            && dispatch(v).0.received == v.received + 1 && dispatch(v).0.queued == v.queued - 1
            && dispatch(v).0.holding && !dispatch(v).0.granted && dispatch(v).0.active
            == v.active && dispatch(v).0.waiters == v.waiters.push(Waiter::Dispatcher),
        v.holding && !v.granted ==> dispatch(v).1 == Dispatch::Idle && dispatch(v).0 == v,
        !v.holding && v.received == v.sent ==> dispatch(v).0 == v && (dispatch(v).1
            == Dispatch::Finished <==> v.shutdown && v.active == 0) && (dispatch(v).1
            != Dispatch::Finished ==> dispatch(v).1 == Dispatch::Idle),
        dispatch(v).0.shutdown == v.shutdown && dispatch(v).0.max_size == v.max_size
            && dispatch(v).0.completed == v.completed && dispatch(v).0.failed == v.failed,
{
}

/// A job that stops hands its permit on at once: when the dispatcher was
/// the oldest waiting request, the next dispatch step starts its held job,
/// whether or not shutdown has begun.
pub proof fn released_permit_starts_held_job(v: PoolView)
    requires
        pool_inv(v),
        v.sent <= u64::MAX,
        v.active > 0,
        v.waiters.len() > 0,
        v.waiters[0] is Dispatcher,
    ensures
        dispatch(finish(v)).1 == Dispatch::Start((v.received - 1) as u64),
        dispatch(fail(v)).1 == Dispatch::Start((v.received - 1) as u64),
        dispatch(finish(v)).0.active == v.active,
{
    release_serves_oldest_request(v);
    release_keeps_valid(v);
}

/// A job that stops: one job fewer runs, one more completed (or failed),
/// nothing else about the jobs changes; with no request waiting its permit
/// becomes free, and in any case free permits plus the held job's permit,
/// minus debts, grow by exactly one.
pub proof fn stopping_job_releases_one_permit(v: PoolView)
    requires
        pool_inv(v),
        v.active > 0,
    ensures
        finish(v).active == v.active - 1 && finish(v).completed == v.completed + 1
            && finish(v).failed == v.failed,
        fail(v).active == v.active - 1 && fail(v).failed == v.failed + 1 && fail(v).completed
            == v.completed,
        finish(v).sent == v.sent && finish(v).received == v.received && finish(v).queued
            == v.queued && finish(v).holding == v.holding && finish(v).shutdown == v.shutdown
            && finish(v).max_size == v.max_size && finish(v).capacity == v.capacity,
        finish(v).available + bit(finish(v).granted) + v.retiring == v.available + bit(v.granted)
            + finish(v).retiring + 1,
        v.waiters.len() == 0 ==> finish(v).available == v.available + 1 && finish(v).retiring
            == v.retiring && finish(v).granted == v.granted && finish(v).waiters.len() == 0,
        same_permits(fail(v), finish(v)),
{
    lemma_add_permits(PoolView { active: (v.active - 1) as nat, ..v }, 1);
}

/// What a resize does to the permits: growing by `k` raises free permits
/// plus the held job's permit, minus debts, by exactly `k` (with no request
/// waiting, all `k` become free); shrinking by `k` takes free permits at
/// once and owes the rest.
pub proof fn resize_moves_permits(v: PoolView, n: nat)
    requires
        pool_inv(v),
        n >= 1,
        v.max_size <= usize::MAX,
    ensures
        same_jobs(resize(v, n).0, v),
        resize(v, n).0.max_size == n,
        resize(v, n).0.capacity == v.capacity,
        resize(v, n).0.shutdown == v.shutdown,
        n > v.max_size ==> resize(v, n).0.available + bit(resize(v, n).0.granted) + v.retiring
            == v.available + bit(v.granted) + resize(v, n).0.retiring + (n - v.max_size),
        n > v.max_size && v.waiters.len() == 0 ==> resize(v, n).0.available == v.available + (n
            - v.max_size) && resize(v, n).0.waiters.len() == 0,
        n < v.max_size && v.max_size - n <= v.available ==> resize(v, n).0.available
            == v.available - (v.max_size - n) && resize(v, n).0.retiring == v.retiring
            && resize(v, n).0.waiters == v.waiters,
        n < v.max_size && v.max_size - n > v.available ==> resize(v, n).0.available == 0
            && resize(v, n).0.retiring == v.retiring + (v.max_size - n) - v.available
            && resize(v, n).0.waiters == v.waiters.push(
            Waiter::Retirement((v.max_size - n - v.available) as usize),
        ),
        n == v.max_size ==> resize(v, n).0 == v,
{
    if n > v.max_size {
        lemma_add_permits(v, (n - v.max_size) as nat);
    } else if n < v.max_size {
        let k = (v.max_size - n) as nat;
        if k > v.available {
            lemma_push_retirement(v.waiters, (k - v.available) as usize);
        }
    }
}

/// Growth is refused only for the semaphore limit: `k` more permits fit
/// exactly when they all go to waiting requests, or what is left over still
/// keeps the free permits within `MAX_PERMITS`.
pub proof fn growth_fits_unless_past_limit(v: PoolView, k: nat)
    ensures
        permits_fit(v, k) <==> (k <= v.waiters.len() || v.available + (k - v.waiters.len())
            <= MAX_PERMITS),
        v.available + k <= MAX_PERMITS ==> permits_fit(v, k),
{
}


/// The semaphore is fair when it grows too: `k` new permits go one each to
/// the `k` oldest waiting requests. The dispatcher gets one exactly when it
/// is among them, and the requests not reached stay first in the queue, in
/// their order.
pub proof fn growth_serves_oldest_first(v: PoolView, n: nat)
    requires
        pool_inv(v),
        n > v.max_size,
    ensures
        resize(v, n).0.granted == (v.granted || dispatcher_count(
            v.waiters.take(min_nat((n - v.max_size) as nat, v.waiters.len()) as int),
        ) > 0),
        n - v.max_size <= v.waiters.len() ==> resize(v, n).0.waiters.len() >= v.waiters.len() - (
        n - v.max_size) && resize(v, n).0.waiters.take(v.waiters.len() - (n - v.max_size))
            == v.waiters.skip(n - v.max_size),
{
    lemma_add_permits(v, (n - v.max_size) as nat);
}

} // verus!
