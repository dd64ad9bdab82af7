use vstd::prelude::*;

use crate::error::{PoolMetrics, WorkerPoolError};
use crate::laws::{
    accept_keeps_valid, dispatch_keeps_valid, initial_is_valid, release_keeps_valid,
    resize_keeps_valid, send_keeps_valid, shut_keeps_valid,
};
use crate::lemmas::{lemma_add_permits, lemma_hand_out, lemma_request_again};
use crate::model::{
    accept, add_permits, bit, dispatch, dispatcher_count, empty_handout, fail, finish, hand_out,
    initial, needs_positive, permits_fit, pool_inv, release, request_again, resize,
    retire_sum, send, shut, unsent, Dispatch, Handout, PermitChange, PoolView,
    Waiter, MAX_PERMITS,
};
use std::collections::VecDeque;

verus! {

/// The shared state of a worker pool: its counters, its shutdown flag, its
/// permits, and the positions of the job channel.
///
/// Every decision of the pool goes through it: whether a submission is
/// accepted, whether it has room in the channel, which job starts next and
/// when, what a finished job releases, and what a resize does to the permits.
#[derive(Debug)]
pub struct WorkerPoolState {
    max_size: usize,
    capacity: usize,
    shutdown: bool,
    sent: u64,
    received: u64,
    holding: bool,
    granted: bool,
    queued: usize,
    active: usize,
    completed: usize,
    failed: usize,
    available: usize,
    retiring: usize,
    waiters: VecDeque<Waiter>,
}

impl View for WorkerPoolState {
    type V = PoolView;

    closed spec fn view(&self) -> PoolView {
        PoolView {
            max_size: self.max_size as nat,
            capacity: self.capacity as nat,
            shutdown: self.shutdown,
            sent: self.sent as nat,
            received: self.received as nat,
            holding: self.holding,
            granted: self.granted,
            queued: self.queued as nat,
            active: self.active as nat,
            completed: self.completed as nat,
            failed: self.failed as nat,
            available: self.available as nat,
            retiring: self.retiring as nat,
            waiters: self.waiters@,
        }
    }
}

impl WorkerPoolState {
    /// The state is valid, its permits fit in a machine word, its free
    /// permits within the semaphore limit, and its job ids in a `u64`.
    pub open spec fn wf(&self) -> bool {
        &&& pool_inv(self@)
        &&& self@.max_size + self@.retiring <= usize::MAX
        &&& self@.available <= MAX_PERMITS
        &&& self@.sent <= u64::MAX
    }

    /// The state of a pool of `max_concurrent_jobs` permits whose job
    /// channel holds twice as many jobs. A size of zero is no pool, and the
    /// semaphore holds at most `MAX_PERMITS` permits.
    pub fn new(max_concurrent_jobs: usize) -> (state: Self)
        requires
            max_concurrent_jobs > 0,
            max_concurrent_jobs <= MAX_PERMITS,
        ensures
            state.wf(),
            state@ == initial(max_concurrent_jobs as nat),
    {
        proof {
            initial_is_valid(max_concurrent_jobs as nat);
        }
        WorkerPoolState {
            max_size: max_concurrent_jobs,
            capacity: max_concurrent_jobs * 2,
            shutdown: false,
            sent: 0,
            received: 0,
            holding: false,
            granted: false,
            queued: 0,
            active: 0,
            completed: 0,
            failed: 0,
            available: max_concurrent_jobs,
            retiring: 0,
            waiters: VecDeque::new(),
        }
    }

    /// Whether shutdown has begun.
    pub fn is_shutdown(&self) -> (down: bool)
        ensures
            down == self@.shutdown,
    {
        self.shutdown
    }

    /// Begins shutdown: the pool accepts no more submissions.
    pub fn initiate_shutdown(&mut self)
        requires
            old(self).wf(),
        ensures
            final(self).wf(),
            final(self)@ == shut(old(self)@),
    {
        proof {
            shut_keeps_valid(self@);
        }
        self.shutdown = true;
    }

    /// The admission check of a submission: refused with `ShutDown` once
    /// shutdown has begun, otherwise counted as queued.
    pub fn accept_submission(&mut self) -> (res: Result<(), WorkerPoolError>)
        requires
            old(self).wf(),
            !old(self)@.shutdown ==> old(self)@.queued < usize::MAX,
        ensures
            final(self).wf(),
            (final(self)@, res) == accept(old(self)@),
    {
        proof {
            accept_keeps_valid(self@);
        }
        if self.shutdown {
            return Err(WorkerPoolError::ShutDown);
        }
        self.queued = self.queued + 1;
        Ok(())
    }

    /// An accepted submission tries to enter the job channel: it gets the
    /// next job id where the channel has room, and `None` where the channel
    /// is full and the submitter has to wait.
    pub fn try_send(&mut self) -> (id: Option<u64>)
        requires
            old(self).wf(),
            unsent(old(self)@) > 0,
            old(self)@.sent < u64::MAX,
        ensures
            final(self).wf(),
            final(self)@ == send(old(self)@).0,
            id is None <==> send(old(self)@).1 is None,
            id matches Some(n) ==> send(old(self)@).1 == Some(n as nat),
    {
        proof {
            send_keeps_valid(self@);
        }
        if self.sent - self.received < self.capacity as u64 {
            let id = self.sent;
            self.sent = self.sent + 1;
            Some(id)
        } else {
            None
        }
    }

    /// One step of the dispatcher: when it holds no job, take the oldest job
    /// out of the channel and request a permit for it (a free one, or a
    /// place at the back of the semaphore's queue); then start the held job
    /// once it has its permit. Reports `Finished` once shutdown has begun
    /// and every sent job has stopped.
    pub fn dispatch(&mut self) -> (next: Dispatch)
        requires
            old(self).wf(),
        ensures
            final(self).wf(),
            (final(self)@, next) == dispatch(old(self)@),
    {
        proof {
            dispatch_keeps_valid(self@);
        }
        if !self.holding && self.received < self.sent {
            self.received = self.received + 1;
            self.queued = self.queued - 1;
            self.holding = true;
            if self.available > 0 {
                self.available = self.available - 1;
                self.granted = true;
            } else {
                self.waiters.push_back(Waiter::Dispatcher);
            }
        }
        if self.holding && self.granted {
            self.holding = false;
            self.granted = false;
            self.active = self.active + 1;
            Dispatch::Start(self.received - 1)
        } else if !self.holding && self.received == self.sent && self.shutdown && self.active
            == 0 {
            Dispatch::Finished
        } else {
            Dispatch::Idle
        }
    }

    /// Adds `k` permits to the semaphore: they go to the waiting requests,
    /// oldest first and one each; the rest become free, and the withdrawals
    /// just served take of them what they still need.
    fn add_permits(&mut self, k: usize)
        requires
            old(self)@.retiring == retire_sum(old(self)@.waiters),
            dispatcher_count(old(self)@.waiters) == bit(old(self)@.holding && !old(self)@.granted),
            needs_positive(old(self)@.waiters),
            old(self)@.waiters.len() > 0 ==> old(self)@.available == 0,
            old(self)@.available <= MAX_PERMITS,
            permits_fit(old(self)@, k as nat),
        ensures
            final(self)@ == add_permits(old(self)@, k as nat),
    {
        let ghost u = self@;
        proof {
            lemma_add_permits(u, k as nat);
            lemma_hand_out(u.waiters, k as nat, empty_handout());
        }
        let (left, served, again, withdrawn) = hand_out_exec(&mut self.waiters, k);
        let ghost h = hand_out(u.waiters, k as nat, empty_handout());
        proof {
            lemma_request_again(h.again, u.available + h.left, h.rest);
        }
        let avail_in = self.available + left;
        let a = request_again_exec(&again, avail_in, &mut self.waiters);
        self.available = a;
        self.retiring = self.retiring - withdrawn - (avail_in - a);
        if served {
            self.granted = true;
        }
        proof {
            assert(self@ =~= add_permits(u, k as nat));
        }
    }

    /// A running job stops and releases its permit.
    fn release_permit(&mut self)
        requires
            old(self).wf(),
            old(self)@.active > 0,
            permits_fit(old(self)@, 1),
        ensures
            final(self)@ == release(old(self)@),
    {
        self.active = self.active - 1;
        self.add_permits(1);
    }

    /// A running job has completed and released its permit.
    pub fn job_finished(&mut self)
        requires
            old(self).wf(),
            old(self)@.active > 0,
            old(self)@.completed < usize::MAX,
            permits_fit(old(self)@, 1),
        ensures
            final(self).wf(),
            final(self)@ == finish(old(self)@),
    {
        proof {
            release_keeps_valid(self@);
        }
        self.release_permit();
        self.completed = self.completed + 1;
    }

    /// A running job has panicked; its permit was released as it unwound.
    pub fn job_failed(&mut self)
        requires
            old(self).wf(),
            old(self)@.active > 0,
            old(self)@.failed < usize::MAX,
            permits_fit(old(self)@, 1),
        ensures
            final(self).wf(),
            final(self)@ == fail(old(self)@),
    {
        proof {
            release_keeps_valid(self@);
        }
        self.release_permit();
        self.failed = self.failed + 1;
    }

    /// Whether the semaphore can take `k` more permits without its free
    /// permits passing `MAX_PERMITS`.
    pub fn can_add_permits(&self, k: usize) -> (ok: bool)
        requires
            self.wf(),
        ensures
            ok == permits_fit(self@, k as nat),
    {
        let waiting = self.waiters.len();
        if k <= waiting {
            true
        } else {
            k - waiting <= MAX_PERMITS - self.available
        }
    }

    /// Changes the pool size to `new_size` and reports the change of
    /// permits: growing adds the difference to the semaphore, shrinking
    /// begins the withdrawal of the difference. The channel keeps its
    /// capacity. A growth must fit the semaphore, and the pool's permits,
    /// counted with those still to be withdrawn, must fit a machine word.
    pub fn resize(&mut self, new_size: usize) -> (change: PermitChange)
        requires
            old(self).wf(),
            new_size > 0,
            new_size > old(self)@.max_size ==> permits_fit(
                old(self)@,
                (new_size - old(self)@.max_size) as nat,
            ) && new_size + old(self)@.retiring <= usize::MAX,
        ensures
            final(self).wf(),
            (final(self)@, change) == resize(old(self)@, new_size as nat),
    {
        proof {
            resize_keeps_valid(self@, new_size as nat);
        }
        let current_size = self.max_size;
        if new_size > current_size {
            let to_add = new_size - current_size;
            self.add_permits(to_add);
            self.max_size = new_size;
            PermitChange::Added(to_add)
        } else if new_size < current_size {
            let to_remove = current_size - new_size;
            let taken = if to_remove <= self.available {
                to_remove
            } else {
                self.available
            };
            self.available = self.available - taken;
            if to_remove > taken {
                self.waiters.push_back(Waiter::Retirement(to_remove - taken));
                self.retiring = self.retiring + (to_remove - taken);
                proof {
                    crate::lemmas::lemma_push_retirement(
                        old(self)@.waiters,
                        (to_remove - taken) as usize,
                    );
                }
            }
            self.max_size = new_size;
            PermitChange::Removed(to_remove)
        } else {
            PermitChange::Unchanged
        }
    }

    /// Jobs that panicked.
    pub fn failed_jobs(&self) -> (n: usize)
        ensures
            n == self@.failed,
    {
        self.failed
    }

    /// Requests waiting on the semaphore for a permit.
    pub fn waiting_requests(&self) -> (n: usize)
        ensures
            n == self@.waiters.len(),
    {
        self.waiters.len()
    }

    /// Whether the dispatcher holds a job that waits for its permit.
    pub fn dispatcher_waiting(&self) -> (w: bool)
        ensures
            w == (self@.holding && !self@.granted),
    {
        self.holding && !self.granted
    }

    /// The counters of running, queued and completed jobs.
    pub fn metrics(&self) -> (m: PoolMetrics)
        ensures
            m.active == self@.active,
            m.queued == self@.queued,
            m.completed == self@.completed,
    {
        PoolMetrics { active: self.active, queued: self.queued, completed: self.completed }
    }

    /// The current pool size.
    pub fn max_size(&self) -> (n: usize)
        ensures
            n == self@.max_size,
    {
        self.max_size
    }

    /// The capacity of the job channel.
    pub fn channel_capacity(&self) -> (n: usize)
        ensures
            n == self@.capacity,
    {
        self.capacity
    }

    /// Free permits.
    pub fn available_permits(&self) -> (n: usize)
        ensures
            n == self@.available,
    {
        self.available
    }

    /// Permits that a shrink has still to withdraw.
    pub fn retiring_permits(&self) -> (n: usize)
        ensures
            n == self@.retiring,
    {
        self.retiring
    }

    /// Jobs that entered the channel so far; the next one gets this id.
    pub fn sent_jobs(&self) -> (n: u64)
        ensures
            n == self@.sent,
    {
        self.sent
    }

    /// Accepted submissions still waiting for room in the channel.
    pub fn unsent_submissions(&self) -> (n: usize)
        requires
            self.wf(),
        ensures
            n == unsent(self@),
    {
        self.queued - (self.sent - self.received) as usize
    }
}


/// Hands `k` permits to the requests of `queue`, oldest first and one each;
/// returns the permits left, whether the dispatcher was served, the served
/// withdrawals that still need permits, and the permits withdrawn.
fn hand_out_exec(queue: &mut VecDeque<Waiter>, k: usize) -> (res: (usize, bool, Vec<Waiter>, usize))
    ensures
        ({
            let h = hand_out(old(queue)@, k as nat, empty_handout());
            &&& final(queue)@ == h.rest
            &&& res.0 == h.left
            &&& res.1 == h.dispatcher_served
            &&& res.2@ == h.again
            &&& res.3 == h.withdrawn
        }),
{
    let ghost q0 = queue@;
    let mut rem = k;
    let mut served = false;
    let mut again: Vec<Waiter> = Vec::new();
    let mut withdrawn: usize = 0;
    while rem > 0 && queue.len() > 0
        invariant
            rem <= k,
            withdrawn + rem <= k,
            hand_out(
                queue@,
                rem as nat,
                Handout {
                    rest: Seq::empty(),
                    left: 0,
                    dispatcher_served: served,
                    again: again@,
                    withdrawn: withdrawn as nat,
                },
            ) == hand_out(q0, k as nat, empty_handout()),
        decreases rem,
    {
        let ghost before = queue@;
        let w = queue.pop_front().unwrap();
        proof {
            assert(queue@ =~= before.drop_first());
        }
        match w {
            Waiter::Dispatcher => {
                served = true;
            },
            Waiter::Retirement(r) => {
                if r > 1 {
                    again.push(Waiter::Retirement(r - 1));
                }
                withdrawn = withdrawn + 1;
            },
        }
        rem = rem - 1;
    }
    (rem, served, again, withdrawn)
}

/// The served withdrawals request again, in order: each takes free permits
/// while it needs them and there are any, and queues once there are none.
/// Returns the permits left free.
fn request_again_exec(again: &Vec<Waiter>, avail: usize, queue: &mut VecDeque<Waiter>) -> (a: usize)
    ensures
        (a as nat, final(queue)@) == request_again(again@, avail as nat, old(queue)@),
{
    let ghost q0 = queue@;
    let mut free = avail;
    let mut i: usize = 0;
    proof {
        assert(again@.skip(0) =~= again@);
    }
    while i < again.len()
        invariant
            i <= again.len(),
            request_again(again@.skip(i as int), free as nat, queue@) == request_again(
                again@,
                avail as nat,
                q0,
            ),
        decreases again.len() - i,
    {
        let ghost s = again@.skip(i as int);
        proof {
            assert(s.drop_first() =~= again@.skip(i + 1));
            assert(s[0] == again@[i as int]);
        }
        match again[i] {
            Waiter::Dispatcher => {},
            Waiter::Retirement(r) => {
                let t = if r <= free {
                    r
                } else {
                    free
                };
                free = free - t;
                if r > t {
                    queue.push_back(Waiter::Retirement(r - t));
                }
            },
        }
        i = i + 1;
    }
    proof {
        assert(again@.skip(i as int).len() == 0);
    }
    free
}

} // verus!
