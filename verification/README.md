# bounded_async_worker_pool

A worker pool that runs at most `max_size` jobs at once, keeps waiting jobs in
a bounded first-in first-out channel of twice the initial pool size, can be
resized while it runs, and drains every accepted job when it shuts down.

- `src/` is the verified library. `model.rs` gives the abstract pool state
  (`PoolView`), its invariant and one spec function per step, with the
  pool's permits kept as a fair semaphore does: free permits, and a queue of
  waiting requests served oldest first; `lemmas.rs` proves what handing out
  permits does to that queue; `state.rs`
  holds `WorkerPoolState`, whose methods are proved to perform exactly those
  steps; `laws.rs` proves what holds across steps (bounded concurrency, FIFO
  start order, backpressure, graceful shutdown, resize round trips).
- `app/` runs the pool on tokio: it keeps the job futures, spawns them, and
  wakes waiting submitters and the dispatcher; each decision it takes from
  `WorkerPoolState`.
- `tests/` drives the state machine through the scenarios of the pool.

Why the semaphore and the channel are part of the model: the pool's
decisions (admission, room in the channel, which job starts, who gets a
released permit, what a resize withdraws) are the logic worth proving, and
they all turn on the semaphore's and the channel's counts. Those counts
change in tokio's primitives from tasks the verifier cannot follow, and
their waiting calls are awaits, so behind trusted wrappers nothing could be
proved of them: not that running jobs stay within the pool size, nor that
jobs start in order. The model therefore keeps the counts itself, with the
same rules as tokio's fair semaphore (requests served oldest first, one
permit each, what is left becomes free, free permits capped at
`MAX_PERMITS`) and a channel of fixed capacity; `app/` uses tokio for
tasks, for joining them, and for waking whoever waits.
