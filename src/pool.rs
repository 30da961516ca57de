use vstd::prelude::*;
use std::collections::VecDeque;
use crate::error::{PoolCreationError, zero_size_message};

verus! {

/// What travels on the dispatch queue: a job to run, or a signal that tells
/// the one worker that receives it to stop.
pub enum Message<J> {
    NewJob(J),
    Terminate,
}

/// Where a worker stands in its receive-and-execute loop.
#[derive(Clone, Copy, Debug, PartialEq, Eq, Structural)]
pub enum WorkerState {
    /// Waiting for, or about to ask for, the next message.
    Idle,
    /// Running the job it last received.
    Busy,
    /// Left its loop after receiving a termination signal.
    Stopped,
    /// Its thread ended abnormally while running a job.
    Faulted,
}

/// The abstract state of a pool.
pub struct PoolView<J> {
    /// The dispatch queue, front first.
    pub queue: Seq<Message<J>>,
    /// The state of each worker, indexed by worker id.
    pub workers: Seq<WorkerState>,
    /// Whether the termination signals have been sent.
    pub closing: bool,
    /// Every job ever submitted, in submission order.
    pub submitted: Seq<J>,
    /// Every job ever handed to a worker, in the order it left the queue.
    pub dequeued: Seq<J>,
}

/// Number of workers in `ws` that left their loop on a termination signal.
pub open spec fn stopped_count(ws: Seq<WorkerState>) -> nat
    decreases ws.len(),
{
    if ws.len() == 0 {
        0
    } else {
        stopped_count(ws.drop_last()) + if ws.last() == WorkerState::Stopped { 1nat } else { 0nat }
    }
}

/// Whether some worker can still receive messages.
pub open spec fn has_receiver(ws: Seq<WorkerState>) -> bool {
    exists|i: int| 0 <= i < ws.len() && (#[trigger] ws[i] == WorkerState::Idle || ws[i] == WorkerState::Busy)
}

impl<J> PoolView<J> {
    /// Number of submitted jobs that are still waiting in the queue.
    pub open spec fn pending(self) -> int {
        self.submitted.len() - self.dequeued.len()
    }

    /// Number of termination signals waiting in the queue.
    pub open spec fn signals(self) -> int {
        self.queue.len() - self.pending()
    }

    /// The pool's invariant.
    ///
    /// The queue holds the jobs not yet dequeued, in submission order, followed
    /// by termination signals only; signals exist only once the pool is
    /// closing, and then the signals still queued and the workers that have
    /// stopped add up to the number of workers.
    pub open spec fn wf(self) -> bool {
        &&& self.workers.len() > 0
        &&& self.dequeued.len() <= self.submitted.len()
        &&& self.dequeued == self.submitted.take(self.dequeued.len() as int)
        &&& self.pending() <= self.queue.len()
        &&& forall|k: int| 0 <= k < self.pending() ==> #[trigger] self.queue[k]
            == Message::NewJob(self.submitted[self.dequeued.len() + k])
        &&& forall|k: int| self.pending() <= k < self.queue.len() ==> (#[trigger] self.queue[k]) is Terminate
        &&& !self.closing ==> self.signals() == 0 && stopped_count(self.workers) == 0
        &&& self.closing ==> self.signals() + stopped_count(self.workers) == self.workers.len()
        &&& stopped_count(self.workers) > 0 ==> self.pending() == 0
    }

    /// The state after `job` is submitted: it joins the back of the queue.
    pub open spec fn after_submit(self, job: J) -> PoolView<J> {
        PoolView {
            queue: self.queue.push(Message::NewJob(job)),
            submitted: self.submitted.push(job),
            ..self
        }
    }

    /// The state after shutdown begins: one termination signal per worker
    /// joins the back of the queue.
    pub open spec fn after_shutdown(self) -> PoolView<J> {
        PoolView {
            queue: self.queue + Seq::new(self.workers.len(), |i: int| Message::Terminate),
            closing: true,
            ..self
        }
    }

    /// What a worker receives when it asks for a message: the front of the
    /// queue, or nothing while the queue is empty.
    pub open spec fn front(self) -> Option<Message<J>> {
        if self.queue.len() == 0 {
            None
        } else {
            Some(self.queue[0])
        }
    }

    /// The state after worker `id` asks for a message. A job makes it busy; a
    /// termination signal makes it stop; an empty queue changes nothing.
    pub open spec fn after_receive(self, id: int) -> PoolView<J> {
        if self.queue.len() == 0 {
            self
        } else {
            match self.queue[0] {
                Message::NewJob(job) => PoolView {
                    queue: self.queue.drop_first(),
                    workers: self.workers.update(id, WorkerState::Busy),
                    dequeued: self.dequeued.push(job),
                    ..self
                },
                Message::Terminate => PoolView {
                    queue: self.queue.drop_first(),
                    workers: self.workers.update(id, WorkerState::Stopped),
                    ..self
                },
            }
        }
    }

    /// The state after worker `id` ends its job, normally (`Idle`) or
    /// abnormally (`Faulted`). No other worker changes.
    pub open spec fn after_job_end(self, id: int, outcome: WorkerState) -> PoolView<J> {
        PoolView { workers: self.workers.update(id, outcome), ..self }
    }
}

/// A fixed-size pool's dispatch core: the queue shared by its workers and the
/// state of each worker. `J` is the type of a job.
pub struct ThreadPool<J> {
    queue: VecDeque<Message<J>>,
    workers: Vec<WorkerState>,
    closing: bool,
    submitted: Ghost<Seq<J>>,
    dequeued: Ghost<Seq<J>>,
}

impl<J> View for ThreadPool<J> {
    type V = PoolView<J>;

    closed spec fn view(&self) -> PoolView<J> {
        PoolView {
            queue: self.queue@,
            workers: self.workers@,
            closing: self.closing,
            submitted: self.submitted@,
            dequeued: self.dequeued@,
        }
    }
}

impl<J> ThreadPool<J> {
    /// Creates a pool of `size` idle workers with an empty queue.
    ///
    /// Fails, with nothing created, when `size` is zero.
    pub fn new(size: usize) -> (r: Result<ThreadPool<J>, PoolCreationError>)
        ensures
            size == 0 <==> r is Err,
            r is Err ==> r->Err_0.message() == zero_size_message(),
            r is Ok ==> {
                let v = r->Ok_0@;
                &&& v.wf()
                &&& v.workers == Seq::new(size as nat, |i: int| WorkerState::Idle)
                &&& v.queue.len() == 0
                &&& !v.closing
                &&& v.submitted.len() == 0
                &&& v.dequeued.len() == 0
            },
    {
        if size == 0 {
            return Err(PoolCreationError::new());
        }
        let mut workers: Vec<WorkerState> = Vec::with_capacity(size);
        let mut id: usize = 0;
        while id < size
            invariant
                id <= size,
                workers@ == Seq::new(id as nat, |i: int| WorkerState::Idle),
            decreases size - id,
        {
            workers.push(WorkerState::Idle);
            id = id + 1;
            assert(workers@ =~= Seq::new(id as nat, |i: int| WorkerState::Idle));
        }
        let pool = ThreadPool {
            queue: VecDeque::new(),
            workers,
            closing: false,
            submitted: Ghost(Seq::empty()),
            dequeued: Ghost(Seq::empty()),
        };
        proof {
            lemma_stopped_count_none(pool.workers@);
            assert(pool@.submitted.take(0) =~= pool@.dequeued);
        }
        Ok(pool)
    }

    /// Submits `job`: it is placed at the back of the queue.
    ///
    /// The pool must not be shutting down and some worker must still be
    /// alive to receive it.
    pub fn execute(&mut self, job: J)
        requires
            old(self)@.wf(),
            !old(self)@.closing,
            has_receiver(old(self)@.workers),
        ensures
            final(self)@ == old(self)@.after_submit(job),
            final(self)@.wf(),
    {
        let ghost pre = self@;
        self.queue.push_back(Message::NewJob(job));
        proof {
            self.submitted@ = self.submitted@.push(job);
            let post = self@;
            assert(post.dequeued =~= post.submitted.take(post.dequeued.len() as int));
            assert forall|k: int| 0 <= k < post.pending() implies #[trigger] post.queue[k]
                == Message::NewJob(post.submitted[post.dequeued.len() + k]) by {
                if k < pre.pending() {
                    assert(pre.queue[k] == Message::NewJob(pre.submitted[pre.dequeued.len() + k]));
                }
            }
        }
    }

    /// Begins shutdown: sends one termination signal per worker, behind every
    /// job already submitted.
    pub fn shutdown(&mut self)
        requires
            old(self)@.wf(),
            !old(self)@.closing,
            has_receiver(old(self)@.workers),
        ensures
            final(self)@ == old(self)@.after_shutdown(),
            final(self)@.wf(),
    {
        let ghost pre = self@;
        let n = self.workers.len();
        let mut sent: usize = 0;
        while sent < n
            invariant
                n == pre.workers.len(),
                sent <= n,
                self.workers@ == pre.workers,
                self.submitted@ == pre.submitted,
                self.dequeued@ == pre.dequeued,
                !self.closing,
                self.queue@ =~= pre.queue + Seq::new(sent as nat, |i: int| Message::Terminate),
            decreases n - sent,
        {
            self.queue.push_back(Message::Terminate);
            sent = sent + 1;
            assert(self.queue@ =~= pre.queue + Seq::new(sent as nat, |i: int| Message::<J>::Terminate));
        }
        self.closing = true;
        proof {
            let post = self@;
            assert(post =~= pre.after_shutdown());
            assert forall|k: int| post.pending() <= k < post.queue.len() implies (#[trigger] post.queue[k]) is Terminate by {
                if k < pre.queue.len() {
                    assert(pre.queue[k] is Terminate);
                }
            }
            assert forall|k: int| 0 <= k < post.pending() implies #[trigger] post.queue[k]
                == Message::NewJob(post.submitted[post.dequeued.len() + k]) by {
                assert(pre.queue[k] == Message::NewJob(pre.submitted[pre.dequeued.len() + k]));
            }
        }
    }

    /// Worker `id` asks for its next message. It takes the front of the queue,
    /// if any: a job makes it busy, a termination signal makes it stop. While
    /// the queue is empty it gets nothing and nothing changes.
    ///
    /// Only an idle worker asks, so no worker holds two jobs at once.
    pub fn receive(&mut self, id: usize) -> (r: Option<Message<J>>)
        requires
            old(self)@.wf(),
            id < old(self)@.workers.len(),
            old(self)@.workers[id as int] == WorkerState::Idle,
        ensures
            r == old(self)@.front(),
            final(self)@ == old(self)@.after_receive(id as int),
            final(self)@.wf(),
    {
        let ghost pre = self@;
        let r = self.queue.pop_front();
        match &r {
            Some(Message::NewJob(job)) => {
                self.workers.set(id, WorkerState::Busy);
                proof {
                    if pre.pending() == 0 {
                        assert(pre.queue[0] is Terminate);
                    }
                    assert(pre.queue[0] == Message::NewJob(pre.submitted[pre.dequeued.len() as int]));
                    self.dequeued@ = self.dequeued@.push(*job);
                    lemma_stopped_count_update(pre.workers, id as int, WorkerState::Busy);
                    let post = self@;
                    assert(post.dequeued =~= post.submitted.take(post.dequeued.len() as int));
                    assert forall|k: int| 0 <= k < post.pending() implies #[trigger] post.queue[k]
                        == Message::NewJob(post.submitted[post.dequeued.len() + k]) by {
                        assert(pre.queue[k + 1] == Message::NewJob(pre.submitted[pre.dequeued.len() + k + 1]));
                    }
                    assert forall|k: int| post.pending() <= k < post.queue.len() implies (#[trigger] post.queue[k]) is Terminate by {
                        assert(pre.queue[k + 1] is Terminate);
                    }
                    assert(post =~= pre.after_receive(id as int));
                }
            },
            Some(Message::Terminate) => {
                self.workers.set(id, WorkerState::Stopped);
                proof {
                    if pre.pending() > 0 {
                        assert(pre.queue[0] == Message::NewJob(pre.submitted[pre.dequeued.len() as int]));
                    }
                    lemma_stopped_count_update(pre.workers, id as int, WorkerState::Stopped);
                    let post = self@;
                    assert forall|k: int| post.pending() <= k < post.queue.len() implies (#[trigger] post.queue[k]) is Terminate by {
                        assert(pre.queue[k + 1] is Terminate);
                    }
                    assert(post =~= pre.after_receive(id as int));
                }
            },
            None => {},
        }
        r
    }

    /// Worker `id` has finished its job normally and is idle again.
    pub fn complete(&mut self, id: usize)
        requires
            old(self)@.wf(),
            id < old(self)@.workers.len(),
            old(self)@.workers[id as int] == WorkerState::Busy,
        ensures
            final(self)@ == old(self)@.after_job_end(id as int, WorkerState::Idle),
            final(self)@.wf(),
    {
        self.end_job(id, WorkerState::Idle);
    }

    /// Worker `id` failed while running its job: its thread is gone, and no
    /// other worker is affected.
    pub fn fault(&mut self, id: usize)
        requires
            old(self)@.wf(),
            id < old(self)@.workers.len(),
            old(self)@.workers[id as int] == WorkerState::Busy,
        ensures
            final(self)@ == old(self)@.after_job_end(id as int, WorkerState::Faulted),
            final(self)@.wf(),
    {
        self.end_job(id, WorkerState::Faulted);
    }

    fn end_job(&mut self, id: usize, outcome: WorkerState)
        requires
            old(self)@.wf(),
            id < old(self)@.workers.len(),
            old(self)@.workers[id as int] == WorkerState::Busy,
            outcome == WorkerState::Idle || outcome == WorkerState::Faulted,
        ensures
            final(self)@ == old(self)@.after_job_end(id as int, outcome),
            final(self)@.wf(),
    {
        let ghost pre = self@;
        self.workers.set(id, outcome);
        proof {
            lemma_stopped_count_update(pre.workers, id as int, outcome);
            assert(self@ =~= pre.after_job_end(id as int, outcome));
        }
    }

    /// The state of worker `id`.
    pub fn worker_state(&self, id: usize) -> (s: WorkerState)
        requires
            id < self@.workers.len(),
        ensures
            s == self@.workers[id as int],
    {
        self.workers[id]
    }

    /// Whether the pool is shutting down.
    pub fn is_closing(&self) -> (b: bool)
        ensures
            b == self@.closing,
    {
        self.closing
    }

    /// Whether some worker is still alive to receive messages.
    pub fn has_receiver(&self) -> (b: bool)
        ensures
            b == has_receiver(self@.workers),
    {
        let mut i: usize = 0;
        while i < self.workers.len()
            invariant
                i <= self.workers@.len(),
                forall|j: int| 0 <= j < i ==> !(#[trigger] self.workers@[j] == WorkerState::Idle
                    || self.workers@[j] == WorkerState::Busy),
            decreases self.workers@.len() - i,
        {
            let s = self.workers[i];
            if s == WorkerState::Idle || s == WorkerState::Busy {
                return true;
            }
            i = i + 1;
        }
        false
    }

    /// The number of workers.
    pub fn size(&self) -> (n: usize)
        ensures
            n == self@.workers.len(),
    {
        self.workers.len()
    }
}

/// Changing one worker's state changes the stopped count only by what that
/// worker was and becomes.
proof fn lemma_stopped_count_update(ws: Seq<WorkerState>, i: int, s: WorkerState)
    requires
        0 <= i < ws.len(),
    ensures
        stopped_count(ws.update(i, s)) + (if ws[i] == WorkerState::Stopped { 1int } else { 0int })
            == stopped_count(ws) + (if s == WorkerState::Stopped { 1int } else { 0int }),
    decreases ws.len(),
{
    let u = ws.update(i, s);
    if i < ws.len() - 1 {
        lemma_stopped_count_update(ws.drop_last(), i, s);
        assert(u.drop_last() =~= ws.drop_last().update(i, s));
    } else {
        assert(u.drop_last() =~= ws.drop_last());
    }
}

/// Submission order is queue order: a job submitted before another is queued
/// ahead of it, and leaves the queue ahead of it.
pub proof fn lemma_fifo_submission<J>(v: PoolView<J>, a: J, b: J)
    requires
        v.wf(),
        !v.closing,
    ensures
        ({
            let w = v.after_submit(a).after_submit(b);
            let n = v.queue.len() as int;
            let m = v.submitted.len() as int;
            &&& w.queue.len() == n + 2
            &&& w.queue[n] == Message::NewJob(a)
            &&& w.queue[n + 1] == Message::NewJob(b)
            &&& w.submitted[m] == a
            &&& w.submitted[m + 1] == b
            &&& w.dequeued == v.dequeued
        }),
{
}

/// Whatever state a pool is in, the jobs handed to workers are exactly the
/// earliest submitted ones, each once and in submission order, and the jobs
/// not yet handed out wait in the queue in that order.
pub proof fn lemma_jobs_leave_in_order<J>(v: PoolView<J>)
    requires
        v.wf(),
    ensures
        v.dequeued.len() <= v.submitted.len(),
        forall|k: int| 0 <= k < v.dequeued.len() ==> #[trigger] v.dequeued[k] == v.submitted[k],
        forall|k: int|
            v.dequeued.len() <= k < v.submitted.len() ==> v.queue[k - v.dequeued.len()]
                == Message::NewJob(#[trigger] v.submitted[k]),
{
    assert forall|k: int| v.dequeued.len() <= k < v.submitted.len() implies v.queue[k
        - v.dequeued.len()] == Message::NewJob(#[trigger] v.submitted[k]) by {
        assert(v.queue[k - v.dequeued.len()] == Message::NewJob(
            v.submitted[v.dequeued.len() + (k - v.dequeued.len())],
        ));
    }
}

/// Once shutdown has begun, a worker that is still alive never waits in
/// vain: while one is idle there is a message for it. And once any worker has
/// stopped, every submitted job has already been handed to a worker.
pub proof fn lemma_shutdown_progress<J>(v: PoolView<J>, id: int)
    requires
        v.wf(),
        v.closing,
        0 <= id < v.workers.len(),
    ensures
        v.workers[id] == WorkerState::Idle ==> v.queue.len() > 0,
        stopped_count(v.workers) > 0 ==> v.dequeued == v.submitted,
{
    if v.workers[id] == WorkerState::Idle {
        lemma_stopped_count_bound(v.workers, id);
    }
    if stopped_count(v.workers) > 0 {
        assert(v.dequeued =~= v.submitted);
    }
}

/// When every worker has stopped, every submitted job has been handed to a
/// worker exactly once and nothing is left in the queue.
pub proof fn lemma_shutdown_complete<J>(v: PoolView<J>)
    requires
        v.wf(),
        forall|i: int| 0 <= i < v.workers.len() ==> #[trigger] v.workers[i] == WorkerState::Stopped,
    ensures
        v.closing,
        v.dequeued == v.submitted,
        v.queue.len() == 0,
{
    lemma_stopped_count_all(v.workers);
    assert(v.dequeued =~= v.submitted);
}

/// A worker running a job stays busy until that job ends: submissions,
/// shutdown, and the steps of other workers leave it busy. Since only an idle
/// worker may receive, no worker ever holds two jobs at once.
pub proof fn lemma_busy_until_job_ends<J>(
    v: PoolView<J>,
    id: int,
    other: int,
    job: J,
    outcome: WorkerState,
)
    requires
        v.wf(),
        0 <= id < v.workers.len(),
        0 <= other < v.workers.len(),
        id != other,
        v.workers[id] == WorkerState::Busy,
    ensures
        v.after_submit(job).workers[id] == WorkerState::Busy,
        v.after_shutdown().workers[id] == WorkerState::Busy,
        v.after_receive(other).workers[id] == WorkerState::Busy,
        v.after_job_end(other, outcome).workers[id] == WorkerState::Busy,
{
}

/// A worker that takes a message changes no other worker, and a worker whose
/// job fails changes nothing but itself: the queue and every other worker
/// carry on as before.
pub proof fn lemma_worker_isolation<J>(v: PoolView<J>, id: int, other: int)
    requires
        v.wf(),
        0 <= id < v.workers.len(),
        0 <= other < v.workers.len(),
        id != other,
    ensures
        v.after_receive(id).workers[other] == v.workers[other],
        v.after_job_end(id, WorkerState::Faulted).workers[other] == v.workers[other],
        v.after_job_end(id, WorkerState::Faulted).queue == v.queue,
        v.after_job_end(id, WorkerState::Faulted).front() == v.front(),
{
}

/// The stopped count is the number of stopped workers, so it stays below the
/// length while some worker has not stopped.
proof fn lemma_stopped_count_bound(ws: Seq<WorkerState>, i: int)
    requires
        0 <= i < ws.len(),
        ws[i] != WorkerState::Stopped,
    ensures
        stopped_count(ws) < ws.len(),
    decreases ws.len(),
{
    lemma_stopped_count_at_most(ws.drop_last());
    if i < ws.len() - 1 {
        lemma_stopped_count_bound(ws.drop_last(), i);
    }
}

proof fn lemma_stopped_count_at_most(ws: Seq<WorkerState>)
    ensures
        stopped_count(ws) <= ws.len(),
    decreases ws.len(),
{
    if ws.len() > 0 {
        lemma_stopped_count_at_most(ws.drop_last());
    }
}

proof fn lemma_stopped_count_all(ws: Seq<WorkerState>)
    requires
        forall|i: int| 0 <= i < ws.len() ==> #[trigger] ws[i] == WorkerState::Stopped,
    ensures
        stopped_count(ws) == ws.len(),
    decreases ws.len(),
{
    if ws.len() > 0 {
        lemma_stopped_count_all(ws.drop_last());
    }
}

/// A sequence with no stopped worker has a stopped count of zero.
proof fn lemma_stopped_count_none(ws: Seq<WorkerState>)
    requires
        forall|i: int| 0 <= i < ws.len() ==> #[trigger] ws[i] != WorkerState::Stopped,
    ensures
        stopped_count(ws) == 0,
    decreases ws.len(),
{
    if ws.len() > 0 {
        lemma_stopped_count_none(ws.drop_last());
    }
}

} // verus!
