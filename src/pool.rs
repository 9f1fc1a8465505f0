use std::collections::VecDeque;
use vstd::prelude::*;

verus! {

/// An entry of the pool's task queue: a task, known by its ticket, or the
/// signal that tells the worker that takes it to stop.
#[derive(Debug, Clone, Copy, PartialEq, Eq, Structural)]
pub enum QueueEntry {
    Task(u64),
    Terminate,
}

/// What a worker is doing.
#[derive(Debug, Clone, Copy, PartialEq, Eq, Structural)]
pub enum WorkerState {
    Idle,
    Executing(u64),
    Stopped,
}

/// What a worker that asks for work is told to do.
#[derive(Debug, Clone, Copy, PartialEq, Eq, Structural)]
pub enum Dispatch {
    /// Run the task with this ticket, then report back with `finish`.
    Run(u64),
    /// The queue is empty: wait for a submission, then ask again.
    Wait,
    /// Leave the processing loop for good.
    Exit,
}

/// Why the pool refused a request.
#[derive(Debug, Clone, Copy, PartialEq, Eq, Structural)]
pub enum PoolError {
    /// Teardown has begun: no task is accepted any more, and teardown happens once.
    Closed,
    /// Every ticket of the counter's type has been handed out.
    TicketsExhausted,
}

/// The queue of `hi - lo` tasks with tickets `lo`, `lo + 1`, ... in that order.
pub open spec fn task_run(lo: nat, hi: nat) -> Seq<QueueEntry> {
    Seq::new((hi - lo) as nat, |i: int| QueueEntry::Task((lo + i) as u64))
}

/// `n` stop signals.
pub open spec fn sentinels(n: nat) -> Seq<QueueEntry> {
    Seq::new(n, |i: int| QueueEntry::Terminate)
}

/// The number of workers of `ws` executing a task.
pub open spec fn running_count(ws: Seq<WorkerState>) -> nat
    decreases ws.len(),
{
    if ws.len() == 0 {
        0
    } else {
        running_count(ws.drop_last()) + if ws.last() is Executing { 1nat } else { 0nat }
    }
}

/// The number of workers of `ws` that have stopped.
pub open spec fn stopped_count(ws: Seq<WorkerState>) -> nat
    decreases ws.len(),
{
    if ws.len() == 0 {
        0
    } else {
        stopped_count(ws.drop_last()) + if ws.last() is Stopped { 1nat } else { 0nat }
    }
}

/// The mathematical content of a [`PoolState`].
pub struct PoolView {
    /// The queue, front first.
    pub queue: Seq<QueueEntry>,
    /// The state of each worker, by worker number.
    pub workers: Seq<WorkerState>,
    /// Tasks submitted so far; also the next ticket.
    pub submitted: nat,
    /// Tasks handed to a worker so far.
    pub dispatched: nat,
    /// Executions reported as completed.
    pub succeeded: nat,
    /// Executions reported as failed.
    pub failed: nat,
    /// Whether teardown has begun.
    pub closed: bool,
}

impl PoolView {
    pub open spec fn queued_tasks(self) -> nat {
        (self.submitted - self.dispatched) as nat
    }

    pub open spec fn queued_sentinels(self) -> nat {
        (self.queue.len() - self.queued_tasks()) as nat
    }

    pub open spec fn finished(self) -> nat {
        self.succeeded + self.failed
    }

    /// No task waits in the queue and no worker is executing one.
    pub open spec fn is_idle(self) -> bool {
        self.queued_tasks() == 0 && running_count(self.workers) == 0
    }

    pub open spec fn all_stopped(self) -> bool {
        forall|i: int| 0 <= i < self.workers.len() ==> #[trigger] self.workers[i] is Stopped
    }

    /// The queue holds the undispatched tasks in ticket order, then the stop
    /// signals not yet taken; a signal is sent only at teardown, one per
    /// worker; a worker stops only once no task is queued; the tickets being
    /// executed were dispatched, each to one worker; and every dispatched task
    /// is running or finished.
    pub open spec fn wf(self) -> bool {
        &&& self.workers.len() > 0
        &&& self.submitted <= u64::MAX
        &&& self.dispatched <= self.submitted
        &&& self.queue.len() >= self.queued_tasks()
        &&& self.queue == task_run(self.dispatched, self.submitted) + sentinels(self.queued_sentinels())
        &&& !self.closed ==> self.queued_sentinels() == 0 && stopped_count(self.workers) == 0
        &&& self.closed ==> self.queued_sentinels() + stopped_count(self.workers) == self.workers.len()
        &&& stopped_count(self.workers) > 0 ==> self.queued_tasks() == 0
        &&& forall|i: int|
            0 <= i < self.workers.len() ==> (#[trigger] self.workers[i] matches WorkerState::Executing(t)
                ==> t < self.dispatched)
        &&& forall|i: int, j: int|
            0 <= i < self.workers.len() && 0 <= j < self.workers.len() && i != j
                && (#[trigger] self.workers[i]) is Executing ==> self.workers[i] != #[trigger] self.workers[j]
        &&& self.finished() + running_count(self.workers) == self.dispatched
    }
}

proof fn lemma_counts_update(ws: Seq<WorkerState>, i: int, s: WorkerState)
    requires
        0 <= i < ws.len(),
    ensures
        running_count(ws.update(i, s)) + (if ws[i] is Executing { 1int } else { 0int })
            == running_count(ws) + (if s is Executing { 1int } else { 0int }),
        stopped_count(ws.update(i, s)) + (if ws[i] is Stopped { 1int } else { 0int })
            == stopped_count(ws) + (if s is Stopped { 1int } else { 0int }),
    decreases ws.len(),
{
    let u = ws.update(i, s);
    if i < ws.len() - 1 {
        assert(u.drop_last() =~= ws.drop_last().update(i, s));
        lemma_counts_update(ws.drop_last(), i, s);
    } else {
        assert(u.drop_last() =~= ws.drop_last());
    }
}

proof fn lemma_counts_uniform(ws: Seq<WorkerState>)
    ensures
        (forall|i: int| 0 <= i < ws.len() ==> #[trigger] ws[i] is Idle) ==> running_count(ws) == 0
            && stopped_count(ws) == 0,
        (forall|i: int| 0 <= i < ws.len() ==> #[trigger] ws[i] is Stopped) ==> running_count(ws) == 0
            && stopped_count(ws) == ws.len(),
    decreases ws.len(),
{
    if ws.len() > 0 {
        lemma_counts_uniform(ws.drop_last());
        assert(forall|i: int| 0 <= i < ws.len() - 1 ==> #[trigger] ws.drop_last()[i] == ws[i]);
    }
}

} // verus!

verus! {

/// The dispatch state of a worker pool: the task queue and what each worker
/// is doing. The threads themselves belong to the caller, who holds this state
/// under one lock and asks it, for each worker, what to do next.
pub struct PoolState {
    queue: VecDeque<QueueEntry>,
    workers: Vec<WorkerState>,
    next_ticket: u64,
    dispatched: u64,
    succeeded: u64,
    failed: u64,
    closed: bool,
}

impl View for PoolState {
    type V = PoolView;

    closed spec fn view(&self) -> PoolView {
        PoolView {
            queue: self.queue@,
            workers: self.workers@,
            submitted: self.next_ticket as nat,
            dispatched: self.dispatched as nat,
            succeeded: self.succeeded as nat,
            failed: self.failed as nat,
            closed: self.closed,
        }
    }
}

impl PoolState {
    pub open spec fn wf(&self) -> bool {
        self@.wf()
    }

    /// A pool of `size` idle workers, numbered from 0, and an empty queue.
    pub fn new(size: usize) -> (r: PoolState)
        requires
            size > 0,
        ensures
            r.wf(),
            r@.workers == Seq::new(size as nat, |i: int| WorkerState::Idle),
            r@.queue.len() == 0,
            r@.submitted == 0,
            r@.dispatched == 0,
            r@.finished() == 0,
            !r@.closed,
    {
        let mut workers: Vec<WorkerState> = Vec::with_capacity(size);
        let mut i: usize = 0;
        while i < size
            invariant
                i <= size,
                workers@ == Seq::new(i as nat, |j: int| WorkerState::Idle),
            decreases size - i,
        {
            workers.push(WorkerState::Idle);
            i += 1;
            assert(workers@ =~= Seq::new(i as nat, |j: int| WorkerState::Idle));
        }
        let r = PoolState {
            queue: VecDeque::new(),
            workers,
            next_ticket: 0,
            dispatched: 0,
            succeeded: 0,
            failed: 0,
            closed: false,
        };
        proof {
            lemma_counts_uniform(r@.workers);
            assert(r@.queue =~= task_run(0, 0) + sentinels(0));
        }
        r
    }

    /// The number of workers.
    pub fn size(&self) -> (r: usize)
        ensures
            r == self@.workers.len(),
    {
        self.workers.len()
    }

    /// Tasks submitted so far.
    pub fn submitted(&self) -> (r: u64)
        ensures
            r == self@.submitted,
    {
        self.next_ticket
    }

    /// Executions reported as completed.
    pub fn succeeded(&self) -> (r: u64)
        ensures
            r == self@.succeeded,
    {
        self.succeeded
    }

    /// Executions reported as failed.
    pub fn failed(&self) -> (r: u64)
        ensures
            r == self@.failed,
    {
        self.failed
    }

    /// What worker `worker` is doing.
    pub fn worker_state(&self, worker: usize) -> (r: WorkerState)
        requires
            worker < self@.workers.len(),
        ensures
            r == self@.workers[worker as int],
    {
        self.workers[worker]
    }

    /// Enqueues a task and returns its ticket. Refused once teardown has begun.
    pub fn submit(&mut self) -> (r: Result<u64, PoolError>)
        requires
            old(self).wf(),
        ensures
            final(self).wf(),
            old(self)@.closed ==> r == Err::<u64, PoolError>(PoolError::Closed) && final(self)@ == old(self)@,
            !old(self)@.closed && old(self)@.submitted == u64::MAX ==> r == Err::<u64, PoolError>(
                PoolError::TicketsExhausted,
            ) && final(self)@ == old(self)@,
            !old(self)@.closed && old(self)@.submitted < u64::MAX ==> {
                &&& r == Ok::<u64, PoolError>(old(self)@.submitted as u64)
                &&& final(self)@ == (PoolView {
                    queue: old(self)@.queue.push(QueueEntry::Task(old(self)@.submitted as u64)),
                    submitted: old(self)@.submitted + 1,
                    ..old(self)@
                })
            },
    {
        if self.closed {
            return Err(PoolError::Closed);
        }
        if self.next_ticket == u64::MAX {
            return Err(PoolError::TicketsExhausted);
        }
        let ticket = self.next_ticket;
        self.queue.push_back(QueueEntry::Task(ticket));
        self.next_ticket = ticket + 1;
        proof {
            assert(sentinels(0) =~= Seq::<QueueEntry>::empty());
            assert(self@.queue =~= task_run(self@.dispatched, self@.submitted) + sentinels(0));
        }
        Ok(ticket)
    }

    /// Worker `worker`, idle, asks for work: it takes the entry at the front
    /// of the queue, if any.
    pub fn claim(&mut self, worker: usize) -> (r: Dispatch)
        requires
            old(self).wf(),
            worker < old(self)@.workers.len(),
            old(self)@.workers[worker as int] is Idle,
        ensures
            final(self).wf(),
            old(self)@.queue.len() == 0 ==> r == Dispatch::Wait && final(self)@ == old(self)@,
            old(self)@.queue.len() > 0 ==> match old(self)@.queue[0] {
                QueueEntry::Task(t) => {
                    &&& r == Dispatch::Run(t)
                    &&& t == old(self)@.dispatched
                    &&& final(self)@ == (PoolView {
                        queue: old(self)@.queue.drop_first(),
                        workers: old(self)@.workers.update(worker as int, WorkerState::Executing(t)),
                        dispatched: old(self)@.dispatched + 1,
                        ..old(self)@
                    })
                },
                QueueEntry::Terminate => {
                    &&& r == Dispatch::Exit
                    &&& final(self)@ == (PoolView {
                        queue: old(self)@.queue.drop_first(),
                        workers: old(self)@.workers.update(worker as int, WorkerState::Stopped),
                        ..old(self)@
                    })
                },
            },
    {
        let ghost v = self@;
        proof {
            if v.queued_tasks() > 0 {
                assert(v.queue[0] == task_run(v.dispatched, v.submitted)[0]);
            } else if v.queue.len() > 0 {
                assert(v.queue[0] == sentinels(v.queued_sentinels())[0]);
            }
        }
        match self.queue.pop_front() {
            None => Dispatch::Wait,
            Some(QueueEntry::Task(ticket)) => {
                self.workers.set(worker, WorkerState::Executing(ticket));
                self.dispatched = self.dispatched + 1;
                proof {
                    lemma_counts_update(v.workers, worker as int, WorkerState::Executing(ticket));
                    assert(self@.queue =~= task_run(self@.dispatched, self@.submitted) + sentinels(
                        self@.queued_sentinels(),
                    ));
                }
                Dispatch::Run(ticket)
            },
            Some(QueueEntry::Terminate) => {
                self.workers.set(worker, WorkerState::Stopped);
                proof {
                    lemma_counts_update(v.workers, worker as int, WorkerState::Stopped);
                    assert(self@.queue =~= task_run(self@.dispatched, self@.submitted) + sentinels(
                        self@.queued_sentinels(),
                    ));
                }
                Dispatch::Exit
            },
        }
    }

    /// Worker `worker` reports that its task ran to completion (`succeeded`)
    /// or failed; it becomes idle again.
    pub fn finish(&mut self, worker: usize, succeeded: bool)
        requires
            old(self).wf(),
            worker < old(self)@.workers.len(),
            old(self)@.workers[worker as int] is Executing,
        ensures
            final(self).wf(),
            final(self)@ == (PoolView {
                workers: old(self)@.workers.update(worker as int, WorkerState::Idle),
                succeeded: old(self)@.succeeded + if succeeded { 1nat } else { 0nat },
                failed: old(self)@.failed + if succeeded { 0nat } else { 1nat },
                ..old(self)@
            }),
    {
        let ghost v = self@;
        proof {
            lemma_counts_update(v.workers, worker as int, WorkerState::Idle);
        }
        self.workers.set(worker, WorkerState::Idle);
        if succeeded {
            self.succeeded = self.succeeded + 1;
        } else {
            self.failed = self.failed + 1;
        }
    }

    /// Begins teardown: refuses further tasks and queues one stop signal per
    /// worker, behind every task already queued. Refused if already begun.
    pub fn shutdown(&mut self) -> (r: Result<(), PoolError>)
        requires
            old(self).wf(),
        ensures
            final(self).wf(),
            old(self)@.closed ==> r == Err::<(), PoolError>(PoolError::Closed) && final(self)@ == old(self)@,
            !old(self)@.closed ==> r == Ok::<(), PoolError>(()) && final(self)@ == (PoolView {
                queue: old(self)@.queue + sentinels(old(self)@.workers.len()),
                closed: true,
                ..old(self)@
            }),
    {
        if self.closed {
            return Err(PoolError::Closed);
        }
        let n = self.workers.len();
        let mut i: usize = 0;
        while i < n
            invariant
                i <= n,
                n == old(self)@.workers.len(),
                self.workers == old(self).workers,
                self.next_ticket == old(self).next_ticket,
                self.dispatched == old(self).dispatched,
                self.succeeded == old(self).succeeded,
                self.failed == old(self).failed,
                self.closed == old(self).closed,
                self@.queue == old(self)@.queue + sentinels(i as nat),
            decreases n - i,
        {
            self.queue.push_back(QueueEntry::Terminate);
            i += 1;
            assert(self@.queue =~= old(self)@.queue + sentinels(i as nat));
        }
        self.closed = true;
        proof {
            let v = old(self)@;
            assert(v.queue =~= task_run(v.dispatched, v.submitted));
            assert(self@.queue =~= task_run(v.dispatched, v.submitted) + sentinels(n as nat));
        }
        Ok(())
    }

    /// No task waits in the queue and no worker is executing one.
    pub fn is_idle(&self) -> (r: bool)
        requires
            self.wf(),
        ensures
            r == self@.is_idle(),
    {
        self.next_ticket == self.dispatched && self.succeeded + self.failed == self.dispatched
    }

    /// Teardown has begun and every worker has taken its stop signal.
    pub fn all_stopped(&self) -> (r: bool)
        requires
            self.wf(),
        ensures
            r == (self@.closed && stopped_count(self@.workers) == self@.workers.len()),
    {
        self.closed && self.queue.len() == 0
    }
}

} // verus!

verus! {

/// In every well-formed pool state each submitted task is in exactly one place:
/// waiting in the queue, executing on one worker (no two workers hold the same
/// ticket), or finished. So once the pool is idle, the number of executions
/// equals the number of submissions: none was dropped and none ran twice.
pub proof fn lemma_every_task_runs_once(p: PoolView)
    requires
        p.wf(),
    ensures
        p.queued_tasks() + running_count(p.workers) + p.finished() == p.submitted,
        forall|i: int, j: int|
            0 <= i < p.workers.len() && 0 <= j < p.workers.len() && i != j && (#[trigger] p.workers[i]) is Executing
                ==> p.workers[i] != #[trigger] p.workers[j],
        p.is_idle() ==> p.finished() == p.submitted,
{
}

/// Once teardown has begun and every worker has stopped, nothing is left in the
/// queue and no task is executing: every task submitted before teardown has
/// been executed.
pub proof fn lemma_teardown_completes_all_tasks(p: PoolView)
    requires
        p.wf(),
        p.closed,
        p.all_stopped(),
    ensures
        p.queue.len() == 0,
        p.is_idle(),
        p.finished() == p.submitted,
{
    lemma_counts_uniform(p.workers);
}

} // verus!
