//! The bookkeeping of the signing task queue: task data, results, the
//! queue state with its pending counter, and the decisions the worker
//! and the retry handler take. The surrounding runtime (worker wakeup,
//! sleeping, cancellation signals) lives outside the library and hands
//! events in as plain values.

use vstd::prelude::*;

verus! {

/// The data one signing task carries.
#[derive(Clone, Debug)]
pub struct EnvData {
    pub id: u64,
    pub payload: Vec<u8>,
}

/// A queued signing task.
pub struct SigningTask {
    pub data: EnvData,
}

/// What running a task ended in.
#[derive(Debug)]
pub enum TaskResult {
    Finished(ResultSuccessData),
    Cancelled(ResultCancelData),
    Failed(ResultErrorData),
}

/// Payload of a task that ran to completion.
#[derive(Clone, Debug)]
pub struct ResultSuccessData {
    pub id: u64,
    pub payload: Vec<u8>,
    pub is_retry: bool,
}

/// Payload of a task that was cancelled while running.
#[derive(Clone, Debug)]
pub struct ResultCancelData {
    pub id: u64,
    pub payload: Vec<u8>,
}

/// Payload of a task that failed.
#[derive(Clone, Debug)]
pub struct ResultErrorData {
    pub id: u64,
    pub payload: Vec<u8>,
}

/// The callback a task owner implements to be told of finished tasks.
pub trait TaskHandler {
    fn on_task_finished(&mut self, result: TaskResult);
}

/// What a task owner remembers about a task it may issue again.
#[derive(Clone, Debug)]
pub struct RetryData {
    pub id: u64,
    pub retry_str: String,
    pub payload: Vec<u8>,
}

impl SigningTask {
    pub fn new(data: EnvData) -> (t: Self)
        ensures
            t.data == data,
    {
        Self { data }
    }

    /// What a run of the task ends in: cancelled runs report
    /// cancellation, completed runs report success marked for retry.
    pub fn run_outcome(&self, cancelled: bool) -> (r: TaskResult)
        ensures
            cancelled ==> (r matches TaskResult::Cancelled(d) && d.id == 42 && d.payload@
                == Seq::<u8>::empty()),
            !cancelled ==> (r matches TaskResult::Finished(d) && d.id == 42 && d.payload@
                == Seq::<u8>::empty() && d.is_retry),
    {
        if cancelled {
            TaskResult::Cancelled(ResultCancelData { id: 42, payload: Vec::new() })
        } else {
            TaskResult::Finished(ResultSuccessData { id: 42, payload: Vec::new(), is_retry: true })
        }
    }
}

/// What the worker does next: run a task, wait for a wakeup, or stop.
pub enum WorkerAction {
    Run(SigningTask),
    Wait,
    Stop,
}

/// The state of the single-worker task queue: the queued tasks, the
/// count of tasks queued or running, and the shutdown flag. The
/// runtime wraps this state in its own synchronisation; every decision
/// about it stands here.
pub struct SingleTaskManager {
    task_queue: Vec<SigningTask>,
    pending: usize,
    shutdown: bool,
}

impl SingleTaskManager {
    /// The queued tasks' data, in queue order.
    pub closed spec fn queue(self) -> Seq<EnvData> {
        self.task_queue@.map(|i: int, t: SigningTask| t.data)
    }

    /// Tasks queued plus tasks running.
    pub closed spec fn pending_count(self) -> nat {
        self.pending as nat
    }

    /// The worker has been told to stop.
    pub closed spec fn is_shutdown(self) -> bool {
        self.shutdown
    }

    /// The pending counter counts at least the queued tasks.
    pub open spec fn wf(self) -> bool {
        self.pending_count() >= self.queue().len()
    }

    pub fn new() -> (m: Self)
        ensures
            m.queue() == Seq::<EnvData>::empty(),
            m.pending_count() == 0,
            !m.is_shutdown(),
            m.wf(),
    {
        let m = Self { task_queue: Vec::new(), pending: 0, shutdown: false };
        proof {
            assert(m.queue() =~= Seq::<EnvData>::empty());
        }
        m
    }

    /// Queues a task for the data and counts it pending.
    pub fn enqueue_task(&mut self, data: EnvData)
        requires
            old(self).pending_count() < usize::MAX,
        ensures
            final(self).queue() == old(self).queue().push(data),
            final(self).pending_count() == old(self).pending_count() + 1,
            final(self).is_shutdown() == old(self).is_shutdown(),
            old(self).wf() ==> final(self).wf(),
    {
        let task = SigningTask::new(data);
        self.task_queue.push(task);
        self.pending = self.pending + 1;
        proof {
            assert(self.queue() =~= old(self).queue().push(data));
        }
    }

    /// How many tasks are queued or running.
    pub fn pending_counter(&self) -> (n: usize)
        ensures
            n == self.pending_count(),
    {
        self.pending
    }

    /// Drops every queued task and uncounts them; a running task is
    /// interrupted by the runtime and stays counted until it reports.
    pub fn cancel_all(&mut self)
        requires
            old(self).wf(),
        ensures
            final(self).queue() == Seq::<EnvData>::empty(),
            final(self).pending_count() == old(self).pending_count() - old(self).queue().len(),
            final(self).is_shutdown() == old(self).is_shutdown(),
            final(self).wf(),
    {
        let cleared = self.task_queue.len();
        self.task_queue.clear();
        self.pending = self.pending - cleared;
        proof {
            assert(self.queue() =~= Seq::<EnvData>::empty());
        }
    }

    /// Tells the worker to stop once the queue is drained.
    pub fn stop(&mut self)
        ensures
            final(self).is_shutdown(),
            final(self).queue() == old(self).queue(),
            final(self).pending_count() == old(self).pending_count(),
            old(self).wf() ==> final(self).wf(),
    {
        self.shutdown = true;
    }

    /// The worker's next step: the front task when one is queued (it
    /// stays counted as pending while it runs); otherwise stop when
    /// shutdown was requested, else wait for a wakeup.
    pub fn worker_step(&mut self) -> (action: WorkerAction)
        ensures
            old(self).queue().len() > 0 ==> (action matches WorkerAction::Run(t) && t.data == old(
                self,
            ).queue()[0] && final(self).queue() == old(self).queue().drop_first()),
            old(self).queue().len() == 0 && old(self).is_shutdown() ==> action
                is Stop && final(self).queue() == old(self).queue(),
            old(self).queue().len() == 0 && !old(self).is_shutdown() ==> action
                is Wait && final(self).queue() == old(self).queue(),
            final(self).pending_count() == old(self).pending_count(),
            final(self).is_shutdown() == old(self).is_shutdown(),
            old(self).wf() ==> final(self).wf(),
    {
        if self.task_queue.len() > 0 {
            let task = self.task_queue.remove(0);
            proof {
                assert(self.queue() =~= old(self).queue().drop_first());
            }
            WorkerAction::Run(task)
        } else if self.shutdown {
            WorkerAction::Stop
        } else {
            WorkerAction::Wait
        }
    }

    /// Uncounts a task whose run has finished and whose callback ran.
    pub fn task_finished(&mut self)
        requires
            old(self).pending_count() > 0,
        ensures
            final(self).pending_count() == old(self).pending_count() - 1,
            final(self).queue() == old(self).queue(),
            final(self).is_shutdown() == old(self).is_shutdown(),
    {
        self.pending = self.pending - 1;
    }
}

/// The retry bookkeeping of a task owner: a completed task raises the
/// retry count, and another task is issued as long as fewer than three
/// runs have completed.
pub fn retry_step(retry_counter: usize, result: &TaskResult) -> (r: (usize, bool))
    requires
        retry_counter < usize::MAX,
    ensures
        r.0 == if result is Finished {
            retry_counter + 1
        } else {
            retry_counter as int
        },
        r.1 == (r.0 < 3),
{
    let next: usize = match result {
        TaskResult::Finished(_) => retry_counter + 1,
        TaskResult::Cancelled(_) => retry_counter,
        TaskResult::Failed(_) => retry_counter,
    };
    (next, next < 3)
}

/// Stopping the shared runtime. The runtime's lifetime is managed by
/// the host process; nothing is torn down here.
pub fn shutdown_runtime() {
}

} // verus!
