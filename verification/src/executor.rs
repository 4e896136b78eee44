//! The local task executor's decisions: which dispatched tasks start under
//! the concurrency limit, what a cancellation or shutdown does, and what a
//! finished process means. Spawning, waiting and the clock are the caller's.

use vstd::prelude::*;
use crate::command::TaskContext;
use crate::dag::Task;
use crate::duration::Duration;
use crate::incremental::Timestamp;
use crate::text::{decimal, push_decimal, push_str, str_eq, string_of, views};

verus! {

/// How a task ended, as the executor reports it.
#[derive(Debug, Clone, Copy, PartialEq, Eq, Structural)]
pub enum TaskOutcome {
    Success,
    Failed,
    Retry,
    Skipped,
}

/// What the scheduler asks of the executor.
#[derive(Debug, Clone)]
pub enum ExecutorCommand {
    /// Run an attempt of a task.
    DispatchTask {
        task: Task,
        dag_id: String,
        run_id: String,
        attempt: u32,
        logical_date: Timestamp,
        environment: String,
        params: Vec<(String, String)>,
    },
    /// Stop a running task.
    CancelTask { task_id: String, run_id: String },
    /// Finish the running tasks and stop.
    Shutdown,
}

/// What the executor tells the scheduler. An XCom value is its JSON text.
#[derive(Debug, Clone)]
pub enum ExecutorEvent {
    TaskCompleted {
        task_id: String,
        run_id: String,
        attempt: u32,
        outcome: TaskOutcome,
        xcom: Option<String>,
        duration: Duration,
    },
    TaskFailed { task_id: String, run_id: String, attempt: u32, error: String },
}

/// What the caller does on a command.
#[derive(Debug)]
pub enum ExecutorAction {
    /// Run the task with the context given.
    Start { task: Task, context: TaskContext },
    /// The concurrency limit is reached: the task is not run.
    Deferred(String),
    /// Abort the running task with this id.
    Abort(String),
    /// Nothing to do.
    Nothing,
    /// Wait for the running tasks, then stop.
    Shutdown,
}

/// The outcome of a task process that exited with `code`.
pub open spec fn exit_outcome(code: i32) -> TaskOutcome {
    if code == 0 {
        TaskOutcome::Success
    } else if code == 2 {
        TaskOutcome::Retry
    } else if code == 3 {
        TaskOutcome::Skipped
    } else {
        TaskOutcome::Failed
    }
}

/// The outcome of a task process that exited with `code`: 0 succeeded, 2
/// asks for a retry, 3 skipped; 1 and any other code failed.
pub fn outcome_for_exit_code(code: i32) -> (o: TaskOutcome)
    ensures
        o == exit_outcome(code),
{
    match code {
        0 => TaskOutcome::Success,
        1 => TaskOutcome::Failed,
        2 => TaskOutcome::Retry,
        3 => TaskOutcome::Skipped,
        _ => TaskOutcome::Failed,
    }
}

/// The error of a task that ran out of time.
pub fn timeout_error(timeout: &Duration) -> (s: String)
    ensures
        s@ == "Task timed out after "@ + decimal(timeout.secs_of()) + " seconds"@,
{
    let mut out: Vec<char> = Vec::new();
    push_str(&mut out, "Task timed out after ");
    push_decimal(&mut out, timeout.as_secs());
    push_str(&mut out, " seconds");
    string_of(out.as_slice())
}

/// The ids other than `id`, in order.
pub open spec fn without_id(s: Seq<Seq<char>>, id: Seq<char>) -> Seq<Seq<char>> {
    s.filter(|x: Seq<char>| x != id)
}

/// The executor's running tasks, by task id, and its concurrency limit.
pub struct TaskExecutor {
    active_tasks: Vec<String>,
    max_concurrent: usize,
}

/// The ids after `id` starts (a known id is not added twice).
pub open spec fn start_id(active: Seq<Seq<char>>, id: Seq<char>) -> Seq<Seq<char>> {
    if active.contains(id) {
        active
    } else {
        active.push(id)
    }
}

impl TaskExecutor {
    pub closed spec fn active(self) -> Seq<Seq<char>> {
        views(self.active_tasks@)
    }

    pub closed spec fn limit(self) -> nat {
        self.max_concurrent as nat
    }

    /// An executor running nothing, starting at most `max_concurrent` tasks
    /// at once.
    pub fn new(max_concurrent: usize) -> (e: Self)
        ensures
            e.active().len() == 0,
            e.limit() == max_concurrent,
    {
        let e = TaskExecutor { active_tasks: Vec::new(), max_concurrent };
        assert(views(e.active_tasks@) =~= Seq::<Seq<char>>::empty());
        e
    }

    /// The concurrency limit.
    pub fn max_concurrent(&self) -> (n: usize)
        ensures
            n == self.limit(),
    {
        self.max_concurrent
    }

    /// Tasks running.
    pub fn active_count(&self) -> (n: usize)
        ensures
            n == self.active().len(),
    {
        self.active_tasks.len()
    }

    fn find(&self, id: &str) -> (r: Option<usize>)
        ensures
            match r {
                Some(i) => i < self.active().len() && self.active()[i as int] == id@,
                None => !self.active().contains(id@),
            },
    {
        let ghost a = views(self.active_tasks@);
        let mut i: usize = 0;
        while i < self.active_tasks.len()
            invariant
                a == views(self.active_tasks@),
                i <= a.len(),
                forall|k: int| 0 <= k < i ==> #[trigger] a[k] != id@,
            decreases self.active_tasks.len() - i,
        {
            assert(a[i as int] == self.active_tasks@[i as int]@);
            if str_eq(self.active_tasks[i].as_str(), id) {
                return Some(i);
            }
            i = i + 1;
        }
        None
    }

    /// What to do on a command. A dispatched task starts, and counts as
    /// running, only while fewer than the limit run; a cancelled one stops
    /// counting, and is aborted when it was running.
    pub fn handle_command(&mut self, command: ExecutorCommand) -> (r: ExecutorAction)
        ensures
            final(self).limit() == old(self).limit(),
            old(self).active().len() <= old(self).limit() ==> final(self).active().len() <= final(self).limit(),
            match command {
                ExecutorCommand::DispatchTask { task, dag_id, run_id, attempt, logical_date, environment, params } => {
                    if old(self).active().len() >= old(self).limit() {
                        &&& r matches ExecutorAction::Deferred(id) && id == task.id
                        &&& final(self).active() == old(self).active()
                    } else {
                        &&& (r matches ExecutorAction::Start { task: t, context: c } && t == task
                            && c.dag_id == dag_id && c.run_id == run_id && c.task_id == task.id
                            && c.attempt == attempt && c.logical_date == logical_date
                            && c.environment == environment && c.params == params
                            && c.extra_env@.len() == 0)
                        &&& final(self).active() == start_id(old(self).active(), task.id@)
                    }
                },
                ExecutorCommand::CancelTask { task_id, .. } => {
                    &&& old(self).active().contains(task_id@) ==> (r matches ExecutorAction::Abort(id)
                        && id == task_id)
                    &&& !old(self).active().contains(task_id@) ==> r is Nothing
                    &&& final(self).active() == without_id(old(self).active(), task_id@)
                },
                ExecutorCommand::Shutdown => {
                    &&& r is Shutdown
                    &&& final(self).active() == old(self).active()
                },
            },
    {
        match command {
            ExecutorCommand::DispatchTask { task, dag_id, run_id, attempt, logical_date, environment, params } => {
                if self.active_tasks.len() >= self.max_concurrent {
                    return ExecutorAction::Deferred(task.id);
                }
                let ghost a = views(self.active_tasks@);
                if self.find(task.id.as_str()).is_none() {
                    self.active_tasks.push(task.id.clone());
                    assert(views(self.active_tasks@) =~= a.push(task.id@));
                }
                let task_id = task.id.clone();
                ExecutorAction::Start {
                    task,
                    context: TaskContext {
                        dag_id,
                        run_id,
                        task_id,
                        attempt,
                        logical_date,
                        environment,
                        params,
                        extra_env: Vec::new(),
                    },
                }
            },
            ExecutorCommand::CancelTask { task_id, .. } => {
                let found = self.find(task_id.as_str()).is_some();
                self.forget(task_id.as_str());
                if found {
                    ExecutorAction::Abort(task_id)
                } else {
                    ExecutorAction::Nothing
                }
            },
            ExecutorCommand::Shutdown => ExecutorAction::Shutdown,
        }
    }

    /// A task finished (or was given up on): it no longer counts as running.
    pub fn forget(&mut self, task_id: &str)
        ensures
            final(self).limit() == old(self).limit(),
            final(self).active() == without_id(old(self).active(), task_id@),
            final(self).active().len() <= old(self).active().len(),
    {
        let ghost a = views(self.active_tasks@);
        proof {
            a.lemma_filter_len(|x: Seq<char>| x != task_id@);
        }
        let mut kept: Vec<String> = Vec::new();
        let mut i: usize = 0;
        proof {
            reveal(Seq::filter);
        }
        assert(without_id(a.take(0), task_id@) =~= Seq::<Seq<char>>::empty());
        while i < self.active_tasks.len()
            invariant
                a == views(self.active_tasks@),
                i <= a.len(),
                views(kept@) == without_id(a.take(i as int), task_id@),
            decreases self.active_tasks.len() - i,
        {
            let ghost before = views(kept@);
            proof {
                reveal(Seq::filter);
            }
            assert(a.take(i + 1).drop_last() =~= a.take(i as int));
            assert(a.take(i + 1).last() == self.active_tasks@[i as int]@);
            if !str_eq(self.active_tasks[i].as_str(), task_id) {
                kept.push(self.active_tasks[i].clone());
                assert(views(kept@) =~= before.push(a[i as int]));
            }
            i = i + 1;
        }
        assert(a.take(i as int) =~= a);
        self.active_tasks = kept;
    }

    /// The shutdown wait ran out: nothing counts as running any more.
    pub fn abandon_all(&mut self)
        ensures
            final(self).limit() == old(self).limit(),
            final(self).active().len() == 0,
    {
        self.active_tasks = Vec::new();
        assert(views(self.active_tasks@) =~= Seq::<Seq<char>>::empty());
    }
}

} // verus!
