//! The application's state between user actions: the chosen workspace and
//! the translation task, with its progress, logs and cancellation.
use vstd::prelude::*;

use crate::error::{opt_view, plain_error, UserFacingError};
use crate::models::{
    LogLevel, TaskLogEntry, TaskProgressSnapshot, TaskStatus, TaskSummary, TranslationTask,
};
use crate::text::{owned, str_eq};

verus! {

/// The most log entries a task keeps in memory.
pub const MAX_IN_MEMORY_LOG_ENTRIES: usize = 2000;

// ---------------------------------------------------------------------------
// Views and copies of tasks
// ---------------------------------------------------------------------------

/// The mathematical value of a log entry.
pub open spec fn log_view(e: TaskLogEntry) -> (LogLevel, Seq<char>, u128) {
    (e.level, e.message@, e.timestamp_ms)
}

/// The views of a sequence of log entries.
pub open spec fn logs_view(v: Seq<TaskLogEntry>) -> Seq<(LogLevel, Seq<char>, u128)> {
    v.map_values(|e: TaskLogEntry| log_view(e))
}

/// The mathematical value of progress counters.
pub open spec fn progress_view(p: TaskProgressSnapshot) -> (usize, usize, usize, usize, u128, Option<
    Seq<char>,
>) {
    (
        p.scanned_files,
        p.pending_chars,
        p.completed_batches,
        p.total_batches,
        p.elapsed_ms,
        opt_view(p.output_directory),
    )
}

/// The mathematical value of an error.
pub open spec fn error_view(e: UserFacingError) -> (Seq<char>, Seq<char>, Option<Seq<char>>) {
    (e.title@, e.message@, opt_view(e.details))
}

/// The mathematical value of a summary.
pub open spec fn summary_view(s: TaskSummary) -> (
    usize,
    usize,
    usize,
    Option<Seq<char>>,
    Option<Seq<char>>,
    Option<Seq<char>>,
    Option<(Seq<char>, Seq<char>, Option<Seq<char>>)>,
) {
    (
        s.translated_files,
        s.translated_entries,
        s.pending_chars,
        opt_view(s.output_directory),
        opt_view(s.backup_directory),
        opt_view(s.log_file),
        match s.error {
            Some(e) => Some(error_view(e)),
            None => None,
        },
    )
}

/// The mathematical value of a task.
pub struct TaskView {
    pub task_id: Seq<char>,
    pub status: TaskStatus,
    pub progress: (usize, usize, usize, usize, u128, Option<Seq<char>>),
    pub logs: Seq<(LogLevel, Seq<char>, u128)>,
    pub summary: Option<
        (
            usize,
            usize,
            usize,
            Option<Seq<char>>,
            Option<Seq<char>>,
            Option<Seq<char>>,
            Option<(Seq<char>, Seq<char>, Option<Seq<char>>)>,
        ),
    >,
}

/// The mathematical value of a task.
pub open spec fn task_view(t: TranslationTask) -> TaskView {
    TaskView {
        task_id: t.task_id@,
        status: t.status,
        progress: progress_view(t.progress),
        logs: logs_view(t.logs@),
        summary: match t.summary {
            Some(s) => Some(summary_view(s)),
            None => None,
        },
    }
}

fn copy_opt(o: &Option<String>) -> (res: Option<String>)
    ensures
        res == *o,
{
    match o {
        Some(s) => Some(s.clone()),
        None => None,
    }
}

fn copy_log(e: &TaskLogEntry) -> (res: TaskLogEntry)
    ensures
        log_view(res) == log_view(*e),
{
    TaskLogEntry { level: e.level, message: e.message.clone(), timestamp_ms: e.timestamp_ms }
}

fn copy_progress(p: &TaskProgressSnapshot) -> (res: TaskProgressSnapshot)
    ensures
        res == *p,
{
    TaskProgressSnapshot {
        scanned_files: p.scanned_files,
        pending_chars: p.pending_chars,
        completed_batches: p.completed_batches,
        total_batches: p.total_batches,
        elapsed_ms: p.elapsed_ms,
        output_directory: copy_opt(&p.output_directory),
    }
}

fn copy_summary(s: &TaskSummary) -> (res: TaskSummary)
    ensures
        res == *s,
{
    TaskSummary {
        translated_files: s.translated_files,
        translated_entries: s.translated_entries,
        pending_chars: s.pending_chars,
        output_directory: copy_opt(&s.output_directory),
        backup_directory: copy_opt(&s.backup_directory),
        log_file: copy_opt(&s.log_file),
        error: match &s.error {
            Some(e) => Some(e.duplicate()),
            None => None,
        },
    }
}

/// A copy of a task.
pub fn copy_task(t: &TranslationTask) -> (res: TranslationTask)
    ensures
        task_view(res) == task_view(*t),
{
    let mut logs: Vec<TaskLogEntry> = Vec::new();
    let mut i: usize = 0;
    while i < t.logs.len()
        invariant
            i <= t.logs.len(),
            logs_view(logs@) == logs_view(t.logs@.take(i as int)),
        decreases t.logs.len() - i,
    {
        let ghost before = logs@;
        logs.push(copy_log(&t.logs[i]));
        assert(logs_view(logs@) =~= logs_view(before).push(log_view(t.logs@[i as int])));
        assert(logs_view(t.logs@.take(i + 1)) =~= logs_view(t.logs@.take(i as int)).push(
            log_view(t.logs@[i as int]),
        ));
        i = i + 1;
    }
    assert(t.logs@.take(t.logs.len() as int) =~= t.logs@);
    TranslationTask {
        task_id: t.task_id.clone(),
        status: t.status,
        progress: copy_progress(&t.progress),
        logs,
        summary: match &t.summary {
            Some(s) => Some(copy_summary(s)),
            None => None,
        },
    }
}

/// The view of an optional task.
pub open spec fn opt_task_view(t: Option<TranslationTask>) -> Option<TaskView> {
    match t {
        Some(x) => Some(task_view(x)),
        None => None,
    }
}

// ---------------------------------------------------------------------------
// State
// ---------------------------------------------------------------------------

/// The task being run or last run: the task as reported, when it started
/// (milliseconds on a monotonic clock), and whether cancellation was asked
/// for.
#[derive(Debug, Clone)]
pub struct TranslationTaskRecord {
    pub task: TranslationTask,
    pub started_at_ms: u128,
    pub cancelled: bool,
}

/// The chosen workspace and the current task.
#[derive(Debug, Clone)]
pub struct AppState {
    pub workspace_root: Option<String>,
    pub task: Option<TranslationTaskRecord>,
}

/// Milliseconds from `start` to `now` (zero if the clock reads earlier).
pub open spec fn elapsed(start: u128, now: u128) -> u128 {
    if now >= start {
        (now - start) as u128
    } else {
        0
    }
}

fn elapsed_exec(start: u128, now: u128) -> (res: u128)
    ensures
        res == elapsed(start, now),
{
    if now >= start {
        now - start
    } else {
        0
    }
}

/// The log after adding an entry: the oldest entries are dropped so that
/// at most `MAX_IN_MEMORY_LOG_ENTRIES` remain.
pub open spec fn log_after_push<A>(logs: Seq<A>, e: A) -> Seq<A> {
    let all = logs.push(e);
    if all.len() > MAX_IN_MEMORY_LOG_ENTRIES {
        all.skip(all.len() - MAX_IN_MEMORY_LOG_ENTRIES)
    } else {
        all
    }
}

/// Adds an entry at the end of a log and drops the oldest entries beyond
/// `MAX_IN_MEMORY_LOG_ENTRIES`.
fn push_bounded(logs: &mut Vec<TaskLogEntry>, entry: TaskLogEntry)
    ensures
        logs_view(final(logs)@) == log_after_push(logs_view(old(logs)@), log_view(entry)),
{
    let ghost all = logs_view(old(logs)@).push(log_view(entry));
    logs.push(entry);
    assert(logs_view(logs@) =~= all);
    if logs.len() > MAX_IN_MEMORY_LOG_ENTRIES {
        let overflow = logs.len() - MAX_IN_MEMORY_LOG_ENTRIES;
        let mut k: usize = 0;
        while k < overflow
            invariant
                k <= overflow,
                overflow == all.len() - MAX_IN_MEMORY_LOG_ENTRIES,
                logs@.len() == all.len() - k,
                logs_view(logs@) == all.skip(k as int),
            decreases overflow - k,
        {
            let ghost before = logs@;
            logs.remove(0);
            assert forall|j: int| 0 <= j < logs@.len() implies logs_view(logs@)[j] == all.skip(
                k + 1,
            )[j] by {
                assert(logs@[j] == before[j + 1]);
                assert(logs_view(before)[j + 1] == all.skip(k as int)[j + 1]);
            }
            assert(logs_view(logs@) =~= all.skip(k + 1));
            k = k + 1;
        }
    }
}

impl Default for AppState {
    fn default() -> (res: Self)
        ensures
            res.workspace_root is None,
            res.task is None,
    {
        AppState { workspace_root: None, task: None }
    }
}

impl AppState {
    /// The workspace of an action: the one given explicitly, or else the one
    /// chosen before; an error when there is neither.
    pub fn resolve_workspace_root(&self, explicit: Option<String>) -> (res: Result<String, UserFacingError>)
        ensures
            match explicit {
                Some(p) => res == Ok::<String, UserFacingError>(p),
                None => match self.workspace_root {
                    Some(r) => res == Ok::<String, UserFacingError>(r),
                    None => res matches Err(e) && e.is(
                        "Workspace Required"@,
                        "Select a workspace root before using this action."@,
                        None,
                    ),
                },
            },
    {
        match explicit {
            Some(p) => Ok(p),
            None => match &self.workspace_root {
                Some(r) => Ok(r.clone()),
                None => Err(
                    plain_error(
                        "Workspace Required",
                        "Select a workspace root before using this action.",
                    ),
                ),
            },
        }
    }

    /// Chooses the workspace; gives back its path.
    pub fn set_workspace_root(&mut self, root: String) -> (res: String)
        ensures
            final(self).workspace_root == Some(root),
            final(self).task == old(self).task,
            res == root,
    {
        let r = root.clone();
        self.workspace_root = Some(root);
        r
    }

    /// Starts tracking a new task, replacing any earlier one.
    pub fn begin_task(&mut self, task: TranslationTask, started_at_ms: u128)
        ensures
            final(self).workspace_root == old(self).workspace_root,
            final(self).task == Some(
                TranslationTaskRecord { task, started_at_ms, cancelled: false },
            ),
    {
        self.task = Some(TranslationTaskRecord { task, started_at_ms, cancelled: false });
    }

    /// A copy of the current task, if there is one.
    pub fn current_task(&self) -> (res: Option<TranslationTask>)
        ensures
            opt_task_view(res) == match self.task {
                Some(r) => Some(task_view(r.task)),
                None => None,
            },
    {
        match &self.task {
            Some(r) => Some(copy_task(&r.task)),
            None => None,
        }
    }

    /// The current task, unless a different task was asked for.
    pub fn task_status(&self, task_id: Option<String>) -> (res: Option<TranslationTask>)
        ensures
            opt_task_view(res) == match self.task {
                Some(r) => match task_id {
                    Some(id) => if r.task.task_id@ == id@ {
                        Some(task_view(r.task))
                    } else {
                        None
                    },
                    None => Some(task_view(r.task)),
                },
                None => None,
            },
    {
        match &self.task {
            Some(r) => match task_id {
                Some(id) => if str_eq(r.task.task_id.as_str(), id.as_str()) {
                    Some(copy_task(&r.task))
                } else {
                    None
                },
                None => Some(copy_task(&r.task)),
            },
            None => None,
        }
    }

    /// Asks the current task to stop: it is marked cancelled and its status
    /// becomes `Cancelling`; a copy of it is returned. Fails when there is
    /// no task, or when it is not the task asked for (nothing changes then).
    pub fn cancel_task(&mut self, task_id: &str) -> (res: Result<TranslationTask, UserFacingError>)
        ensures
            final(self).workspace_root == old(self).workspace_root,
            match old(self).task {
                None => final(self).task == old(self).task && (res matches Err(e) && e.is(
                    "Task Missing"@,
                    "No active task found."@,
                    None,
                )),
                Some(r) => if r.task.task_id@ != task_id@ {
                    final(self).task == old(self).task && (res matches Err(e) && e.is(
                        "Task Mismatch"@,
                        "The requested task does not match the active task."@,
                        None,
                    ))
                } else {
                    &&& final(self).task matches Some(n) && n.cancelled && n.started_at_ms
                        == r.started_at_ms && n.task == (TranslationTask {
                        status: TaskStatus::Cancelling,
                        ..r.task
                    })
                    &&& res matches Ok(t) && task_view(t) == task_view(
                        TranslationTask { status: TaskStatus::Cancelling, ..r.task },
                    )
                },
            },
    {
        match &mut self.task {
            None => Err(plain_error("Task Missing", "No active task found.")),
            Some(record) => {
                if !str_eq(record.task.task_id.as_str(), task_id) {
                    return Err(
                        plain_error(
                            "Task Mismatch",
                            "The requested task does not match the active task.",
                        ),
                    );
                }
                record.cancelled = true;
                record.task.status = TaskStatus::Cancelling;
                Ok(copy_task(&record.task))
            },
        }
    }

    /// Whether cancellation of the current task was asked for.
    pub fn is_cancelled(&self) -> (res: bool)
        ensures
            res == match self.task {
                Some(r) => r.cancelled,
                None => false,
            },
    {
        match &self.task {
            Some(r) => r.cancelled,
            None => false,
        }
    }

    /// Adds an entry to the current task's log, stamped with the time since
    /// the task started, dropping the oldest entries beyond
    /// `MAX_IN_MEMORY_LOG_ENTRIES`; returns a copy of the entry. Fails when
    /// there is no task.
    pub fn push_log(&mut self, level: LogLevel, message: String, now_ms: u128) -> (res: Result<
        TaskLogEntry,
        UserFacingError,
    >)
        ensures
            final(self).workspace_root == old(self).workspace_root,
            match old(self).task {
                None => final(self).task == old(self).task && (res matches Err(e) && e.is(
                    "Task Missing"@,
                    "No active task was found."@,
                    None,
                )),
                Some(r) => {
                    let entry = (level, message@, elapsed(r.started_at_ms, now_ms));
                    &&& res matches Ok(e) && log_view(e) == entry
                    &&& final(self).task matches Some(n) && n.started_at_ms == r.started_at_ms
                        && n.cancelled == r.cancelled && n.task.task_id == r.task.task_id
                        && n.task.status == r.task.status && n.task.progress == r.task.progress
                        && n.task.summary == r.task.summary && logs_view(n.task.logs@)
                        == log_after_push(logs_view(r.task.logs@), entry)
                },
            },
    {
        match &mut self.task {
            None => Err(plain_error("Task Missing", "No active task was found.")),
            Some(record) => {
                let entry = TaskLogEntry {
                    level,
                    message,
                    timestamp_ms: elapsed_exec(record.started_at_ms, now_ms),
                };
                let copy = copy_log(&entry);
                push_bounded(&mut record.task.logs, entry);
                Ok(copy)
            },
        }
    }

    /// Sets the totals found by scanning and refreshes the elapsed time.
    pub fn set_scan_totals(
        &mut self,
        scanned_files: usize,
        pending_chars: usize,
        total_batches: usize,
        now_ms: u128,
    ) -> (res: Result<(), UserFacingError>)
        ensures
            final(self).workspace_root == old(self).workspace_root,
            match old(self).task {
                None => final(self).task == old(self).task && (res matches Err(e) && e.is(
                    "Task Missing"@,
                    "No active task was found."@,
                    None,
                )),
                Some(r) => res is Ok && final(self).task == Some(
                    TranslationTaskRecord {
                        task: TranslationTask {
                            progress: TaskProgressSnapshot {
                                scanned_files,
                                pending_chars,
                                total_batches,
                                elapsed_ms: elapsed(r.started_at_ms, now_ms),
                                ..r.task.progress
                            },
                            ..r.task
                        },
                        ..r
                    },
                ),
            },
    {
        match &mut self.task {
            None => Err(plain_error("Task Missing", "No active task was found.")),
            Some(record) => {
                record.task.progress.scanned_files = scanned_files;
                record.task.progress.pending_chars = pending_chars;
                record.task.progress.total_batches = total_batches;
                record.task.progress.elapsed_ms = elapsed_exec(record.started_at_ms, now_ms);
                Ok(())
            },
        }
    }

    /// Counts one more finished batch and refreshes the elapsed time.
    pub fn complete_batch(&mut self, now_ms: u128) -> (res: Result<(), UserFacingError>)
        requires
            old(self).task matches Some(r) ==> r.task.progress.completed_batches < usize::MAX,
        ensures
            final(self).workspace_root == old(self).workspace_root,
            match old(self).task {
                None => final(self).task == old(self).task && (res matches Err(e) && e.is(
                    "Task Missing"@,
                    "No active task was found."@,
                    None,
                )),
                Some(r) => res is Ok && final(self).task == Some(
                    TranslationTaskRecord {
                        task: TranslationTask {
                            progress: TaskProgressSnapshot {
                                completed_batches: (r.task.progress.completed_batches + 1) as usize,
                                elapsed_ms: elapsed(r.started_at_ms, now_ms),
                                ..r.task.progress
                            },
                            ..r.task
                        },
                        ..r
                    },
                ),
            },
    {
        match &mut self.task {
            None => Err(plain_error("Task Missing", "No active task was found.")),
            Some(record) => {
                record.task.progress.completed_batches = record.task.progress.completed_batches + 1;
                record.task.progress.elapsed_ms = elapsed_exec(record.started_at_ms, now_ms);
                Ok(())
            },
        }
    }

    /// Marks all text as sent and refreshes the elapsed time.
    pub fn clear_pending(&mut self, now_ms: u128) -> (res: Result<(), UserFacingError>)
        ensures
            final(self).workspace_root == old(self).workspace_root,
            match old(self).task {
                None => final(self).task == old(self).task && (res matches Err(e) && e.is(
                    "Task Missing"@,
                    "No active task was found."@,
                    None,
                )),
                Some(r) => res is Ok && final(self).task == Some(
                    TranslationTaskRecord {
                        task: TranslationTask {
                            progress: TaskProgressSnapshot {
                                pending_chars: 0,
                                elapsed_ms: elapsed(r.started_at_ms, now_ms),
                                ..r.task.progress
                            },
                            ..r.task
                        },
                        ..r
                    },
                ),
            },
    {
        match &mut self.task {
            None => Err(plain_error("Task Missing", "No active task was found.")),
            Some(record) => {
                record.task.progress.pending_chars = 0;
                record.task.progress.elapsed_ms = elapsed_exec(record.started_at_ms, now_ms);
                Ok(())
            },
        }
    }

    /// Ends the current task with a status and a summary and refreshes the
    /// elapsed time; returns a copy of the task. Fails when there is no
    /// task.
    pub fn finish_task(&mut self, status: TaskStatus, summary: TaskSummary, now_ms: u128) -> (res:
        Result<TranslationTask, UserFacingError>)
        ensures
            final(self).workspace_root == old(self).workspace_root,
            match old(self).task {
                None => final(self).task == old(self).task && (res matches Err(e) && e.is(
                    "Task Missing"@,
                    "No active task was found."@,
                    None,
                )),
                Some(r) => {
                    let t = TranslationTask {
                        status,
                        summary: Some(summary),
                        progress: TaskProgressSnapshot {
                            elapsed_ms: elapsed(r.started_at_ms, now_ms),
                            ..r.task.progress
                        },
                        ..r.task
                    };
                    &&& final(self).task == Some(TranslationTaskRecord { task: t, ..r })
                    &&& res matches Ok(c) && task_view(c) == task_view(t)
                },
            },
    {
        match &mut self.task {
            None => Err(plain_error("Task Missing", "No active task was found.")),
            Some(record) => {
                record.task.status = status;
                record.task.summary = Some(summary);
                record.task.progress.elapsed_ms = elapsed_exec(record.started_at_ms, now_ms);
                Ok(copy_task(&record.task))
            },
        }
    }
}

// ---------------------------------------------------------------------------
// Laws
// ---------------------------------------------------------------------------

/// The in-memory log never grows beyond its bound: a log within the bound
/// stays within it after an entry is added, and the newest entry is kept
/// as the last one.
pub proof fn lemma_log_stays_bounded<A>(logs: Seq<A>, e: A)
    requires
        logs.len() <= MAX_IN_MEMORY_LOG_ENTRIES,
    ensures
        log_after_push(logs, e).len() <= MAX_IN_MEMORY_LOG_ENTRIES,
        log_after_push(logs, e).len() > 0,
        log_after_push(logs, e).last() == e,
{
}

} // verus!
