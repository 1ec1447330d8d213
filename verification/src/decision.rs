//! What to do about each file: leave it, fetch it, or fetch it again.
//!
//! The size that the remote service declares is the only sign of freshness.
//! A local file of that size counts as up to date, whatever it holds; any
//! other size makes it stale, and a stale file is deleted and fetched whole.
//!
//! Tasks that resolve to the same local path are not told apart. Each is
//! judged against what lies at the path when its turn comes, and the later
//! write wins.

use vstd::prelude::*;
use crate::entry::{EntryView, FileTask, RemoteEntry, TaskView};
use crate::text::contains_string;

verus! {

/// The verdict on one file.
#[derive(Clone, Copy, Debug, PartialEq, Eq, Structural)]
pub enum Decision {
    /// The local file has the declared size: nothing to do.
    Skip,
    /// The local file has another size: delete it, then fetch.
    Replace,
    /// There is no local file: fetch.
    Create,
}

/// The verdict for a file of declared size `declared_size`, given the
/// length of the local file, or `None` where there is none.
pub open spec fn decision_for(declared_size: nat, local_len: Option<nat>) -> Decision {
    match local_len {
        None => Decision::Create,
        Some(n) => if n == declared_size {
            Decision::Skip
        } else {
            Decision::Replace
        },
    }
}

/// A length as a natural number.
pub open spec fn len_view(local_len: Option<u64>) -> Option<nat> {
    match local_len {
        None => None,
        Some(n) => Some(n as nat),
    }
}

/// Decides what to do about `task`, given the length in bytes of the file
/// at its local path, or `None` if no file is there.
pub fn decide(task: &FileTask, local_len: Option<u64>) -> (d: Decision)
    ensures
        d == decision_for(task@.entry.declared_size, len_view(local_len)),
{
    match local_len {
        None => Decision::Create,
        Some(n) => if n == task.entry.declared_size {
            Decision::Skip
        } else {
            Decision::Replace
        },
    }
}

/// Whether an entry is kept away from the download queue: a directory, or a
/// file whose extension is on the exclusion list.
pub open spec fn is_excluded(entry: EntryView, exclusions: Seq<Seq<char>>) -> bool {
    entry.is_directory() || exclusions.contains(entry.extension)
}

/// The test that a task passes when its entry is not excluded.
pub open spec fn admitted(exclusions: Seq<Seq<char>>) -> spec_fn(TaskView) -> bool {
    |t: TaskView| !is_excluded(t.entry, exclusions)
}

/// Whether `entry` is kept away from the download queue.
pub fn excluded(entry: &RemoteEntry, exclusions: &Vec<String>) -> (r: bool)
    ensures
        r == is_excluded(entry@, exclusions.deep_view()),
{
    entry.is_directory() || contains_string(exclusions, entry.extension.as_str())
}

/// Keeps the tasks that may be downloaded, in their order. No task with an
/// excluded extension passes, whatever its size and wherever it was found.
pub fn select_downloads(tasks: Vec<FileTask>, exclusions: &Vec<String>) -> (kept: Vec<FileTask>)
    ensures
        kept.deep_view() == tasks.deep_view().filter(admitted(exclusions.deep_view())),
        forall|i: int|
            0 <= i < kept.len() ==> !is_excluded(
                (#[trigger] kept.deep_view()[i]).entry,
                exclusions.deep_view(),
            ),
{
    let ghost all = tasks.deep_view();
    let ghost raw = tasks@;
    let ghost pass = admitted(exclusions.deep_view());
    let mut kept: Vec<FileTask> = Vec::new();
    for task in it: tasks
        invariant
            it.seq() == raw,
            all == Seq::new(raw.len(), |i: int| raw[i]@),
            pass == admitted(exclusions.deep_view()),
            kept.deep_view() == all.take(it.index()).filter(pass),
    {
        let ghost k = it.index();
        assert(all.take(k + 1).drop_last() =~= all.take(k));
        assert(all.take(k + 1).filter(pass) == if pass(all[k]) {
            all.take(k).filter(pass).push(all[k])
        } else {
            all.take(k).filter(pass)
        }) by {
            reveal(Seq::filter);
        }
        if !excluded(&task.entry, exclusions) {
            kept.push(task);
        }
    }
    assert(all.take(raw.len() as int) =~= all);
    assert forall|i: int| 0 <= i < kept.len() implies !is_excluded(
        (#[trigger] kept.deep_view()[i]).entry,
        exclusions.deep_view(),
    ) by {
        all.lemma_filter_pred(pass, i);
    }
    kept
}

/// One act of bringing a file up to date.
#[derive(Clone, Copy, Debug, PartialEq, Eq, Structural)]
pub enum TransferStep {
    /// Delete the stale local file.
    DeleteLocal,
    /// Ask the remote service for the real download path of the entry.
    ResolvePath,
    /// Open the remote byte stream and write it to the local path.
    OpenStream,
}

/// The acts that a verdict calls for, in the order they are carried out.
/// Nothing happens for an up-to-date file. A stale file is deleted before
/// anything is fetched. An entry that is not directly downloadable has its
/// path looked up once, right before the stream is opened.
pub open spec fn steps_for(decision: Decision, downloadable: bool) -> Seq<TransferStep> {
    let fetch = if downloadable {
        seq![TransferStep::OpenStream]
    } else {
        seq![TransferStep::ResolvePath, TransferStep::OpenStream]
    };
    match decision {
        Decision::Skip => Seq::empty(),
        Decision::Create => fetch,
        Decision::Replace => seq![TransferStep::DeleteLocal] + fetch,
    }
}

/// Lists what has to be done for `task` under `decision`, in order.
pub fn transfer_steps(task: &FileTask, decision: Decision) -> (steps: Vec<TransferStep>)
    ensures
        steps@ == steps_for(decision, task@.entry.downloadable),
{
    let mut steps: Vec<TransferStep> = Vec::new();
    match decision {
        Decision::Skip => {
            return steps;
        },
        Decision::Replace => {
            steps.push(TransferStep::DeleteLocal);
        },
        Decision::Create => {},
    }
    if !task.entry.downloadable {
        steps.push(TransferStep::ResolvePath);
    }
    steps.push(TransferStep::OpenStream);
    steps
}

/// Puts the looked-up download path in place of the one the listing gave.
pub fn with_resolved_path(task: FileTask, path: String) -> (r: FileTask)
    ensures
        r@ == (TaskView {
            entry: EntryView { remote_path: path@, ..task@.entry },
            dir: task@.dir,
        }),
{
    let FileTask { entry, local_relative_dir } = task;
    let RemoteEntry { id, title, extension, downloadable, declared_size, remote_path: _ } = entry;
    FileTask {
        entry: RemoteEntry { id, title, extension, downloadable, declared_size, remote_path: path },
        local_relative_dir,
    }
}

/// How one file fared in a run.
#[derive(Clone, Copy, Debug, PartialEq, Eq, Structural)]
pub enum DownloadOutcome {
    SkippedUpToDate,
    ReplacedStale,
    NewlyCreated,
    Failed,
}

/// The outcome that follows from a verdict and from whether the transfer it
/// called for went through. An up-to-date file needs no transfer, so none
/// can fail.
pub open spec fn outcome_for(decision: Decision, transfer_ok: bool) -> DownloadOutcome {
    match decision {
        Decision::Skip => DownloadOutcome::SkippedUpToDate,
        Decision::Replace => if transfer_ok {
            DownloadOutcome::ReplacedStale
        } else {
            DownloadOutcome::Failed
        },
        Decision::Create => if transfer_ok {
            DownloadOutcome::NewlyCreated
        } else {
            DownloadOutcome::Failed
        },
    }
}

/// Names the outcome of one file.
pub fn outcome_of(decision: Decision, transfer_ok: bool) -> (o: DownloadOutcome)
    ensures
        o == outcome_for(decision, transfer_ok),
{
    match decision {
        Decision::Skip => DownloadOutcome::SkippedUpToDate,
        Decision::Replace => if transfer_ok {
            DownloadOutcome::ReplacedStale
        } else {
            DownloadOutcome::Failed
        },
        Decision::Create => if transfer_ok {
            DownloadOutcome::NewlyCreated
        } else {
            DownloadOutcome::Failed
        },
    }
}

/// The length of the file at `path` in a local store that maps each path
/// holding a file to that file's length; `None` where there is no file.
pub open spec fn stored_len(store: Map<Seq<char>, nat>, path: Seq<char>) -> Option<nat> {
    if store.dom().contains(path) {
        Some(store[path])
    } else {
        None
    }
}

/// The verdict on `task` against a local store.
pub open spec fn verdict_in(store: Map<Seq<char>, nat>, task: TaskView) -> Decision {
    decision_for(task.entry.declared_size, stored_len(store, task.local_path()))
}

/// The local store after `task` was brought up to date, provided that a
/// transfer, where one is called for, goes through and delivers as many
/// bytes as the remote service declared.
pub open spec fn synced(store: Map<Seq<char>, nat>, task: TaskView) -> Map<Seq<char>, nat> {
    match verdict_in(store, task) {
        Decision::Skip => store,
        _ => store.insert(task.local_path(), task.entry.declared_size),
    }
}

/// The local store after a run over `tasks`, first to last.
pub open spec fn synced_all(store: Map<Seq<char>, nat>, tasks: Seq<TaskView>) -> Map<
    Seq<char>,
    nat,
>
    decreases tasks.len(),
{
    if tasks.len() == 0 {
        store
    } else {
        synced(synced_all(store, tasks.drop_last()), tasks.last())
    }
}

/// How many byte streams a run over `tasks` opens: one for each task that
/// is not skipped when its turn comes.
pub open spec fn streams_opened(store: Map<Seq<char>, nat>, tasks: Seq<TaskView>) -> nat
    decreases tasks.len(),
{
    if tasks.len() == 0 {
        0
    } else {
        let before = synced_all(store, tasks.drop_last());
        streams_opened(store, tasks.drop_last()) + if verdict_in(before, tasks.last())
            == Decision::Skip {
            0nat
        } else {
            1nat
        }
    }
}

/// Whether no two of `tasks` write the same local file.
pub open spec fn paths_distinct(tasks: Seq<TaskView>) -> bool {
    forall|i: int, j: int|
        0 <= i < j < tasks.len() ==> (#[trigger] tasks[i]).local_path() != (
        #[trigger] tasks[j]).local_path()
}

proof fn lemma_run_leaves_declared_sizes(store: Map<Seq<char>, nat>, tasks: Seq<TaskView>)
    requires
        paths_distinct(tasks),
    ensures
        forall|i: int|
            0 <= i < tasks.len() ==> stored_len(
                synced_all(store, tasks),
                (#[trigger] tasks[i]).local_path(),
            ) == Some(tasks[i].entry.declared_size),
    decreases tasks.len(),
{
    if tasks.len() > 0 {
        let init = tasks.drop_last();
        assert(paths_distinct(init));
        lemma_run_leaves_declared_sizes(store, init);
        assert forall|i: int| 0 <= i < tasks.len() implies stored_len(
            synced_all(store, tasks),
            (#[trigger] tasks[i]).local_path(),
        ) == Some(tasks[i].entry.declared_size) by {
            if i < tasks.len() - 1 {
                assert(init[i] == tasks[i]);
            }
        }
    }
}

proof fn lemma_fresh_store_is_left_alone(store: Map<Seq<char>, nat>, tasks: Seq<TaskView>)
    requires
        forall|i: int|
            0 <= i < tasks.len() ==> stored_len(store, (#[trigger] tasks[i]).local_path())
                == Some(tasks[i].entry.declared_size),
    ensures
        synced_all(store, tasks) == store,
        streams_opened(store, tasks) == 0,
    decreases tasks.len(),
{
    if tasks.len() > 0 {
        lemma_fresh_store_is_left_alone(store, tasks.drop_last());
    }
}

/// Syncing is idempotent. After one run over tasks that write different
/// files, in which every transfer went through and delivered the declared
/// number of bytes, a second run over the same tasks skips each of them,
/// opens no stream and leaves every local length as it is.
pub proof fn lemma_second_run_is_idle(store: Map<Seq<char>, nat>, tasks: Seq<TaskView>)
    requires
        paths_distinct(tasks),
    ensures
        forall|i: int|
            0 <= i < tasks.len() ==> verdict_in(synced_all(store, tasks), #[trigger] tasks[i])
                == Decision::Skip,
        streams_opened(synced_all(store, tasks), tasks) == 0,
        synced_all(synced_all(store, tasks), tasks) == synced_all(store, tasks),
{
    lemma_run_leaves_declared_sizes(store, tasks);
    lemma_fresh_store_is_left_alone(synced_all(store, tasks), tasks);
}

/// A stale file ends up with the declared size: where the local length
/// differs from the declared one, the verdict is to replace, and after the
/// transfer the store holds the declared length at the task's path.
pub proof fn lemma_stale_is_replaced(store: Map<Seq<char>, nat>, task: TaskView)
    requires
        store.dom().contains(task.local_path()),
        store[task.local_path()] != task.entry.declared_size,
    ensures
        verdict_in(store, task) == Decision::Replace,
        stored_len(synced(store, task), task.local_path()) == Some(task.entry.declared_size),
{
}

} // verus!
