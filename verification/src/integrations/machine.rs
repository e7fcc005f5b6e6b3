//! A sync of two sides, one step at a time: what is to be transferred next, and what came of it.

use vstd::prelude::*;
use vstd::string::*;

use crate::clock::Timestamp;
use crate::integrations::sync::{CloudSync, Decision, LocalFile, SyncResult, SyncRun, SyncState};
use crate::integrations::{CloudFile, CloudProvider, IntegrationError};
use crate::table::Table;

verus! {

/// How a file is dealt with in a sync.
#[derive(Debug, Clone, Copy, PartialEq, Eq, Structural)]
pub enum TaskKind {
    /// Only the local side has it.
    Upload,
    /// Only the cloud has it.
    Download,
    /// Both sides have it.
    Compare,
}

/// A file that has to be dealt with in a sync.
#[derive(Debug)]
pub struct Task {
    pub kind: TaskKind,
    pub path: String,
}

/// What is to be done next.
#[derive(Debug)]
pub enum Step {
    /// Nothing about the task that was next.
    Nothing,
    /// Upload the local file to this path.
    Upload { path: String, file: LocalFile },
    /// Download the cloud's file to its path.
    Download(CloudFile),
    /// No task is left.
    Done,
}

/// A transfer whose outcome is awaited.
#[derive(Debug)]
pub enum Awaited {
    Nothing,
    Upload { path: String, modified_at: i64 },
    Download(CloudFile),
    /// The cloud's file under another name.
    Copy(CloudFile),
}

/// A sync under way.
pub struct SyncMachine<P: CloudProvider> {
    pub sync: CloudSync<P>,
    pub run: SyncRun,
    pub local: Table<LocalFile>,
    pub cloud: Table<CloudFile>,
    pub tasks: Vec<Task>,
    /// How many tasks were taken.
    pub taken: usize,
    pub awaited: Awaited,
}

/// Tasks, with their paths as characters.
pub open spec fn task_views(v: Seq<Task>) -> Seq<(TaskKind, Seq<char>)> {
    v.map_values(|t: Task| (t.kind, t.path@))
}

/// Tasks of a kind.
pub open spec fn of_kind(kind: TaskKind, paths: Seq<Seq<char>>) -> Seq<(TaskKind, Seq<char>)> {
    paths.map_values(|p: Seq<char>| (kind, p))
}

/// What only the local side has, where the direction lets it be uploaded.
pub open spec fn to_upload(
    direction: crate::integrations::sync::SyncDirection,
    local: Table<LocalFile>,
    cloud: Table<CloudFile>,
) -> Seq<Seq<char>> {
    if crate::integrations::sync::goes_up(direction) {
        crate::integrations::sync::those(
            crate::integrations::sync::keys(local),
            |k: Seq<char>| !cloud@.contains_key(k),
        )
    } else {
        Seq::empty()
    }
}

/// The files that only the cloud has, where the direction lets them be downloaded.
pub open spec fn to_download(
    direction: crate::integrations::sync::SyncDirection,
    local: Table<LocalFile>,
    cloud: Table<CloudFile>,
) -> Seq<Seq<char>> {
    if crate::integrations::sync::comes_down(direction) {
        crate::integrations::sync::those(
            crate::integrations::sync::keys(cloud),
            |k: Seq<char>| !local@.contains_key(k) && !cloud@[k].is_folder,
        )
    } else {
        Seq::empty()
    }
}

/// What both sides have.
pub open spec fn on_both_sides(local: Table<LocalFile>, cloud: Table<CloudFile>) -> Seq<Seq<char>> {
    crate::integrations::sync::those(
        crate::integrations::sync::keys(local),
        |k: Seq<char>| cloud@.contains_key(k),
    )
}

/// All tasks of a sync in a direction: uploads, downloads, and then what both sides have.
pub open spec fn plan(
    direction: crate::integrations::sync::SyncDirection,
    local: Table<LocalFile>,
    cloud: Table<CloudFile>,
) -> Seq<(TaskKind, Seq<char>)> {
    of_kind(TaskKind::Upload, to_upload(direction, local, cloud)) + of_kind(
        TaskKind::Download,
        to_download(direction, local, cloud),
    ) + of_kind(TaskKind::Compare, on_both_sides(local, cloud))
}

/// Whether the sides have the files that a task is about.
pub open spec fn founded(
    t: (TaskKind, Seq<char>),
    local: Map<Seq<char>, LocalFile>,
    cloud: Map<Seq<char>, CloudFile>,
) -> bool {
    match t.0 {
        TaskKind::Upload => local.contains_key(t.1),
        TaskKind::Download => cloud.contains_key(t.1),
        TaskKind::Compare => local.contains_key(t.1) && cloud.contains_key(t.1),
    }
}

/// Whether `s` is what is to be done where `d` was decided about a file that both sides have.
pub open spec fn carries_out(s: Step, d: Decision, path: Seq<char>, local: LocalFile, cloud: CloudFile)
    -> bool {
    match d {
        Decision::Nothing => s == Step::Nothing,
        Decision::Ask(_) => s == Step::Nothing,
        Decision::Upload => s matches Step::Upload { path: p, file } && p@ == path && file == local,
        Decision::Download => s == Step::Download(cloud),
        Decision::DownloadCopy(f) => s == Step::Download(f),
    }
}

/// Whether a decision left a conflict to the user, which the run remembers, or left the run as it
/// was.
pub open spec fn run_after(before: SyncRun, after: SyncRun, d: Decision) -> bool {
    match d {
        Decision::Ask(c) => {
            &&& after.transient == before.transient
            &&& after.result.conflicts@ == before.result.conflicts@.push(c)
            &&& after.result == (SyncResult {
                conflicts: after.result.conflicts,
                ..before.result
            })
        },
        _ => after == before,
    }
}

/// Whether `a` is the transfer that a step starts.
pub open spec fn awaits(a: Awaited, s: Step, copy: bool) -> bool {
    match s {
        Step::Upload { path, file } => a matches Awaited::Upload { path: p, modified_at } && p@
            == path@ && modified_at == file.modified_at,
        Step::Download(f) => if copy {
            a == Awaited::Copy(f)
        } else {
            a == Awaited::Download(f)
        },
        _ => a == Awaited::Nothing,
    }
}

/// Whether a task gives a step at a time, and the sync is then as `after`.
pub open spec fn takes<P: CloudProvider>(
    before: SyncMachine<P>,
    after: SyncMachine<P>,
    s: Step,
    at: Timestamp,
) -> bool {
    let path = before.tasks@[before.taken as int].path@;
    match before.tasks@[before.taken as int].kind {
        TaskKind::Upload => {
            &&& s matches Step::Upload { path: p, file } && p@ == path && file
                == before.local@[path]
            &&& awaits(after.awaited, s, false)
            &&& after.run == before.run
            &&& after.sync == before.sync
        },
        TaskKind::Download => {
            &&& s == Step::Download(before.cloud@[path])
            &&& awaits(after.awaited, s, false)
            &&& after.run == before.run
            &&& after.sync == before.sync
        },
        TaskKind::Compare => {
            &&& exists|d: Decision| #[trigger] compared(before, after, path, d, s, at)
            &&& after.sync.state == before.sync.state
            &&& after.sync.config == before.sync.config
            &&& after.sync.provider == before.sync.provider
            &&& after.sync.conflict_resolver.strategy() == before.sync.conflict_resolver.strategy()
        },
    }
}

/// Whether `d` is decided about a file that both sides have, and `s` carries it out.
pub open spec fn compared<P: CloudProvider>(
    before: SyncMachine<P>,
    after: SyncMachine<P>,
    path: Seq<char>,
    d: Decision,
    s: Step,
    at: Timestamp,
) -> bool {
    &&& crate::integrations::sync::is_decision(
        d,
        before.sync.config.direction,
        before.sync.conflict_resolver.strategy(),
        before.sync.state.last_sync,
        before.sync.state.seen(path),
        before.local@[path],
        before.cloud@[path],
        at,
    )
    &&& carries_out(s, d, path, before.local@[path], before.cloud@[path])
    &&& awaits(after.awaited, s, d is DownloadCopy)
    &&& run_after(before.run, after.run, d)
    &&& after.sync.conflict_resolver.pending() == crate::integrations::sync::waiting(
        before.sync.conflict_resolver.pending(),
        d,
    )
}

fn push_tasks(tasks: &mut Vec<Task>, kind: TaskKind, paths: &Vec<String>)
    ensures
        task_views(final(tasks)@) == task_views(old(tasks)@) + of_kind(
            kind,
            crate::text::texts(paths@),
        ),
{
    let ghost was = task_views(tasks@);
    let ghost all = of_kind(kind, crate::text::texts(paths@));
    let mut i: usize = 0;
    assert(was + all.take(0) =~= was);
    while i < paths.len()
        invariant
            i <= paths@.len(),
            all == of_kind(kind, crate::text::texts(paths@)),
            task_views(tasks@) == was + all.take(i as int),
        decreases paths@.len() - i,
    {
        let ghost before = task_views(tasks@);
        tasks.push(Task { kind, path: paths[i].clone() });
        assert(task_views(tasks@) =~= before.push(all[i as int]));
        assert(task_views(tasks@) =~= was + all.take(i as int + 1));
        i += 1;
    }
    assert(all.take(i as int) =~= all);
}

impl<P: CloudProvider> SyncMachine<P> {
    /// The sides have what the tasks are about, and no more transfers are counted than tasks were
    /// taken.
    pub open spec fn wf(&self) -> bool {
        &&& self.sync.wf()
        &&& self.local.wf()
        &&& self.cloud.wf()
        &&& self.taken <= self.tasks@.len()
        &&& forall|i: int|
            0 <= i < self.tasks@.len() ==> founded(
                (self.tasks@[i].kind, (#[trigger] self.tasks@[i]).path@),
                self.local@,
                self.cloud@,
            )
        &&& self.run.result.uploaded + self.run.result.downloaded + (if self.awaited
            == Awaited::Nothing {
            0int
        } else {
            1
        }) <= self.taken
    }

    /// A sync of two sides that were listed.
    pub fn new(sync: CloudSync<P>, local: Table<LocalFile>, cloud: Table<CloudFile>) -> (r: Self)
        requires
            sync.wf(),
            local.wf(),
            cloud.wf(),
        ensures
            r.wf(),
            r.sync == sync,
            r.local == local,
            r.cloud == cloud,
            task_views(r.tasks@) == plan(sync.config.direction, local, cloud),
            r.taken == 0,
            r.awaited == Awaited::Nothing,
            !r.run.transient,
            r.run.result.status == crate::integrations::sync::SyncStatus::Success,
            r.run.result.uploaded == 0,
            r.run.result.downloaded == 0,
            r.run.result.deleted == 0,
            r.run.result.conflicts@.len() == 0,
            r.run.result.errors@.len() == 0,
    {
        let parts = sync.partition(&local, &cloud);
        let mut tasks: Vec<Task> = Vec::new();
        push_tasks(&mut tasks, TaskKind::Upload, &parts.uploads);
        push_tasks(&mut tasks, TaskKind::Download, &parts.downloads);
        push_tasks(&mut tasks, TaskKind::Compare, &parts.common);
        let ghost all = plan(sync.config.direction, local, cloud);
        assert(task_views(tasks@) =~= all);
        assert forall|i: int| 0 <= i < tasks@.len() implies founded(
            (tasks@[i].kind, (#[trigger] tasks@[i]).path@),
            local@,
            cloud@,
        ) by {
            let k = tasks@[i].path@;
            assert(task_views(tasks@)[i] == (tasks@[i].kind, k));
            crate::integrations::sync::law_every_path_has_one_task(local, cloud, k);
            lemma_origin(sync.config.direction, local, cloud, i);
        }
        SyncMachine {
            sync,
            run: SyncRun::new(),
            local,
            cloud,
            tasks,
            taken: 0,
            awaited: Awaited::Nothing,
        }
    }

    /// Take the next task. A transfer whose outcome was not reported counts as none.
    pub fn step(&mut self, at: Timestamp) -> (r: Step)
        requires
            old(self).wf(),
            at.valid(),
        ensures
            final(self).wf(),
            final(self).local == old(self).local,
            final(self).cloud == old(self).cloud,
            final(self).tasks == old(self).tasks,
            if old(self).taken < old(self).tasks@.len() {
                &&& final(self).taken == old(self).taken + 1
                &&& takes(*old(self), *final(self), r, at)
            } else {
                &&& r == Step::Done
                &&& *final(self) == (SyncMachine { awaited: Awaited::Nothing, ..*old(self) })
            },
    {
        self.awaited = Awaited::Nothing;
        if self.taken >= self.tasks.len() {
            return Step::Done;
        }
        let ghost before = *old(self);
        let i: usize = self.taken;
        self.taken = i + 1;
        let kind = self.tasks[i].kind;
        let path = self.tasks[i].path.clone();
        assert(founded((self.tasks@[i as int].kind, self.tasks@[i as int].path@), self.local@, self.cloud@));
        match kind {
            TaskKind::Upload => match self.local.get(path.as_str()) {
                Some(file) => {
                    let file = file.clone();
                    self.awaited =
                    Awaited::Upload { path: path.clone(), modified_at: file.modified_at };
                    Step::Upload { path, file }
                },
                None => Step::Nothing,
            },
            TaskKind::Download => match self.cloud.get(path.as_str()) {
                Some(file) => {
                    let file = file.clone();
                    self.awaited = Awaited::Download(file.clone());
                    Step::Download(file)
                },
                None => Step::Nothing,
            },
            TaskKind::Compare => match (
                self.local.get(path.as_str()),
                self.cloud.get(path.as_str()),
            ) {
                (Some(local), Some(cloud)) => {
                    let local = local.clone();
                    let cloud = cloud.clone();
                    let d = self.sync.decide(path.as_str(), &local, &cloud, at);
                    let ghost decided = d;
                    let r = match d {
                        Decision::Nothing => Step::Nothing,
                        Decision::Ask(conflict) => {
                            self.run.record_conflict(conflict);
                            Step::Nothing
                        },
                        Decision::Upload => {
                            self.awaited =
                            Awaited::Upload { path: path.clone(), modified_at: local.modified_at };
                            Step::Upload { path, file: local }
                        },
                        Decision::Download => {
                            self.awaited = Awaited::Download(cloud.clone());
                            Step::Download(cloud)
                        },
                        Decision::DownloadCopy(file) => {
                            self.awaited = Awaited::Copy(file.clone());
                            Step::Download(file)
                        },
                    };
                    assert(compared(before, *self, path@, decided, r, at));
                    r
                },
                _ => Step::Nothing,
            },
        }
    }

    /// What an upload came to.
    pub fn uploaded(&mut self, outcome: Result<CloudFile, IntegrationError>)
        requires
            old(self).wf(),
        ensures
            final(self).wf(),
            final(self).local == old(self).local,
            final(self).cloud == old(self).cloud,
            final(self).tasks == old(self).tasks,
            final(self).taken == old(self).taken,
            match old(self).awaited {
                Awaited::Upload { path, modified_at } => {
                    &&& final(self).awaited == Awaited::Nothing
                    &&& final(self).sync.same_setup(old(self).sync)
                    &&& match outcome {
                        Ok(file) => {
                            &&& crate::integrations::sync::transferred(
                                old(self).sync.state,
                                final(self).sync.state,
                                path@,
                                file,
                                modified_at,
                            )
                            &&& final(self).run == (SyncRun {
                                result: SyncResult {
                                    uploaded: (old(self).run.result.uploaded + 1) as usize,
                                    ..old(self).run.result
                                },
                                ..old(self).run
                            })
                        },
                        Err(e) => {
                            &&& final(self).sync.state == old(self).sync.state
                            &&& crate::integrations::sync::failed(
                                old(self).run,
                                final(self).run,
                                "Upload "@ + path@ + " failed: "@
                                    + crate::integrations::error_text(e@),
                                e@,
                            )
                        },
                    }
                },
                _ => *final(self) == *old(self),
            },
    {
        let (path, modified_at): (String, i64) = match &self.awaited {
            Awaited::Upload { path, modified_at } => (path.clone(), *modified_at),
            _ => {
                return;
            },
        };
        self.awaited = Awaited::Nothing;
        self.sync.record_upload(path.as_str(), modified_at, outcome, &mut self.run);
    }

    /// What a download came to.
    pub fn downloaded(&mut self, outcome: Result<(), IntegrationError>)
        requires
            old(self).wf(),
        ensures
            final(self).wf(),
            final(self).local == old(self).local,
            final(self).cloud == old(self).cloud,
            final(self).tasks == old(self).tasks,
            final(self).taken == old(self).taken,
            match old(self).awaited {
                Awaited::Download(f) => {
                    &&& final(self).awaited == Awaited::Nothing
                    &&& final(self).sync.same_setup(old(self).sync)
                    &&& crate::integrations::sync::downloaded(
                        old(self).sync.state,
                        final(self).sync.state,
                        old(self).run,
                        final(self).run,
                        f,
                        outcome,
                        "Download "@ + f.path@ + " failed: "@,
                    )
                },
                Awaited::Copy(f) => {
                    &&& final(self).awaited == Awaited::Nothing
                    &&& final(self).sync.same_setup(old(self).sync)
                    &&& crate::integrations::sync::downloaded(
                        old(self).sync.state,
                        final(self).sync.state,
                        old(self).run,
                        final(self).run,
                        f,
                        outcome,
                        "Download conflict copy failed: "@,
                    )
                },
                _ => *final(self) == *old(self),
            },
    {
        let (file, copy): (CloudFile, bool) = match &self.awaited {
            Awaited::Download(f) => (f.clone(), false),
            Awaited::Copy(f) => (f.clone(), true),
            _ => {
                return;
            },
        };
        self.awaited = Awaited::Nothing;
        if copy {
            self.sync.record_copy(&file, outcome, &mut self.run);
        } else {
            self.sync.record_download(&file, outcome, &mut self.run);
        }
    }

    /// The sync is over: what it came to, and the state for the next one.
    pub fn finish(self, seconds: i64, duration_ms: u64) -> (r: (CloudSync<P>, SyncRun))
        requires
            self.wf(),
        ensures
            r.0.wf(),
            r.0.same_setup(self.sync),
            r.0.state == (SyncState { last_sync: Some(seconds), ..self.sync.state }),
            r.1 == (SyncRun {
                result: SyncResult {
                    status: if self.run.result.errors@.len() == 0 {
                        self.run.result.status
                    } else if self.run.result.uploaded > 0 || self.run.result.downloaded > 0 {
                        crate::integrations::sync::SyncStatus::PartialSuccess
                    } else {
                        crate::integrations::sync::SyncStatus::Failed
                    },
                    duration_ms,
                    ..self.run.result
                },
                ..self.run
            }),
    {
        let mut sync = self.sync;
        let mut run = self.run;
        sync.finish_sync(&mut run, seconds);
        run.result.duration_ms = duration_ms;
        (sync, run)
    }
}

/// Where a task of the plan comes from.
proof fn lemma_origin(
    direction: crate::integrations::sync::SyncDirection,
    local: Table<LocalFile>,
    cloud: Table<CloudFile>,
    i: int,
)
    requires
        0 <= i < plan(direction, local, cloud).len(),
    ensures
        match plan(direction, local, cloud)[i] {
            (TaskKind::Upload, k) => to_upload(direction, local, cloud).contains(k),
            (TaskKind::Download, k) => to_download(direction, local, cloud).contains(k),
            (TaskKind::Compare, k) => on_both_sides(local, cloud).contains(k),
        },
{
    let u = to_upload(direction, local, cloud);
    let d = to_download(direction, local, cloud);
    let c = on_both_sides(local, cloud);
    let t = plan(direction, local, cloud)[i];
    if i < u.len() {
        assert(t == (TaskKind::Upload, u[i]));
    } else if i < u.len() + d.len() {
        assert(t == (TaskKind::Download, d[i - u.len()]));
    } else {
        assert(t == (TaskKind::Compare, c[i - u.len() - d.len()]));
    }
}

/// A sync that only downloads never asks for an upload, and one that only uploads never asks for a
/// download, whatever the task.
pub proof fn law_steps_respect_the_direction<P: CloudProvider>(
    before: SyncMachine<P>,
    after: SyncMachine<P>,
    s: Step,
    at: Timestamp,
)
    requires
        before.wf(),
        before.taken < before.tasks@.len(),
        task_views(before.tasks@) == plan(before.sync.config.direction, before.local, before.cloud),
        takes(before, after, s, at),
    ensures
        before.sync.config.direction == crate::integrations::sync::SyncDirection::Download ==> s
            !is Upload,
        before.sync.config.direction == crate::integrations::sync::SyncDirection::Upload ==> s
            !is Download,
{
    let i = before.taken as int;
    let direction = before.sync.config.direction;
    let t = task_views(before.tasks@)[i];
    assert(t == (before.tasks@[i].kind, before.tasks@[i].path@));
    lemma_origin(direction, before.local, before.cloud, i);
    if t.0 == TaskKind::Compare {
        let d = choose|d: Decision| #[trigger] compared(before, after, t.1, d, s, at);
        crate::integrations::sync::law_direction_is_respected(
            d,
            direction,
            before.sync.conflict_resolver.strategy(),
            before.sync.state.last_sync,
            before.sync.state.seen(t.1),
            before.local@[t.1],
            before.cloud@[t.1],
            at,
        );
    }
}

/// The folders of the cloud are never downloaded.
pub proof fn law_folders_are_not_downloaded<P: CloudProvider>(
    before: SyncMachine<P>,
    after: SyncMachine<P>,
    s: Step,
    at: Timestamp,
)
    requires
        before.wf(),
        before.taken < before.tasks@.len(),
        task_views(before.tasks@) == plan(before.sync.config.direction, before.local, before.cloud),
        before.tasks@[before.taken as int].kind == TaskKind::Download,
        takes(before, after, s, at),
    ensures
        s matches Step::Download(f) && !f.is_folder,
{
    let i = before.taken as int;
    let k = before.tasks@[i].path@;
    assert(task_views(before.tasks@)[i] == (TaskKind::Download, k));
    let direction = before.sync.config.direction;
    crate::integrations::sync::law_every_path_has_one_task(before.local, before.cloud, k);
    lemma_origin(direction, before.local, before.cloud, i);
}

/// A failure that may go well another time is never forgotten: once the run is marked it stays
/// marked, so that the end of the sync leaves the cursor where it was.
pub proof fn law_passing_failures_are_remembered(
    before: SyncState,
    after: SyncState,
    run_before: SyncRun,
    run_after: SyncRun,
    file: CloudFile,
    outcome: Result<(), IntegrationError>,
    what: Seq<char>,
)
    requires
        crate::integrations::sync::downloaded(
            before,
            after,
            run_before,
            run_after,
            file,
            outcome,
            what,
        ),
    ensures
        run_before.transient ==> run_after.transient,
        outcome matches Err(e) ==> run_after.transient == (run_before.transient
            || !crate::integrations::permanent(e@)),
{
}

/// How a delta sync goes on once the provider was asked for changes.
#[derive(Debug)]
pub enum Changes {
    /// Apply these changes; the next sync starts at the cursor.
    Apply { changes: Vec<CloudFile>, cursor: Option<String> },
    /// The provider has forgotten the cursor: ask once more, from no cursor, for the latest one.
    AskLatest,
    /// Sync in full; the next sync starts at this cursor, which was taken before.
    Resync { cursor: Option<String> },
    /// The sync fails.
    Fail(IntegrationError),
}

/// What the answer to a request for changes leads to; `forgotten` tells whether the provider has
/// forgotten the cursor, and was asked for the latest one. A cursor that is taken before a full sync
/// misses nothing that changes during it. The latest cursor is asked for once: where that fails,
/// the sync does.
pub fn after_changes(
    forgotten: bool,
    answer: Result<(Vec<CloudFile>, Option<String>), IntegrationError>,
) -> (r: Changes)
    ensures
        r == (match answer {
            Ok((changes, cursor)) => if forgotten {
                Changes::Resync { cursor }
            } else {
                Changes::Apply { changes, cursor }
            },
            Err(e) => if e is ResyncRequired && !forgotten {
                Changes::AskLatest
            } else {
                Changes::Fail(e)
            },
        }),
{
    match answer {
        Ok((changes, cursor)) => {
            if forgotten {
                Changes::Resync { cursor }
            } else {
                Changes::Apply { changes, cursor }
            }
        },
        Err(e) => match e {
            IntegrationError::ResyncRequired(_) => {
                if forgotten {
                    Changes::Fail(e)
                } else {
                    Changes::AskLatest
                }
            },
            _ => Changes::Fail(e),
        },
    }
}

/// What is to be done next about the changes of the cloud.
#[derive(Debug)]
pub enum DeltaStep {
    /// Nothing about the change that was next.
    Nothing,
    /// See what is at this local path.
    Look(String),
    /// No change is left.
    Done,
}

/// What a change waits for.
#[derive(Debug, Clone, Copy, PartialEq, Eq, Structural)]
pub enum Pending {
    Nothing,
    /// What is at the local path of the change that was taken last.
    Look,
    /// The outcome of the download of the change that was taken last.
    Download,
}

/// A sync of the cloud's changes under way.
pub struct DeltaMachine<P: CloudProvider> {
    pub sync: CloudSync<P>,
    pub run: SyncRun,
    pub changes: Vec<CloudFile>,
    /// How many changes were taken.
    pub taken: usize,
    pub pending: Pending,
}

/// Whether taking `change` gives `s`, and leaves the run as `after`.
pub open spec fn takes_change(
    root: Seq<char>,
    change: CloudFile,
    s: DeltaStep,
    before: SyncRun,
    after: SyncRun,
) -> bool {
    let rel = crate::integrations::paths::unrooted(change.path@);
    if change.is_folder || change.deleted {
        s == DeltaStep::Nothing && after == before
    } else {
        match crate::integrations::paths::path_fault(rel) {
            None => {
                &&& s matches DeltaStep::Look(p) && p@ == crate::integrations::paths::descend(
                    root,
                    crate::text::split_on(rel, '/'),
                )
                &&& after == before
            },
            Some(why) => {
                let e = crate::integrations::IntegrationErrorView::InvalidPath(
                    crate::integrations::paths::refusal(rel, why),
                );
                &&& s == DeltaStep::Nothing
                &&& crate::integrations::sync::failed(
                    before,
                    after,
                    "Skipped "@ + change.path@ + ": "@ + crate::integrations::error_text(e),
                    e,
                )
            },
        }
    }
}

impl<P: CloudProvider> DeltaMachine<P> {
    /// No more downloads are counted than changes were taken.
    pub open spec fn wf(&self) -> bool {
        &&& self.sync.wf()
        &&& self.taken <= self.changes@.len()
        &&& self.pending != Pending::Nothing ==> self.taken > 0
        &&& self.run.result.downloaded + (if self.pending == Pending::Nothing {
            0int
        } else {
            1
        }) <= self.taken
    }

    /// A sync of the changes that the cloud reported.
    pub fn new(sync: CloudSync<P>, changes: Vec<CloudFile>) -> (r: Self)
        requires
            sync.wf(),
        ensures
            r.wf(),
            r.sync == sync,
            r.changes == changes,
            r.taken == 0,
            r.pending == Pending::Nothing,
            !r.run.transient,
            r.run.result.status == crate::integrations::sync::SyncStatus::Success,
            r.run.result.uploaded == 0,
            r.run.result.downloaded == 0,
            r.run.result.deleted == 0,
            r.run.result.conflicts@.len() == 0,
            r.run.result.errors@.len() == 0,
    {
        DeltaMachine { sync, run: SyncRun::new(), changes, taken: 0, pending: Pending::Nothing }
    }

    /// Take the next change.
    pub fn step(&mut self) -> (r: DeltaStep)
        requires
            old(self).wf(),
        ensures
            final(self).wf(),
            final(self).sync == old(self).sync,
            final(self).changes == old(self).changes,
            final(self).pending == (if r is Look {
                Pending::Look
            } else {
                Pending::Nothing
            }),
            if old(self).taken < old(self).changes@.len() {
                &&& final(self).taken == old(self).taken + 1
                &&& takes_change(
                    old(self).sync.config.local_path@,
                    old(self).changes@[old(self).taken as int],
                    r,
                    old(self).run,
                    final(self).run,
                )
            } else {
                &&& r == DeltaStep::Done
                &&& final(self).taken == old(self).taken
                &&& final(self).run == old(self).run
            },
    {
        self.pending = Pending::Nothing;
        if self.taken >= self.changes.len() {
            return DeltaStep::Done;
        }
        let i: usize = self.taken;
        self.taken = i + 1;
        match self.sync.change_path(&self.changes[i], &mut self.run) {
            Some(path) => {
                self.pending = Pending::Look;
                DeltaStep::Look(path)
            },
            None => DeltaStep::Nothing,
        }
    }

    /// What is at the local path of the change, at a time: the file to download, if any.
    pub fn looked(&mut self, local: Option<LocalFile>, at: Timestamp) -> (r: Option<CloudFile>)
        requires
            old(self).wf(),
            at.valid(),
        ensures
            final(self).wf(),
            final(self).changes == old(self).changes,
            final(self).taken == old(self).taken,
            final(self).pending == (if r is Some {
                Pending::Download
            } else {
                Pending::Nothing
            }),
            final(self).sync.state == old(self).sync.state,
            final(self).sync.config == old(self).sync.config,
            final(self).sync.provider == old(self).sync.provider,
            final(self).sync.conflict_resolver.strategy()
                == old(self).sync.conflict_resolver.strategy(),
            final(self).sync.conflict_resolver.pending() == (
            if final(self).run.result.conflicts@.len() > old(self).run.result.conflicts@.len() {
                crate::integrations::sync::waiting(
                    old(self).sync.conflict_resolver.pending(),
                    Decision::Ask(final(self).run.result.conflicts@.last()),
                )
            } else {
                old(self).sync.conflict_resolver.pending()
            }),
            if old(self).pending != Pending::Look {
                r is None && final(self).run == old(self).run
            } else {
                let change = old(self).changes@[old(self).taken - 1];
                match settled(
                    old(self).sync.conflict_resolver.strategy(),
                    old(self).sync.state.seen(change.path@),
                    change,
                    local,
                    at,
                ) {
                    Settled::Download => r == Some(change) && final(self).run == old(self).run,
                    Settled::Nothing => r is None && final(self).run == old(self).run,
                    Settled::Ask => {
                        &&& r is None
                        &&& final(self).run.transient == old(self).run.transient
                        &&& final(self).run.result == (SyncResult {
                            conflicts: final(self).run.result.conflicts,
                            ..old(self).run.result
                        })
                        &&& final(self).run.result.conflicts@.len()
                            == old(self).run.result.conflicts@.len() + 1
                        &&& final(self).run.result.conflicts@.drop_last()
                            == old(self).run.result.conflicts@
                        &&& local matches Some(l) && crate::integrations::sync::asked_conflict(
                            final(self).run.result.conflicts@.last(),
                            l,
                            change,
                            crate::integrations::conflict::ConflictType::BothModified,
                        )
                    },
                }
            },
    {
        let due = self.pending == Pending::Look;
        self.pending = Pending::Nothing;
        if !due {
            return None;
        }
        let change = self.changes[self.taken - 1].clone();
        match self.sync.decide_change(&change, local, at) {
            Decision::Download => {
                self.pending = Pending::Download;
                Some(change)
            },
            Decision::Ask(conflict) => {
                self.run.record_conflict(conflict);
                assert(self.run.result.conflicts@.drop_last() =~= old(self).run.result.conflicts@);
                None
            },
            _ => None,
        }
    }

    /// What the download of the change came to.
    pub fn downloaded(&mut self, outcome: Result<(), IntegrationError>)
        requires
            old(self).wf(),
        ensures
            final(self).wf(),
            final(self).changes == old(self).changes,
            final(self).taken == old(self).taken,
            if old(self).pending == Pending::Download {
                &&& final(self).pending == Pending::Nothing
                &&& final(self).sync.same_setup(old(self).sync)
                &&& crate::integrations::sync::downloaded(
                    old(self).sync.state,
                    final(self).sync.state,
                    old(self).run,
                    final(self).run,
                    old(self).changes@[old(self).taken - 1],
                    outcome,
                    "Download failed: "@,
                )
            } else {
                *final(self) == *old(self)
            },
    {
        if self.pending == Pending::Download {
            self.pending = Pending::Nothing;
            self.sync.record_change(&self.changes[self.taken - 1], outcome, &mut self.run);
        }
    }

    /// The sync is over: what it came to, and the state for the next one, whose changes start at
    /// `cursor` unless something failed that may go well another time.
    pub fn finish(self, cursor: Option<String>, seconds: i64, duration_ms: u64) -> (r: (
        CloudSync<P>,
        SyncRun,
    ))
        requires
            self.wf(),
        ensures
            r.0.wf(),
            r.0.same_setup(self.sync),
            r.0.state == (SyncState {
                last_sync: Some(seconds),
                cursor: if self.run.transient {
                    self.sync.state.cursor
                } else {
                    cursor
                },
                ..self.sync.state
            }),
            r.1 == (SyncRun {
                result: SyncResult {
                    status: if self.run.result.errors@.len() == 0 {
                        self.run.result.status
                    } else {
                        crate::integrations::sync::SyncStatus::PartialSuccess
                    },
                    duration_ms,
                    ..self.run.result
                },
                ..self.run
            }),
    {
        let mut sync = self.sync;
        let mut run = self.run;
        sync.finish_delta(cursor, &mut run, seconds);
        run.result.duration_ms = duration_ms;
        (sync, run)
    }
}

/// What is done about a change once its local path was looked at.
pub enum Settled {
    Download,
    Nothing,
    Ask,
}

/// A change is downloaded where nothing newer than what was last seen is at its local path, and
/// else dealt with as the strategy says.
pub open spec fn settled(
    strategy: crate::integrations::conflict::ConflictStrategy,
    seen: i64,
    change: CloudFile,
    local: Option<LocalFile>,
    at: Timestamp,
) -> Settled {
    match local {
        None => Settled::Download,
        Some(local) => if local.modified_at <= seen {
            Settled::Download
        } else {
            match crate::integrations::conflict::resolution_of(
                strategy,
                crate::integrations::sync::both_modified(local, change),
                at,
            ) {
                crate::integrations::conflict::ResolutionView::UseCloud => Settled::Download,
                crate::integrations::conflict::ResolutionView::ManualRequired => Settled::Ask,
                _ => Settled::Nothing,
            }
        },
    }
}

/// A path is uploaded, downloaded or compared exactly where its sides and the direction call for
/// it: uploaded where only the local side has it, downloaded where only the cloud has it and it is
/// no folder, compared where both have it.
pub proof fn law_every_path_is_planned(
    direction: crate::integrations::sync::SyncDirection,
    local: Table<LocalFile>,
    cloud: Table<CloudFile>,
    k: Seq<char>,
)
    requires
        local.wf(),
        cloud.wf(),
    ensures
        plan(direction, local, cloud).contains((TaskKind::Upload, k)) <==> direction
            != crate::integrations::sync::SyncDirection::Download && local@.contains_key(k)
            && !cloud@.contains_key(k),
        plan(direction, local, cloud).contains((TaskKind::Download, k)) <==> direction
            != crate::integrations::sync::SyncDirection::Upload && cloud@.contains_key(k)
            && !local@.contains_key(k) && !cloud@[k].is_folder,
        plan(direction, local, cloud).contains((TaskKind::Compare, k)) <==> local@.contains_key(k)
            && cloud@.contains_key(k),
{
    crate::integrations::sync::law_every_path_has_one_task(local, cloud, k);
    let ups = to_upload(direction, local, cloud);
    let downs = to_download(direction, local, cloud);
    let both = on_both_sides(local, cloud);
    lemma_of_kind(TaskKind::Upload, ups, k);
    lemma_of_kind(TaskKind::Download, downs, k);
    lemma_of_kind(TaskKind::Compare, both, k);
    lemma_in_three(
        of_kind(TaskKind::Upload, ups),
        of_kind(TaskKind::Download, downs),
        of_kind(TaskKind::Compare, both),
        (TaskKind::Upload, k),
    );
    lemma_in_three(
        of_kind(TaskKind::Upload, ups),
        of_kind(TaskKind::Download, downs),
        of_kind(TaskKind::Compare, both),
        (TaskKind::Download, k),
    );
    lemma_in_three(
        of_kind(TaskKind::Upload, ups),
        of_kind(TaskKind::Download, downs),
        of_kind(TaskKind::Compare, both),
        (TaskKind::Compare, k),
    );
}

proof fn lemma_of_kind(kind: TaskKind, paths: Seq<Seq<char>>, k: Seq<char>)
    ensures
        forall|t: (TaskKind, Seq<char>)| #[trigger]
            of_kind(kind, paths).contains(t) <==> t.0 == kind && paths.contains(t.1),
{
    let all = of_kind(kind, paths);
    assert forall|t: (TaskKind, Seq<char>)| #[trigger] all.contains(t) <==> t.0 == kind
        && paths.contains(t.1) by {
        if all.contains(t) {
            let i = choose|i: int| 0 <= i < all.len() && all[i] == t;
            assert(paths[i] == t.1);
        }
        if t.0 == kind && paths.contains(t.1) {
            let i = choose|i: int| 0 <= i < paths.len() && paths[i] == t.1;
            assert(all[i] == t);
        }
    }
}

proof fn lemma_in_three(
    a: Seq<(TaskKind, Seq<char>)>,
    b: Seq<(TaskKind, Seq<char>)>,
    c: Seq<(TaskKind, Seq<char>)>,
    t: (TaskKind, Seq<char>),
)
    ensures
        (a + b + c).contains(t) <==> a.contains(t) || b.contains(t) || c.contains(t),
{
    let all = a + b + c;
    if a.contains(t) {
        let i = choose|i: int| 0 <= i < a.len() && a[i] == t;
        assert(all[i] == t);
    }
    if b.contains(t) {
        let i = choose|i: int| 0 <= i < b.len() && b[i] == t;
        assert(all[a.len() + i] == t);
    }
    if c.contains(t) {
        let i = choose|i: int| 0 <= i < c.len() && c[i] == t;
        assert(all[a.len() + b.len() + i] == t);
    }
    if all.contains(t) {
        let i = choose|i: int| 0 <= i < all.len() && all[i] == t;
        if i < a.len() {
            assert(a[i] == t);
        } else if i < a.len() + b.len() {
            assert(b[i - a.len()] == t);
        } else {
            assert(c[i - a.len() - b.len()] == t);
        }
    }
}

/// A step moves the file that its task names: an upload sends the local file to its path, a
/// download fetches the cloud's. Where both sides have changed the file, the step sends the local
/// one where it wins and fetches the cloud's where that one wins.
pub proof fn law_a_step_moves_the_winning_version<P: CloudProvider>(
    before: SyncMachine<P>,
    after: SyncMachine<P>,
    s: Step,
    at: Timestamp,
)
    requires
        before.taken < before.tasks@.len(),
        takes(before, after, s, at),
    ensures
        ({
            let t = before.tasks@[before.taken as int];
            let local = before.local@[t.path@];
            let cloud = before.cloud@[t.path@];
            let strategy = before.sync.conflict_resolver.strategy();
            let direction = before.sync.config.direction;
            let changed = match before.sync.state.last_sync {
                Some(since) => local.modified_at > since && cloud.modified_at > since,
                None => local.modified_at > 0 && cloud.modified_at > 0,
            };
            &&& t.kind == TaskKind::Upload || (t.kind == TaskKind::Compare && changed && direction
                != crate::integrations::sync::SyncDirection::Download && (strategy
                == crate::integrations::conflict::ConflictStrategy::LocalWins || (strategy
                == crate::integrations::conflict::ConflictStrategy::NewerWins && local.modified_at
                > cloud.modified_at))) ==> {
                &&& s matches Step::Upload { path, file } && path@ == t.path@ && file == local
                &&& after.awaited matches Awaited::Upload { path, modified_at } && path@ == t.path@
                    && modified_at == local.modified_at
            }
            &&& t.kind == TaskKind::Download || (t.kind == TaskKind::Compare && changed && direction
                != crate::integrations::sync::SyncDirection::Upload && (strategy
                == crate::integrations::conflict::ConflictStrategy::CloudWins || (strategy
                == crate::integrations::conflict::ConflictStrategy::NewerWins && local.modified_at
                < cloud.modified_at))) ==> {
                &&& s == Step::Download(cloud)
                &&& after.awaited == Awaited::Download(cloud)
            }
            &&& t.kind == TaskKind::Compare && changed && strategy
                == crate::integrations::conflict::ConflictStrategy::AskUser ==> {
                &&& s == Step::Nothing
                &&& after.awaited == Awaited::Nothing
                &&& after.run.result.conflicts@.len() == before.run.result.conflicts@.len() + 1
                &&& after.run.result.conflicts@.last().cloud_file == cloud
            }
        }),
{
    let t = before.tasks@[before.taken as int];
    if t.kind == TaskKind::Compare {
        let d = choose|d: Decision| #[trigger] compared(before, after, t.path@, d, s, at);
        assert(compared(before, after, t.path@, d, s, at));
    }
}

/// A change in the cloud is fetched unless the local file is newer than its last transfer; then
/// the strategy decides, and a local file that is as new or newer is not overwritten unless the
/// cloud always wins.
pub proof fn law_a_change_is_settled_by_the_strategy(
    strategy: crate::integrations::conflict::ConflictStrategy,
    seen: i64,
    change: CloudFile,
    local: LocalFile,
    at: Timestamp,
)
    ensures
        settled(strategy, seen, change, None, at) is Download,
        local.modified_at <= seen ==> settled(strategy, seen, change, Some(local), at) is Download,
        local.modified_at > seen ==> {
            &&& settled(strategy, seen, change, Some(local), at) is Download <==> strategy
                == crate::integrations::conflict::ConflictStrategy::CloudWins || (strategy
                == crate::integrations::conflict::ConflictStrategy::NewerWins && local.modified_at
                < change.modified_at)
            &&& settled(strategy, seen, change, Some(local), at) is Ask <==> strategy
                == crate::integrations::conflict::ConflictStrategy::AskUser
        },
{
}

/// A change to a folder and a deletion call for nothing; any other is looked at locally, unless
/// its path is not safe, which is an error told once.
pub proof fn law_a_change_is_looked_at_once(
    root: Seq<char>,
    change: CloudFile,
    s: DeltaStep,
    before: SyncRun,
    after: SyncRun,
)
    requires
        takes_change(root, change, s, before, after),
    ensures
        change.is_folder || change.deleted ==> s == DeltaStep::Nothing && after == before,
        !change.is_folder && !change.deleted ==> {
            &&& s is Look || s is Nothing
            &&& s is Look ==> after == before
            &&& s is Nothing ==> after.result.errors@.len() == before.result.errors@.len() + 1
                && after.transient == before.transient
            &&& change.path@.len() > 0 && change.path@[0] != '/' && !change.path@.contains('/')
                && !change.path@.contains('\0') && !change.path@.contains('\\') && change.path@
                != "."@ && change.path@ != ".."@ && !(change.path@.len() >= 2 && change.path@[1]
                == ':') ==> (s matches DeltaStep::Look(p) && p@
                == crate::integrations::paths::entry_of(root, change.path@))
        },
{
    let rel = crate::integrations::paths::unrooted(change.path@);
    if !change.is_folder && !change.deleted {
        if let Some(why) = crate::integrations::paths::path_fault(rel) {
            let e = crate::integrations::IntegrationErrorView::InvalidPath(
                crate::integrations::paths::refusal(rel, why),
            );
            crate::integrations::sync::law_a_failure_is_told(
                before,
                after,
                "Skipped "@ + change.path@ + ": "@ + crate::integrations::error_text(e),
                e,
            );
        }
        if !change.path@.contains('/') {
            crate::text::lemma_split_whole(change.path@, '/');
            let names = seq![change.path@];
            assert(names.drop_last() =~= Seq::empty());
            assert(names.last() == change.path@);
            assert(crate::integrations::paths::descend(root, names.drop_last()) == root);
            assert(crate::integrations::paths::descend(root, names)
                == crate::integrations::paths::entry_of(root, change.path@));
            assert(crate::text::split_on(change.path@, '/')[0] == change.path@);
        }
    }
}

/// Where both versions of a file are to be kept, the step fetches the cloud's under another name,
/// and its outcome is awaited as that of a copy.
pub proof fn law_a_copy_is_awaited_as_one<P: CloudProvider>(
    before: SyncMachine<P>,
    after: SyncMachine<P>,
    s: Step,
    at: Timestamp,
)
    requires
        before.taken < before.tasks@.len(),
        before.tasks@[before.taken as int].kind == TaskKind::Compare,
        takes(before, after, s, at),
        before.sync.conflict_resolver.strategy()
            == crate::integrations::conflict::ConflictStrategy::KeepBoth,
        before.sync.config.direction != crate::integrations::sync::SyncDirection::Upload,
        before.sync.state.last_sync matches Some(since)
            && before.local@[before.tasks@[before.taken as int].path@].modified_at > since
            && before.cloud@[before.tasks@[before.taken as int].path@].modified_at > since,
    ensures
        s matches Step::Download(f) && {
            let cloud = before.cloud@[before.tasks@[before.taken as int].path@];
            &&& after.awaited == Awaited::Copy(f)
            &&& f.id@ == cloud.id@
            &&& f.size == cloud.size
            &&& f.modified_at == cloud.modified_at
            &&& after.run == before.run
        },
{
    let path = before.tasks@[before.taken as int].path@;
    let d = choose|d: Decision| #[trigger] compared(before, after, path, d, s, at);
    assert(compared(before, after, path, d, s, at));
    let cloud = before.cloud@[path];
    assert(d is DownloadCopy);
    let f = d->DownloadCopy_0;
    assert(f@.id == cloud@.id && f@.size == cloud@.size && f@.modified_at == cloud@.modified_at);
}

} // verus!
