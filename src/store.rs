//! The state store's durable layout and the writes each save is made of.
//!
//! Under a root directory the store keeps, per job:
//!
//! ```text
//! <root>/jobs/<job_id>/request                           the job
//! <root>/jobs/<job_id>/tasks/<task_id>                   each task
//! <root>/jobs/<job_id>/pending_map_tasks/<task_id>       marker of a pending map task
//! <root>/jobs/<job_id>/pending_reduce_tasks/<task_id>    marker of a pending reduce task
//! ```
//!
//! This module decides which files a save writes, creates or removes; the
//! caller carries the writes out in order and stops at the first that fails.
//! `StoreModel` is what the files hold, and the laws below are stated on it.
use vstd::prelude::*;
use vstd::string::*;
use crate::types::{Job, Task, TaskStatus, TaskType};
use crate::codec::{frame, push_bytes};
use vstd::utf8::encode_utf8;
use crate::job_record::{encode_job, decode_job, decode_job_spec, job_fields, job_view};
use crate::task_record::{encode_task, decode_task, decode_task_spec, task_fields, task_view};

verus! {

/// Why a store operation failed.
#[derive(Clone, Copy, Debug, PartialEq, Eq, Structural)]
pub enum StateErrorKind {
    ConnectionFailed,
    PreconditionFailed,
    JobsFolderCreationFailed,
    JobsFolderRemoveFailed,
    TasksFolderCreationFailed,
    MapTasksFolderCreationFailed,
    ReduceTasksFolderCreationFailed,
    PendingTasksListFailed,
    GenericIOError,
    JobSerialisationFailed,
    TaskSerialisationFailed,
    TaskDeserialisationFailed,
    JobDeserialisationFailed,
    JobWriteFailed,
    TaskFileOpenFailed,
    TaskWriteFailed,
    PendingTaskWriteFailed,
    PendingTaskRemoveFailed,
    MissingTask,
    MissingPendingTask,
    OperationFailed,
}

/// A failed store operation, tagged with the step that failed.
#[derive(Clone, Copy, Debug, PartialEq, Eq, Structural)]
pub struct StateError {
    pub kind: StateErrorKind,
}

impl StateError {
    pub fn kind(&self) -> (r: StateErrorKind)
        ensures
            r == self.kind,
    {
        self.kind
    }
}

/// One step of a save.
#[derive(Clone, Copy, Debug, PartialEq, Eq, Structural)]
pub enum StoreAction {
    /// Create the directory, with its parents, if it is absent.
    MakeDir,
    /// Replace the file with the serialised job.
    WriteJob,
    /// Replace the file with the serialised task.
    WriteTask,
    /// Create the pending marker, holding the task's id.
    CreateMarker,
    /// Remove the pending marker, which must exist.
    RemoveMarker,
    /// Fail unless the task's record exists.
    RequireRecord,
    /// Fail unless the task's pending marker exists.
    RequireMarker,
}

/// A step of a save, the file or directory it acts on, and the bytes it
/// writes there (none for a directory or a removal).
#[derive(Clone, Debug)]
pub struct StoreWrite {
    pub action: StoreAction,
    pub path: String,
    pub data: Vec<u8>,
}

/// The error that a failed step reports.
pub open spec fn action_error(a: StoreAction) -> StateErrorKind {
    match a {
        StoreAction::MakeDir => StateErrorKind::TasksFolderCreationFailed,
        StoreAction::WriteJob => StateErrorKind::JobWriteFailed,
        StoreAction::WriteTask => StateErrorKind::TaskWriteFailed,
        StoreAction::CreateMarker => StateErrorKind::PendingTaskWriteFailed,
        StoreAction::RemoveMarker => StateErrorKind::PendingTaskRemoveFailed,
        StoreAction::RequireRecord => StateErrorKind::MissingTask,
        StoreAction::RequireMarker => StateErrorKind::MissingPendingTask,
    }
}

pub fn error_of(a: StoreAction) -> (r: StateError)
    ensures
        r.kind == action_error(a),
{
    let kind = match a {
        StoreAction::MakeDir => StateErrorKind::TasksFolderCreationFailed,
        StoreAction::WriteJob => StateErrorKind::JobWriteFailed,
        StoreAction::WriteTask => StateErrorKind::TaskWriteFailed,
        StoreAction::CreateMarker => StateErrorKind::PendingTaskWriteFailed,
        StoreAction::RemoveMarker => StateErrorKind::PendingTaskRemoveFailed,
        StoreAction::RequireRecord => StateErrorKind::MissingTask,
        StoreAction::RequireMarker => StateErrorKind::MissingPendingTask,
    };
    StateError { kind }
}

pub open spec fn pending_dir_name(kind: TaskType) -> Seq<char> {
    match kind {
        TaskType::MapTask => "pending_map_tasks"@,
        TaskType::ReduceTask => "pending_reduce_tasks"@,
    }
}

pub open spec fn job_dir_spec(root: Seq<char>, job_id: Seq<char>) -> Seq<char> {
    root + "/"@ + "jobs"@ + "/"@ + job_id
}

pub open spec fn request_path_spec(root: Seq<char>, job_id: Seq<char>) -> Seq<char> {
    job_dir_spec(root, job_id) + "/"@ + "request"@
}

pub open spec fn tasks_dir_spec(root: Seq<char>, job_id: Seq<char>) -> Seq<char> {
    job_dir_spec(root, job_id) + "/"@ + "tasks"@
}

pub open spec fn task_path_spec(root: Seq<char>, job_id: Seq<char>, task_id: Seq<char>) -> Seq<char> {
    tasks_dir_spec(root, job_id) + "/"@ + task_id
}

pub open spec fn pending_dir_spec(root: Seq<char>, job_id: Seq<char>, kind: TaskType) -> Seq<char> {
    job_dir_spec(root, job_id) + "/"@ + pending_dir_name(kind)
}

pub open spec fn marker_path_spec(
    root: Seq<char>,
    job_id: Seq<char>,
    kind: TaskType,
    task_id: Seq<char>,
) -> Seq<char> {
    pending_dir_spec(root, job_id, kind) + "/"@ + task_id
}

/// The steps that save a task: write its record, then create its marker if
/// it is pending or remove its marker if it is done.
pub open spec fn save_task_actions(t: Task) -> Seq<StoreAction> {
    if t.status == TaskStatus::Pending {
        seq![StoreAction::WriteTask, StoreAction::CreateMarker]
    } else if t.status == TaskStatus::Done {
        seq![StoreAction::WriteTask, StoreAction::RemoveMarker]
    } else {
        seq![StoreAction::WriteTask]
    }
}

/// The steps that record a worker's progress on a task it was given: check
/// that its record and its pending marker exist, replace the record, and
/// remove the marker once the task is done.
pub open spec fn save_progress_actions(t: Task) -> Seq<StoreAction> {
    if t.status == TaskStatus::Done {
        seq![
            StoreAction::RequireRecord,
            StoreAction::RequireMarker,
            StoreAction::WriteTask,
            StoreAction::RemoveMarker,
        ]
    } else {
        seq![StoreAction::RequireRecord, StoreAction::RequireMarker, StoreAction::WriteTask]
    }
}

/// The steps that save a job: make its directories, then write its record.
pub open spec fn save_job_actions() -> Seq<StoreAction> {
    seq![StoreAction::MakeDir, StoreAction::MakeDir, StoreAction::MakeDir, StoreAction::WriteJob]
}

/// The key of a task's record, and of its marker without the kind.
pub open spec fn task_key(t: Task) -> (Seq<char>, Seq<char>) {
    (t.job_id@, t.id@)
}

pub open spec fn marker_key(t: Task) -> (Seq<char>, TaskType, Seq<char>) {
    (t.job_id@, t.kind, t.id@)
}

/// What the store's task files hold: task records by job and task id, and
/// the pending markers by job, kind and task id.
pub ghost struct StoreModel {
    pub records: Map<(Seq<char>, Seq<char>), Task>,
    pub markers: Set<(Seq<char>, TaskType, Seq<char>)>,
}

/// One step of saving `t`; `None` when it fails (a marker to remove is absent).
pub open spec fn apply_task_action(m: StoreModel, t: Task, a: StoreAction) -> Option<StoreModel> {
    match a {
        StoreAction::WriteTask => Some(StoreModel { records: m.records.insert(task_key(t), t), ..m }),
        StoreAction::CreateMarker => Some(StoreModel { markers: m.markers.insert(marker_key(t)), ..m }),
        StoreAction::RemoveMarker => if m.markers.contains(marker_key(t)) {
            Some(StoreModel { markers: m.markers.remove(marker_key(t)), ..m })
        } else {
            None
        },
        StoreAction::RequireRecord => if m.records.contains_key(task_key(t)) {
            Some(m)
        } else {
            None
        },
        StoreAction::RequireMarker => if m.markers.contains(marker_key(t)) {
            Some(m)
        } else {
            None
        },
        _ => Some(m),
    }
}

/// The steps of saving `t` carried out in order, stopping at the first that
/// fails: the resulting files, and whether every step succeeded.
pub open spec fn apply_task_actions(m: StoreModel, t: Task, acts: Seq<StoreAction>) -> (StoreModel, bool)
    decreases acts.len(),
{
    if acts.len() == 0 {
        (m, true)
    } else {
        match apply_task_action(m, t, acts[0]) {
            Some(m2) => apply_task_actions(m2, t, acts.drop_first()),
            None => (m, false),
        }
    }
}

/// The effect of `save_task(t)` on the store.
pub open spec fn save_task_model(m: StoreModel, t: Task) -> (StoreModel, bool) {
    apply_task_actions(m, t, save_task_actions(t))
}

/// The effect of `save_progress(t)` on the store.
pub open spec fn save_progress_model(m: StoreModel, t: Task) -> (StoreModel, bool) {
    apply_task_actions(m, t, save_progress_actions(t))
}

/// The markers agree with the task records: a done task has no marker in the
/// pending directory of its kind, and a pending task has one.
pub open spec fn markers_consistent(m: StoreModel) -> bool {
    forall|k: (Seq<char>, Seq<char>)|
        #[trigger] m.records.contains_key(k) ==> {
            let r = m.records[k];
            &&& r.status == TaskStatus::Done ==> !m.markers.contains((k.0, r.kind, k.1))
            &&& r.status == TaskStatus::Pending ==> m.markers.contains((k.0, r.kind, k.1))
        }
}

proof fn lemma_save_task_unfold(m: StoreModel, t: Task)
    ensures
        t.status == TaskStatus::Pending ==> save_task_model(m, t) == (
            StoreModel {
                records: m.records.insert(task_key(t), t),
                markers: m.markers.insert(marker_key(t)),
                ..m
            },
            true,
        ),
        t.status == TaskStatus::Done && m.markers.contains(marker_key(t)) ==> save_task_model(m, t)
            == (
            StoreModel {
                records: m.records.insert(task_key(t), t),
                markers: m.markers.remove(marker_key(t)),
                ..m
            },
            true,
        ),
        t.status == TaskStatus::Done && !m.markers.contains(marker_key(t)) ==> save_task_model(m, t)
            == (StoreModel { records: m.records.insert(task_key(t), t), ..m }, false),
        t.status != TaskStatus::Pending && t.status != TaskStatus::Done ==> save_task_model(m, t)
            == (StoreModel { records: m.records.insert(task_key(t), t), ..m }, true),
{
    reveal_with_fuel(apply_task_actions, 3);
    let acts = save_task_actions(t);
    let m1 = StoreModel { records: m.records.insert(task_key(t), t), ..m };
    assert(apply_task_action(m, t, acts[0]) == Some(m1));
    if t.status == TaskStatus::Pending || t.status == TaskStatus::Done {
        assert(acts.drop_first() == seq![acts[1]]);
        assert(seq![acts[1]].drop_first() =~= Seq::<StoreAction>::empty());
    } else {
        assert(acts.drop_first() =~= Seq::<StoreAction>::empty());
    }
}

/// Saving a task keeps the markers consistent with the records: after every
/// save, a done task has no pending marker and a pending task has one, whether
/// or not the save reported an error.
pub proof fn lemma_save_task_keeps_markers(m: StoreModel, t: Task)
    requires
        markers_consistent(m),
    ensures
        markers_consistent(save_task_model(m, t).0),
{
    lemma_save_task_unfold(m, t);
    let m2 = save_task_model(m, t).0;
    assert forall|k: (Seq<char>, Seq<char>)| #[trigger] m2.records.contains_key(k) implies {
        let r = m2.records[k];
        &&& r.status == TaskStatus::Done ==> !m2.markers.contains((k.0, r.kind, k.1))
        &&& r.status == TaskStatus::Pending ==> m2.markers.contains((k.0, r.kind, k.1))
    } by {
        if k != task_key(t) {
            assert(m.records.contains_key(k));
            let r = m.records[k];
            assert((k.0, r.kind, k.1) != marker_key(t));
        }
    }
}

/// Recording progress keeps the markers consistent with the records, and
/// changes nothing unless the task's record and marker both exist.
pub proof fn lemma_save_progress_keeps_markers(m: StoreModel, t: Task)
    requires
        markers_consistent(m),
    ensures
        markers_consistent(save_progress_model(m, t).0),
        !(m.records.contains_key(task_key(t)) && m.markers.contains(marker_key(t)))
            ==> save_progress_model(m, t) == (m, false),
{
    reveal_with_fuel(apply_task_actions, 5);
    let acts = save_progress_actions(t);
    let m1 = StoreModel { records: m.records.insert(task_key(t), t), ..m };
    if m.records.contains_key(task_key(t)) && m.markers.contains(marker_key(t)) {
        assert(acts.drop_first().drop_first() =~= acts.subrange(2, acts.len() as int));
        assert(acts.subrange(2, acts.len() as int).drop_first() =~= acts.subrange(3, acts.len() as int));
        if t.status == TaskStatus::Done {
            assert(acts.subrange(3, 4).drop_first() =~= Seq::<StoreAction>::empty());
            assert(acts.subrange(3, acts.len() as int) =~= seq![StoreAction::RemoveMarker]);
            assert(m1.markers.contains(marker_key(t)));
            assert(save_progress_model(m, t).0 == StoreModel {
                markers: m.markers.remove(marker_key(t)),
                ..m1
            });
        } else {
            assert(acts.subrange(3, acts.len() as int) =~= Seq::<StoreAction>::empty());
            assert(save_progress_model(m, t).0 == m1);
        }
        let m2 = save_progress_model(m, t).0;
        assert forall|k: (Seq<char>, Seq<char>)| #[trigger] m2.records.contains_key(k) implies {
            let r = m2.records[k];
            &&& r.status == TaskStatus::Done ==> !m2.markers.contains((k.0, r.kind, k.1))
            &&& r.status == TaskStatus::Pending ==> m2.markers.contains((k.0, r.kind, k.1))
        } by {
            if k != task_key(t) {
                assert(m.records.contains_key(k));
                let r = m.records[k];
                assert((k.0, r.kind, k.1) != marker_key(t));
            }
        }
    } else if m.records.contains_key(task_key(t)) {
        assert(acts.drop_first()[0] == StoreAction::RequireMarker);
    }
}

/// Saving a task twice leaves the store as saving it once does.
pub proof fn lemma_save_task_idempotent(m: StoreModel, t: Task)
    ensures
        save_task_model(save_task_model(m, t).0, t).0 == save_task_model(m, t).0,
{
    let m1 = save_task_model(m, t).0;
    lemma_save_task_unfold(m, t);
    lemma_save_task_unfold(m1, t);
    let m2 = save_task_model(m1, t).0;
    assert(m2.records =~= m1.records);
    assert(m2.markers =~= m1.markers);
}

/// A filesystem-backed store rooted at one directory.
pub struct FileStore {
    path: String,
}

fn join(base: String, part: &str) -> (r: String)
    ensures
        r@ == base@ + "/"@ + part@,
{
    let mut r = base;
    r.append("/");
    r.append(part);
    r
}

impl FileStore {
    pub closed spec fn root(&self) -> Seq<char> {
        self.path@
    }

    /// A store rooted at `path`. The caller creates `<path>/jobs`.
    pub fn new(path: String) -> (r: FileStore)
        ensures
            r.root() == path@,
    {
        FileStore { path }
    }

    /// The directory that holds everything of job `job_id`.
    pub fn job_dir_path(&self, job_id: &str) -> (r: String)
        ensures
            r@ == job_dir_spec(self.root(), job_id@),
    {
        let jobs = join(self.path.clone(), "jobs");
        join(jobs, job_id)
    }

    /// The file that holds job `job_id`.
    pub fn request_path(&self, job_id: &str) -> (r: String)
        ensures
            r@ == request_path_spec(self.root(), job_id@),
    {
        join(self.job_dir_path(job_id), "request")
    }

    /// The directory of the task records of job `job_id`.
    pub fn tasks_dir_path(&self, job_id: &str) -> (r: String)
        ensures
            r@ == tasks_dir_spec(self.root(), job_id@),
    {
        join(self.job_dir_path(job_id), "tasks")
    }

    /// The file that holds task `task_id` of job `job_id`.
    pub fn task_path(&self, job_id: &str, task_id: &str) -> (r: String)
        ensures
            r@ == task_path_spec(self.root(), job_id@, task_id@),
    {
        join(self.tasks_dir_path(job_id), task_id)
    }

    /// The directory of the pending markers of kind `kind` of job `job_id`.
    pub fn pending_dir_path(&self, job_id: &str, kind: TaskType) -> (r: String)
        ensures
            r@ == pending_dir_spec(self.root(), job_id@, kind),
    {
        let name = match kind {
            TaskType::MapTask => "pending_map_tasks",
            TaskType::ReduceTask => "pending_reduce_tasks",
        };
        join(self.job_dir_path(job_id), name)
    }

    /// The pending marker of task `task_id` of kind `kind` of job `job_id`.
    pub fn marker_path(&self, job_id: &str, kind: TaskType, task_id: &str) -> (r: String)
        ensures
            r@ == marker_path_spec(self.root(), job_id@, kind, task_id@),
    {
        join(self.pending_dir_path(job_id, kind), task_id)
    }

    /// The steps of `save_task(task)`: write the task's record; then, by its
    /// status, create its marker (pending), remove it (done), or leave the
    /// markers alone (in progress, failed, unknown).
    pub fn save_task_plan(&self, task: &Task) -> (r: Vec<StoreWrite>)
        ensures
            r@.len() == save_task_actions(*task).len(),
            forall|i: int| 0 <= i < r@.len() ==> (#[trigger] r@[i]).action == save_task_actions(*task)[i],
            r@[0].path@ == task_path_spec(self.root(), task.job_id@, task.id@),
            r@[0].data@ == frame(task_fields(task_view(*task))),
            r@.len() > 1 ==> r@[1].path@ == marker_path_spec(
                self.root(),
                task.job_id@,
                task.kind,
                task.id@,
            ),
            r@.len() > 1 && task.status == TaskStatus::Pending ==> r@[1].data@ == encode_utf8(task.id@),
            r@.len() > 1 && task.status == TaskStatus::Done ==> r@[1].data@.len() == 0,
    {
        let mut r: Vec<StoreWrite> = Vec::new();
        let record = self.task_path(task.job_id.as_str(), task.id.as_str());
        r.push(StoreWrite { action: StoreAction::WriteTask, path: record, data: encode_task(task) });
        match task.status {
            TaskStatus::Pending => {
                let marker = self.marker_path(task.job_id.as_str(), task.kind, task.id.as_str());
                let mut id_bytes: Vec<u8> = Vec::new();
                push_bytes(&mut id_bytes, task.id.as_str().as_bytes());
                r.push(StoreWrite { action: StoreAction::CreateMarker, path: marker, data: id_bytes });
            },
            TaskStatus::Done => {
                let marker = self.marker_path(task.job_id.as_str(), task.kind, task.id.as_str());
                r.push(StoreWrite { action: StoreAction::RemoveMarker, path: marker, data: Vec::new() });
            },
            _ => {},
        }
        r
    }

    /// The steps of `save_progress(task)`, the worker's update of a task it
    /// was given: check its record and marker, replace the record, and remove
    /// the marker if the task is done.
    pub fn save_progress_plan(&self, task: &Task) -> (r: Vec<StoreWrite>)
        ensures
            r@.len() == save_progress_actions(*task).len(),
            forall|i: int|
                0 <= i < r@.len() ==> (#[trigger] r@[i]).action == save_progress_actions(*task)[i],
            r@[0].path@ == task_path_spec(self.root(), task.job_id@, task.id@),
            r@[1].path@ == marker_path_spec(self.root(), task.job_id@, task.kind, task.id@),
            r@[2].path@ == task_path_spec(self.root(), task.job_id@, task.id@),
            r@[2].data@ == frame(task_fields(task_view(*task))),
            r@.len() > 3 ==> r@[3].path@ == marker_path_spec(
                self.root(),
                task.job_id@,
                task.kind,
                task.id@,
            ),
    {
        let job_id = task.job_id.as_str();
        let id = task.id.as_str();
        let mut r: Vec<StoreWrite> = Vec::new();
        r.push(
            StoreWrite {
                action: StoreAction::RequireRecord,
                path: self.task_path(job_id, id),
                data: Vec::new(),
            },
        );
        r.push(
            StoreWrite {
                action: StoreAction::RequireMarker,
                path: self.marker_path(job_id, task.kind, id),
                data: Vec::new(),
            },
        );
        r.push(
            StoreWrite {
                action: StoreAction::WriteTask,
                path: self.task_path(job_id, id),
                data: encode_task(task),
            },
        );
        if task.status == TaskStatus::Done {
            r.push(
                StoreWrite {
                    action: StoreAction::RemoveMarker,
                    path: self.marker_path(job_id, task.kind, id),
                    data: Vec::new(),
                },
            );
        }
        r
    }

    /// The steps of `save_job(job)`: make the job's task and marker
    /// directories, then write the job's record. Should a directory fail, the
    /// caller removes the job's directory again.
    pub fn save_job_plan(&self, job: &Job) -> (r: Vec<StoreWrite>)
        ensures
            r@.len() == save_job_actions().len(),
            forall|i: int| 0 <= i < r@.len() ==> (#[trigger] r@[i]).action == save_job_actions()[i],
            r@[0].path@ == tasks_dir_spec(self.root(), job.id@),
            r@[1].path@ == pending_dir_spec(self.root(), job.id@, TaskType::MapTask),
            r@[2].path@ == pending_dir_spec(self.root(), job.id@, TaskType::ReduceTask),
            r@[3].path@ == request_path_spec(self.root(), job.id@),
            r@[3].data@ == frame(job_fields(job_view(*job))),
    {
        let id = job.id.as_str();
        let mut r: Vec<StoreWrite> = Vec::new();
        r.push(
            StoreWrite { action: StoreAction::MakeDir, path: self.tasks_dir_path(id), data: Vec::new() },
        );
        r.push(
            StoreWrite {
                action: StoreAction::MakeDir,
                path: self.pending_dir_path(id, TaskType::MapTask),
                data: Vec::new(),
            },
        );
        r.push(
            StoreWrite {
                action: StoreAction::MakeDir,
                path: self.pending_dir_path(id, TaskType::ReduceTask),
                data: Vec::new(),
            },
        );
        r.push(
            StoreWrite {
                action: StoreAction::WriteJob,
                path: self.request_path(id),
                data: encode_job(job),
            },
        );
        r
    }
}

/// The job that the bytes of a `request` file hold.
pub fn load_job(bytes: &[u8]) -> (r: Result<Job, StateError>)
    ensures
        r.is_ok() == decode_job_spec(bytes@).is_some(),
        r.is_ok() ==> job_view(r->Ok_0) == decode_job_spec(bytes@)->0,
        r.is_err() ==> r->Err_0.kind == StateErrorKind::JobDeserialisationFailed,
{
    match decode_job(bytes) {
        Some(j) => Ok(j),
        None => Err(StateError { kind: StateErrorKind::JobDeserialisationFailed }),
    }
}

/// The task that the bytes of a task file hold.
pub fn load_task(bytes: &[u8]) -> (r: Result<Task, StateError>)
    ensures
        r.is_ok() == decode_task_spec(bytes@).is_some(),
        r.is_ok() ==> task_view(r->Ok_0) == decode_task_spec(bytes@)->0,
        r.is_err() ==> r->Err_0.kind == StateErrorKind::TaskDeserialisationFailed,
{
    match decode_task(bytes) {
        Some(t) => Ok(t),
        None => Err(StateError { kind: StateErrorKind::TaskDeserialisationFailed }),
    }
}

/// `k` is the first record named `name`.
pub open spec fn first_record(records: Seq<(String, Vec<u8>)>, name: Seq<char>, k: int) -> bool {
    &&& 0 <= k < records.len()
    &&& records[k].0@ == name
    &&& forall|m: int| 0 <= m < k ==> (#[trigger] records[m]).0@ != name
}

/// The first record named `name` holds the task `t`.
pub open spec fn record_holds(records: Seq<(String, Vec<u8>)>, name: String, t: Task) -> bool {
    exists|k: int| first_record(records, name@, k) && decode_task_spec(records[k].1@) == Some(task_view(t))
}

/// The marker `name` has no record (`TaskFileOpenFailed`), or its first record
/// is not a task (`TaskDeserialisationFailed`).
pub open spec fn marker_fails(records: Seq<(String, Vec<u8>)>, name: String, kind: StateErrorKind) -> bool {
    ||| (kind == StateErrorKind::TaskFileOpenFailed && forall|k: int|
        0 <= k < records.len() ==> (#[trigger] records[k]).0@ != name@)
    ||| (kind == StateErrorKind::TaskDeserialisationFailed && exists|k: int|
        first_record(records, name@, k) && decode_task_spec(#[trigger] records[k].1@).is_none())
}

/// The index of the first record named `name`, or the number of records if
/// none is.
fn find_record(records: &Vec<(String, Vec<u8>)>, name: &String) -> (k: usize)
    ensures
        k <= records@.len(),
        forall|m: int| 0 <= m < k ==> (#[trigger] records@[m]).0@ != name@,
        k < records@.len() ==> records@[k as int].0@ == name@,
{
    let mut k: usize = 0;
    while k < records.len() && records[k].0 != *name
        invariant
            k <= records@.len(),
            forall|m: int| 0 <= m < k ==> (#[trigger] records@[m]).0@ != name@,
        decreases records@.len() - k,
    {
        k = k + 1;
    }
    k
}

/// The pending tasks of one kind, from the names of its marker files and the
/// task records (file name and bytes) of the job: for each marker, in order,
/// the task that the first record of that name holds. A marker without a
/// record fails with `TaskFileOpenFailed`, a record that is not a task with
/// `TaskDeserialisationFailed`.
pub fn pending_tasks_data(markers: &Vec<String>, records: &Vec<(String, Vec<u8>)>) -> (r: Result<
    Vec<Task>,
    StateError,
>)
    ensures
        r.is_ok() ==> r->Ok_0@.len() == markers@.len() && forall|i: int|
            0 <= i < markers@.len() ==> record_holds(records@, markers@[i], #[trigger] r->Ok_0@[i]),
        r.is_err() ==> exists|i: int|
            0 <= i < markers@.len() && marker_fails(records@, #[trigger] markers@[i], r->Err_0.kind),
{
    let mut out: Vec<Task> = Vec::new();
    let ghost mut ks: Seq<int> = seq![];
    let mut i: usize = 0;
    while i < markers.len()
        invariant
            i <= markers@.len(),
            out@.len() == i,
            ks.len() == i,
            forall|m: int|
                0 <= m < i ==> first_record(records@, markers@[m]@, #[trigger] ks[m])
                    && decode_task_spec(records@[ks[m]].1@) == Some(task_view(out@[m])),
        decreases markers@.len() - i,
    {
        let k = find_record(records, &markers[i]);
        if k == records.len() {
            proof {
                assert(marker_fails(records@, markers@[i as int], StateErrorKind::TaskFileOpenFailed));
            }
            return Err(StateError { kind: StateErrorKind::TaskFileOpenFailed });
        }
        proof {
            assert(first_record(records@, markers@[i as int]@, k as int));
        }
        match decode_task(records[k].1.as_slice()) {
            Some(t) => {
                let ghost before = out@;
                out.push(t);
                proof {
                    ks = ks.push(k as int);
                    assert forall|m: int|
                        0 <= m < i + 1 implies first_record(records@, markers@[m]@, #[trigger] ks[m])
                            && decode_task_spec(records@[ks[m]].1@) == Some(task_view(out@[m])) by {
                        if m < i {
                            assert(out@[m] == before[m]);
                        }
                    }
                }
            },
            None => {
                proof {
                    assert(marker_fails(
                        records@,
                        markers@[i as int],
                        StateErrorKind::TaskDeserialisationFailed,
                    ));
                }
                return Err(StateError { kind: StateErrorKind::TaskDeserialisationFailed });
            },
        }
        i = i + 1;
    }
    proof {
        assert forall|m: int| 0 <= m < markers@.len() implies record_holds(
            records@,
            markers@[m],
            #[trigger] out@[m],
        ) by {
            assert(first_record(records@, markers@[m]@, ks[m]));
        }
    }
    Ok(out)
}

} // verus!
