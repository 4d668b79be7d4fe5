//! The work of a reconciliation run: the operations that the engine asks
//! for, the outcomes it is told, and the frames of its work stack.

use crate::entry::Folder;
use crate::error::Error;
use crate::folder::sync::LocalEntry;
use crate::retry::Retry;
use vstd::prelude::*;

verus! {

/// Something worth telling the user that does not stop the run.
#[derive(Debug, PartialEq, Eq)]
pub enum Diagnostic {
    /// The name at this local path is a file on one side and a folder on
    /// the other; nothing is done about it.
    TypeConflict { path: String },
    /// The checksum of the local file could not be computed; the file is
    /// not uploaded.
    ChecksumUnavailable { path: String, reason: String },
}

/// A diagnostic as a value of the model.
pub enum DiagnosticView {
    TypeConflict { path: Seq<char> },
    ChecksumUnavailable { path: Seq<char>, reason: Seq<char> },
}

impl View for Diagnostic {
    type V = DiagnosticView;

    open spec fn view(&self) -> DiagnosticView {
        match *self {
            Diagnostic::TypeConflict { path } => DiagnosticView::TypeConflict { path: path@ },
            Diagnostic::ChecksumUnavailable { path, reason } => DiagnosticView::ChecksumUnavailable {
                path: path@,
                reason: reason@,
            },
        }
    }
}

/// The upload of the local file at `path` into the remote folder
/// `folder_id` under `name`. With `no_partial`, a failed upload must leave
/// nothing behind remotely. With `remove_after`, the local file is removed
/// once the upload has ended well, and only then; a removal that fails does
/// not stop the run.
#[derive(Debug, PartialEq, Eq)]
pub struct UploadSpec {
    pub name: String,
    pub path: String,
    pub folder_id: u64,
    pub no_partial: bool,
    pub remove_after: bool,
}

/// An upload as a value of the model.
pub struct UploadView {
    pub name: Seq<char>,
    pub path: Seq<char>,
    pub folder_id: u64,
    pub no_partial: bool,
    pub remove_after: bool,
}

impl View for UploadSpec {
    type V = UploadView;

    open spec fn view(&self) -> UploadView {
        UploadView {
            name: self.name@,
            path: self.path@,
            folder_id: self.folder_id,
            no_partial: self.no_partial,
            remove_after: self.remove_after,
        }
    }
}

/// One operation on the local tree or on the remote store.
#[derive(Debug, PartialEq, Eq)]
pub enum Task {
    /// List the remote folder and the local directory, and reconcile them.
    Sync { folder_id: u64, path: String },
    /// Write the content of the remote file to a new local file.
    Download { file_id: u64, path: String },
    /// Upload a local file.
    Upload(UploadSpec),
    /// Compute the checksum of the local file, to compare it with that of the
    /// remote file `file_id` before uploading.
    LocalChecksum { file_id: u64, upload: UploadSpec },
    /// Fetch the checksum of the remote file and upload if it differs from
    /// `local`.
    RemoteChecksum { file_id: u64, local: String, upload: UploadSpec },
    /// Create a local directory.
    CreateLocalDir { path: String },
    /// Create the remote folder `name` in `parent_id`, or find it if it
    /// exists, and then reconcile it with the local directory `path`,
    /// retrying that reconciliation as a whole if `retried`.
    CreateRemoteFolder { name: String, parent_id: u64, path: String, retried: bool },
    /// Delete a remote file.
    DeleteRemoteFile { file_id: u64 },
    /// Delete a remote folder and all it holds.
    DeleteRemoteFolder { folder_id: u64 },
    /// Remove a local file. If `lenient`, a failure does not stop the run.
    RemoveLocalFile { path: String, lenient: bool },
    /// Remove a local directory: with all it holds if `recursive`, else
    /// only if it is empty. If `lenient`, a failure does not stop the run.
    RemoveLocalDir { path: String, lenient: bool, recursive: bool },
    /// Tell the user.
    Report(Diagnostic),
}

/// A task as a value of the model.
pub enum TaskView {
    Sync { folder_id: u64, path: Seq<char> },
    Download { file_id: u64, path: Seq<char> },
    Upload(UploadView),
    LocalChecksum { file_id: u64, upload: UploadView },
    RemoteChecksum { file_id: u64, local: Seq<char>, upload: UploadView },
    CreateLocalDir { path: Seq<char> },
    CreateRemoteFolder { name: Seq<char>, parent_id: u64, path: Seq<char>, retried: bool },
    DeleteRemoteFile { file_id: u64 },
    DeleteRemoteFolder { folder_id: u64 },
    RemoveLocalFile { path: Seq<char>, lenient: bool },
    RemoveLocalDir { path: Seq<char>, lenient: bool, recursive: bool },
    Report(DiagnosticView),
}

impl View for Task {
    type V = TaskView;

    open spec fn view(&self) -> TaskView {
        match *self {
            Task::Sync { folder_id, path } => TaskView::Sync { folder_id, path: path@ },
            Task::Download { file_id, path } => TaskView::Download { file_id, path: path@ },
            Task::Upload(upload) => TaskView::Upload(upload@),
            Task::LocalChecksum { file_id, upload } => TaskView::LocalChecksum {
                file_id,
                upload: upload@,
            },
            Task::RemoteChecksum { file_id, local, upload } => TaskView::RemoteChecksum {
                file_id,
                local: local@,
                upload: upload@,
            },
            Task::CreateLocalDir { path } => TaskView::CreateLocalDir { path: path@ },
            Task::CreateRemoteFolder { name, parent_id, path, retried } => {
                TaskView::CreateRemoteFolder { name: name@, parent_id, path: path@, retried }
            },
            Task::DeleteRemoteFile { file_id } => TaskView::DeleteRemoteFile { file_id },
            Task::DeleteRemoteFolder { folder_id } => TaskView::DeleteRemoteFolder { folder_id },
            Task::RemoveLocalFile { path, lenient } => TaskView::RemoveLocalFile {
                path: path@,
                lenient,
            },
            Task::RemoveLocalDir { path, lenient, recursive } => TaskView::RemoveLocalDir {
                path: path@,
                lenient,
                recursive,
            },
            Task::Report(diagnostic) => TaskView::Report(diagnostic@),
        }
    }
}

impl TaskView {
    /// Whether a failure of the task is passed over.
    pub open spec fn is_lenient(self) -> bool {
        match self {
            TaskView::RemoveLocalFile { lenient, .. } => lenient,
            TaskView::RemoveLocalDir { lenient, .. } => lenient,
            _ => false,
        }
    }

    /// Whether the task changes the local tree or the remote store. The
    /// tasks that list, compare checksums or report only read.
    pub open spec fn is_change(self) -> bool {
        !(self is Sync || self is Report || self is LocalChecksum || self is RemoteChecksum)
    }
}

impl Diagnostic {
    /// A copy of the diagnostic.
    pub fn duplicate(&self) -> (copy: Diagnostic)
        ensures
            copy@ == self@,
    {
        match self {
            Diagnostic::TypeConflict { path } => Diagnostic::TypeConflict { path: path.clone() },
            Diagnostic::ChecksumUnavailable { path, reason } => Diagnostic::ChecksumUnavailable {
                path: path.clone(),
                reason: reason.clone(),
            },
        }
    }
}

impl UploadSpec {
    /// A copy of the upload.
    pub fn duplicate(&self) -> (copy: UploadSpec)
        ensures
            copy@ == self@,
    {
        UploadSpec {
            name: self.name.clone(),
            path: self.path.clone(),
            folder_id: self.folder_id,
            no_partial: self.no_partial,
            remove_after: self.remove_after,
        }
    }
}

impl Task {
    /// A copy of the task.
    pub fn duplicate(&self) -> (copy: Task)
        ensures
            copy@ == self@,
    {
        match self {
            Task::Sync { folder_id, path } => Task::Sync {
                folder_id: *folder_id,
                path: path.clone(),
            },
            Task::Download { file_id, path } => Task::Download {
                file_id: *file_id,
                path: path.clone(),
            },
            Task::Upload(upload) => Task::Upload(upload.duplicate()),
            Task::LocalChecksum { file_id, upload } => Task::LocalChecksum {
                file_id: *file_id,
                upload: upload.duplicate(),
            },
            Task::RemoteChecksum { file_id, local, upload } => Task::RemoteChecksum {
                file_id: *file_id,
                local: local.clone(),
                upload: upload.duplicate(),
            },
            Task::CreateLocalDir { path } => Task::CreateLocalDir { path: path.clone() },
            Task::CreateRemoteFolder { name, parent_id, path, retried } => {
                Task::CreateRemoteFolder {
                    name: name.clone(),
                    parent_id: *parent_id,
                    path: path.clone(),
                    retried: *retried,
                }
            },
            Task::DeleteRemoteFile { file_id } => Task::DeleteRemoteFile { file_id: *file_id },
            Task::DeleteRemoteFolder { folder_id } => Task::DeleteRemoteFolder {
                folder_id: *folder_id,
            },
            Task::RemoveLocalFile { path, lenient } => Task::RemoveLocalFile {
                path: path.clone(),
                lenient: *lenient,
            },
            Task::RemoveLocalDir { path, lenient, recursive } => Task::RemoveLocalDir {
                path: path.clone(),
                lenient: *lenient,
                recursive: *recursive,
            },
            Task::Report(diagnostic) => Task::Report(diagnostic.duplicate()),
        }
    }
}

/// A failure as a value of the model: the failures of an exhausted retry
/// budget as a sequence, any other failure as it is.
pub enum ErrorView {
    Single(Error),
    Retry(Seq<ErrorView>),
}

/// The model of a failure.
pub open spec fn error_view(err: Error) -> ErrorView
    decreases err,
{
    match err {
        Error::Retry(errors) => ErrorView::Retry(error_views(errors@)),
        other => ErrorView::Single(other),
    }
}

/// The models of a sequence of failures.
pub open spec fn error_views(errors: Seq<Error>) -> Seq<ErrorView>
    decreases errors,
{
    if errors.len() == 0 {
        Seq::empty()
    } else {
        error_views(errors.drop_last()).push(error_view(errors.last()))
    }
}

/// A planned piece of work: a task, attempted again after a failure while
/// the retry budget lasts if `retried`.
#[derive(Debug, PartialEq, Eq)]
pub struct Step {
    pub task: Task,
    pub retried: bool,
}

/// A step as a value of the model.
pub struct StepView {
    pub task: TaskView,
    pub retried: bool,
}

impl View for Step {
    type V = StepView;

    open spec fn view(&self) -> StepView {
        StepView { task: self.task@, retried: self.retried }
    }
}

/// The models of a sequence of steps.
pub open spec fn step_views(steps: Seq<Step>) -> Seq<StepView> {
    steps.map_values(|step: Step| step@)
}

/// A frame of the work stack: a step still to be done, or the mark of a
/// retried task that is under way, with its retry state and the task to
/// start again after a failure.
#[derive(Debug, PartialEq, Eq)]
pub enum Frame {
    Todo(Step),
    Scope { retry: Retry, restart: Task },
}

/// A frame as a value of the model.
pub enum FrameView {
    Todo(StepView),
    Scope { remaining: nat, errors: Seq<ErrorView>, restart: TaskView },
}

impl View for Frame {
    type V = FrameView;

    open spec fn view(&self) -> FrameView {
        match *self {
            Frame::Todo(step) => FrameView::Todo(step@),
            Frame::Scope { retry, restart } => FrameView::Scope {
                remaining: retry.remaining as nat,
                errors: error_views(retry.errors@),
                restart: restart@,
            },
        }
    }
}

/// The models of a sequence of frames.
pub open spec fn frame_views(frames: Seq<Frame>) -> Seq<FrameView> {
    frames.map_values(|frame: Frame| frame@)
}

/// What the engine asks its driver to do next.
#[derive(Debug, PartialEq, Eq)]
pub enum Action {
    /// Perform the task and report its outcome.
    Perform(Task),
    /// The run is complete.
    Finished,
    /// The run is over: it failed.
    Failed(Error),
}

/// An action as a value of the model.
pub enum ActionView {
    Perform(TaskView),
    Finished,
    Failed(ErrorView),
}

impl View for Action {
    type V = ActionView;

    open spec fn view(&self) -> ActionView {
        match *self {
            Action::Perform(task) => ActionView::Perform(task@),
            Action::Finished => ActionView::Finished,
            Action::Failed(err) => ActionView::Failed(error_view(err)),
        }
    }
}

/// The outcome of the task that the engine asked for.
#[derive(Debug, PartialEq, Eq)]
pub enum Event {
    /// Nothing was asked for yet: the run begins.
    Start,
    /// The task was done and has nothing to tell.
    Done,
    /// The task failed.
    Failed(Error),
    /// The remote folder with its contents, and the entries of the local
    /// directory.
    Listings(Folder, Vec<LocalEntry>),
    /// The identifier of the remote folder that was created or found.
    FolderCreated(u64),
    /// The checksum of the local file, or why it could not be computed.
    LocalChecksum(Result<String, String>),
    /// The checksum of the remote file.
    RemoteChecksum(String),
}

} // verus!
