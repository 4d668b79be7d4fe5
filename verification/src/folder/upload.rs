//! One-way upload of a local directory into a remote folder, with a choice
//! of how files that exist remotely are treated.

use crate::entry::{contains_file, lemma_first_file, Folder, FolderView};
use crate::folder::sync::{local_views, once, plan_push, retried, LocalEntry, LocalEntryView};
use crate::task::{step_views, Step, StepView, Task, TaskView, UploadSpec, UploadView};
use vstd::prelude::*;

verus! {

/// How to decide whether a local file is uploaded.
#[derive(Debug, Clone, Copy, PartialEq, Eq, Structural)]
pub enum CompareMethod {
    /// Upload unless the remote file has the same checksum.
    Checksum,
    /// Always upload.
    Force,
    /// Upload unless a remote file of that name exists.
    Presence,
}

/// What is to be done about the upload of one file.
#[derive(Debug, Clone, Copy, PartialEq, Eq, Structural)]
pub enum Decision {
    /// Upload the file.
    Upload,
    /// Do not upload the file.
    Skip,
    /// Compute the checksum of the local file first, to compare it with
    /// that of this remote file.
    LocalChecksum { file_id: u64 },
    /// Fetch the checksum of this remote file first.
    RemoteChecksum { file_id: u64 },
}

/// The identifier of the first file called `name` in `folder`, if there is
/// one.
pub open spec fn remote_file_id(folder: FolderView, name: Seq<char>) -> Option<u64> {
    match folder.file_index(name) {
        Some(i) => Some(folder.listing[i]->File_file_id),
        None => None,
    }
}

/// The checksum of the local file as far as it is known: not asked for yet,
/// or computed, or the reason why it could not be computed.
pub open spec fn local_sum(local: Option<&Result<String, String>>) -> Option<
    Result<Seq<char>, Seq<char>>,
> {
    match local {
        None => None,
        Some(Ok(sum)) => Some(Ok(sum@)),
        Some(Err(reason)) => Some(Err(reason@)),
    }
}

/// The checksum of the remote file as far as it is known.
pub open spec fn remote_sum(remote: Option<&String>) -> Option<Seq<char>> {
    match remote {
        None => None,
        Some(sum) => Some(sum@),
    }
}

/// The decision by checksums, from what is known so far. Without a remote
/// file of that name the file is uploaded, and no checksum is asked for.
/// With one, the local checksum is asked for first; if it cannot be
/// computed, the file is skipped; if it can, the remote checksum is asked
/// for; and once both are known, the file is uploaded exactly when they
/// differ.
pub open spec fn by_checksum(
    remote_file: Option<u64>,
    local: Option<Result<Seq<char>, Seq<char>>>,
    remote: Option<Seq<char>>,
) -> Decision {
    match remote_file {
        None => Decision::Upload,
        Some(file_id) => match local {
            None => Decision::LocalChecksum { file_id },
            Some(Err(_)) => Decision::Skip,
            Some(Ok(local_sum)) => match remote {
                None => Decision::RemoteChecksum { file_id },
                Some(remote_sum) => if local_sum != remote_sum {
                    Decision::Upload
                } else {
                    Decision::Skip
                },
            },
        },
    }
}

/// The decision by checksums for a file whose remote counterpart, if any,
/// is `remote_file`, from the checksums known so far.
pub fn checksum_decision(
    remote_file: Option<u64>,
    local: Option<&Result<String, String>>,
    remote: Option<&String>,
) -> (decision: Decision)
    ensures
        decision == by_checksum(remote_file, local_sum(local), remote_sum(remote)),
{
    match remote_file {
        None => Decision::Upload,
        Some(file_id) => match local {
            None => Decision::LocalChecksum { file_id },
            Some(Err(_)) => Decision::Skip,
            Some(Ok(local_sum)) => match remote {
                None => Decision::RemoteChecksum { file_id },
                Some(remote_sum) => if *local_sum == *remote_sum {
                    Decision::Skip
                } else {
                    Decision::Upload
                },
            },
        },
    }
}

/// Decides by checksums whether the local file called `fname` is uploaded
/// into `folder`, from the checksums known so far: `local` is the checksum
/// of the local file or why it could not be computed, `remote` that of the
/// remote file, and either is absent while it was not asked for.
///
/// Without a remote file of that name the answer is to upload, whatever
/// the checksums: none is needed. A local checksum that could not be
/// computed gives a skip, never a failure, and the remote checksum is then
/// not asked for.
pub fn should_upload_file_with_checksum(
    fname: &String,
    folder: &Folder,
    local: Option<&Result<String, String>>,
    remote: Option<&String>,
) -> (decision: Decision)
    ensures
        decision == by_checksum(remote_file_id(folder@, fname@), local_sum(local), remote_sum(remote)),
        !has_file(folder@, fname@) ==> decision == Decision::Upload,
        has_file(folder@, fname@) && local_sum(local) is Some && local_sum(local)->0 is Err
            ==> decision == Decision::Skip,
        has_file(folder@, fname@) && local_sum(local) is Some && local_sum(local)->0 is Ok
            && remote_sum(remote) is Some ==> decision == if local_sum(local)->0->Ok_0
            != remote_sum(remote)->0 {
            Decision::Upload
        } else {
            Decision::Skip
        },
{
    let remote_file = match contains_file(folder, fname) {
        Some(file) => Some(file.file_id),
        None => None,
    };
    proof {
        lemma_first_file(folder.listing(), fname@, 0);
        if folder.file_index(fname@) is Some {
            let i = folder.file_index(fname@)->0;
            assert(folder.listing()[i] == folder.entries()[i]@);
        }
    }
    checksum_decision(remote_file, local, remote)
}

impl CompareMethod {
    /// The decision for a local file called `fname` that is to go into
    /// `folder`, as far as the contents of the folder tell.
    pub open spec fn decide(self, fname: Seq<char>, folder: FolderView) -> Decision {
        match self {
            CompareMethod::Force => Decision::Upload,
            CompareMethod::Presence => match folder.file_index(fname) {
                Some(_) => Decision::Skip,
                None => Decision::Upload,
            },
            CompareMethod::Checksum => by_checksum(remote_file_id(folder, fname), None, None),
        }
    }

    /// Decides from the contents of `folder` whether the local file called
    /// `fname` is uploaded into it.
    pub fn should_upload_file(&self, fname: &String, folder: &Folder) -> (decision: Decision)
        ensures
            decision == self.decide(fname@, folder@),
    {
        match self {
            CompareMethod::Force => Decision::Upload,
            CompareMethod::Presence => match contains_file(folder, fname) {
                Some(_) => Decision::Skip,
                None => Decision::Upload,
            },
            CompareMethod::Checksum => should_upload_file_with_checksum(fname, folder, None, None),
        }
    }
}

/// The upload of the local directory `path` into a remote folder, and how
/// it is to proceed.
#[derive(Debug, PartialEq, Eq)]
pub struct Command {
    /// What was uploaded is removed locally. A file is removed once its
    /// upload has ended well, and only then: a file that was not uploaded,
    /// because the remote folder holds it already, because the checksums are
    /// equal or because its checksum could not be computed, is kept. A
    /// directory is removed once its upload has ended and it is empty, so
    /// that what was kept in it stays.
    pub remove_after_upload: bool,
    /// How files that exist remotely are treated.
    pub compare_method: CompareMethod,
    /// A failed upload may leave a partial file behind remotely.
    pub allow_partial_upload: bool,
    /// How often a failed file or directory is attempted again.
    pub retries: usize,
    /// The local directory.
    pub path: String,
}

impl Command {
    /// The upload of the local file at `path` under `name` into `folder_id`.
    pub open spec fn upload_of(self, name: Seq<char>, path: Seq<char>, folder_id: u64) -> UploadView {
        UploadView {
            name,
            path,
            folder_id,
            no_partial: !self.allow_partial_upload,
            remove_after: self.remove_after_upload,
        }
    }

    /// The transfer, if any, for the local file at `path` called `name`:
    /// the upload, or the comparison of checksums that decides on it, which
    /// begins with the checksum of the local file.
    pub open spec fn file_task(self, path: Seq<char>, name: Seq<char>, folder: FolderView) -> Option<
        TaskView,
    > {
        let upload = self.upload_of(name, path, folder.folder_id);
        match self.compare_method.decide(name, folder) {
            Decision::Upload => Some(TaskView::Upload(upload)),
            Decision::Skip => None,
            Decision::LocalChecksum { file_id } => Some(
                TaskView::LocalChecksum { file_id, upload },
            ),
            Decision::RemoteChecksum { file_id } => Some(
                TaskView::LocalChecksum { file_id, upload },
            ),
        }
    }

    /// The steps for the local file at `path` called `name`: its transfer,
    /// retried, if there is one. The removal of the file is no step of the
    /// plan: the upload carries it, so that it follows an upload that ended
    /// well and nothing else.
    pub open spec fn file_steps(self, path: Seq<char>, name: Seq<char>, folder: FolderView) -> Seq<
        StepView,
    > {
        match self.file_task(path, name, folder) {
            Some(task) => seq![retried(task)],
            None => Seq::empty(),
        }
    }

    /// The steps for the local directory at `path` called `name`: the
    /// remote folder is created, or found, and the directory uploaded into
    /// it; the directory is then removed if what was uploaded is to be
    /// removed and nothing is left in it.
    pub open spec fn directory_steps(self, path: Seq<char>, name: Seq<char>, folder_id: u64) -> Seq<
        StepView,
    > {
        let create = once(
            TaskView::CreateRemoteFolder { name, parent_id: folder_id, path, retried: true },
        );
        if self.remove_after_upload {
            seq![
                create,
                once(TaskView::RemoveLocalDir { path, lenient: true, recursive: false }),
            ]
        } else {
            seq![create]
        }
    }

    /// The steps for one local entry; none for an entry without a name.
    pub open spec fn entry_steps(self, entry: LocalEntryView, folder: FolderView) -> Seq<StepView> {
        match entry.name() {
            None => Seq::empty(),
            Some(name) => match entry {
                LocalEntryView::File(path) => self.file_steps(path, name, folder),
                LocalEntryView::Folder(path) => self.directory_steps(path, name, folder.folder_id),
            },
        }
    }

    /// The steps that upload the entries of one directory, in their order.
    pub open spec fn folder_steps(self, entries: Seq<LocalEntryView>, folder: FolderView) -> Seq<StepView>
        decreases entries.len(),
    {
        if entries.len() == 0 {
            Seq::empty()
        } else {
            self.folder_steps(entries.drop_last(), folder) + self.entry_steps(
                entries.last(),
                folder,
            )
        }
    }

    /// The upload of the local file at `fpath` under `fname` into `folder`.
    fn upload(&self, fpath: &String, fname: &String, folder: &Folder) -> (upload: UploadSpec)
        ensures
            upload@ == self.upload_of(fname@, fpath@, folder.folder_id),
    {
        UploadSpec {
            name: fname.clone(),
            path: fpath.clone(),
            folder_id: folder.folder_id,
            no_partial: !self.allow_partial_upload,
            remove_after: self.remove_after_upload,
        }
    }

    /// The transfer, if any, for the local file at `fpath` called `fname`
    /// that is to go into `folder`, by the compare method. The upload
    /// carries the removal of the file if what was uploaded is to be
    /// removed.
    pub fn handle_file(&self, fpath: &String, fname: &String, folder: &Folder) -> (task: Option<Task>)
        ensures
            match task {
                Some(t) => self.file_task(fpath@, fname@, folder@) == Some(t@),
                None => self.file_task(fpath@, fname@, folder@) is None,
            },
    {
        match self.compare_method.should_upload_file(fname, folder) {
            Decision::Skip => None,
            Decision::Upload => Some(Task::Upload(self.upload(fpath, fname, folder))),
            Decision::LocalChecksum { file_id } => Some(
                Task::LocalChecksum { file_id, upload: self.upload(fpath, fname, folder) },
            ),
            Decision::RemoteChecksum { file_id } => Some(
                Task::LocalChecksum { file_id, upload: self.upload(fpath, fname, folder) },
            ),
        }
    }

    /// Plans the upload of one local file: its transfer, if there is one,
    /// is retried while the budget lasts. A file that is not uploaded has
    /// no step, and is kept.
    pub fn handle_file_with_retry(
        &self,
        plan: &mut Vec<Step>,
        fpath: &String,
        fname: &String,
        folder: &Folder,
    )
        ensures
            step_views(final(plan)@) == step_views(old(plan)@) + self.file_steps(
                fpath@,
                fname@,
                folder@,
            ),
    {
        let ghost before = step_views(plan@);
        match self.handle_file(fpath, fname, folder) {
            Some(task) => {
                plan_push(plan, task, true);
            },
            None => {},
        }
        assert(step_views(plan@) =~= before + self.file_steps(fpath@, fname@, folder@));
    }

    /// Plans the upload of the entries of one local directory into
    /// `remote_folder`, fetched with its contents: a directory is created
    /// remotely, or found if it exists, and uploaded in turn; a file is
    /// uploaded by the compare method. Entries without a name are passed
    /// over.
    pub fn handle_folder(&self, local_entries: &Vec<LocalEntry>, remote_folder: &Folder) -> (plan:
        Vec<Step>)
        ensures
            step_views(plan@) == self.folder_steps(local_views(local_entries@), remote_folder@),
    {
        let mut plan: Vec<Step> = Vec::new();
        let mut i: usize = 0;
        let ghost shown = local_views(local_entries@);
        assert(shown.take(0) =~= Seq::<LocalEntryView>::empty());
        assert(step_views(plan@) =~= Seq::<StepView>::empty());
        while i < local_entries.len()
            invariant
                i <= local_entries.len(),
                shown == local_views(local_entries@),
                step_views(plan@) == self.folder_steps(shown.take(i as int), remote_folder@),
            decreases local_entries.len() - i,
        {
            let entry = &local_entries[i];
            let ghost before = step_views(plan@);
            proof {
                assert(shown.take(i + 1).drop_last() =~= shown.take(i as int));
                assert(shown.take(i + 1).last() == entry@);
            }
            match entry.name() {
                None => {},
                Some(fname) => match entry {
                    LocalEntry::Folder(fpath) => {
                        plan_push(
                            &mut plan,
                            Task::CreateRemoteFolder {
                                name: fname,
                                parent_id: remote_folder.folder_id,
                                path: fpath.clone(),
                                retried: true,
                            },
                            false,
                        );
                        if self.remove_after_upload {
                            plan_push(
                                &mut plan,
                                Task::RemoveLocalDir {
                                    path: fpath.clone(),
                                    lenient: true,
                                    recursive: false,
                                },
                                false,
                            );
                        }
                    },
                    LocalEntry::File(fpath) => {
                        self.handle_file_with_retry(&mut plan, fpath, &fname, remote_folder);
                    },
                },
            }
            assert(step_views(plan@) =~= before + self.entry_steps(entry@, remote_folder@));
            i += 1;
        }
        assert(shown.take(local_entries.len() as int) =~= shown);
        plan
    }

    /// The step that uploads the local directory `local_path` into the
    /// remote folder `folder_id`: the directory as a whole is attempted
    /// again after a failure while the budget lasts.
    pub fn handle_folder_with_retry(local_path: &String, folder_id: u64) -> (step: Step)
        ensures
            step@ == retried(TaskView::Sync { folder_id, path: local_path@ }),
    {
        Step { task: Task::Sync { folder_id, path: local_path.clone() }, retried: true }
    }
}

/// Whether `folder` holds a file called `name`.
pub open spec fn has_file(folder: FolderView, name: Seq<char>) -> bool {
    exists|i: int|
        0 <= i < folder.listing.len() && (#[trigger] folder.listing[i]) is File
            && folder.listing[i].name() == name
}

/// Under the presence method a local file is uploaded exactly when the
/// remote folder holds no file of its name. Nothing else enters into it:
/// neither the content of the local file nor that of the remote one.
pub proof fn lemma_presence_uploads_iff_absent(
    command: Command,
    path: Seq<char>,
    name: Seq<char>,
    folder: FolderView,
)
    requires
        command.compare_method == CompareMethod::Presence,
    ensures
        has_file(folder, name) ==> command.file_task(path, name, folder) is None,
        !has_file(folder, name) ==> command.file_task(path, name, folder) == Some(
            TaskView::Upload(command.upload_of(name, path, folder.folder_id)),
        ),
{
    lemma_first_file(folder.listing, name, 0);
}

/// Under the force method a local file is always uploaded.
pub proof fn lemma_force_always_uploads(
    command: Command,
    path: Seq<char>,
    name: Seq<char>,
    folder: FolderView,
)
    requires
        command.compare_method == CompareMethod::Force,
    ensures
        command.file_task(path, name, folder) == Some(
            TaskView::Upload(command.upload_of(name, path, folder.folder_id)),
        ),
{
}

/// Under the checksum method a local file is uploaded at once when the
/// remote folder holds no file of its name; when it holds one, the
/// checksums of the two are compared first.
pub proof fn lemma_checksum_compares_when_present(
    command: Command,
    path: Seq<char>,
    name: Seq<char>,
    folder: FolderView,
)
    requires
        command.compare_method == CompareMethod::Checksum,
    ensures
        has_file(folder, name) ==> command.file_task(path, name, folder) is Some
            && command.file_task(path, name, folder)->0 is LocalChecksum
            && command.file_task(path, name, folder)->0->LocalChecksum_upload == command.upload_of(
            name,
            path,
            folder.folder_id,
        ),
        !has_file(folder, name) ==> command.file_task(path, name, folder) == Some(
            TaskView::Upload(command.upload_of(name, path, folder.folder_id)),
        ),
{
    lemma_first_file(folder.listing, name, 0);
}

/// The plan for a local file never holds its removal, whatever the method
/// and whatever the remote folder holds: a file that is not uploaded is
/// kept.
pub proof fn lemma_plan_removes_no_file(
    command: Command,
    path: Seq<char>,
    name: Seq<char>,
    folder: FolderView,
)
    ensures
        forall|i: int|
            0 <= i < command.file_steps(path, name, folder).len() ==> !((
            #[trigger] command.file_steps(path, name, folder)[i]).task is RemoveLocalFile),
        command.file_task(path, name, folder) is None ==> command.file_steps(path, name, folder)
            == Seq::<StepView>::empty(),
{
}

/// The files of one directory that the plan uploads without a question are
/// those without a remote file of their name, under the presence method and
/// under the checksum method alike; a file with a remote file of its name
/// has no step under the presence method, and under the checksum method the
/// one step that compares the checksums.
pub proof fn lemma_only_new_files_are_uploaded(
    command: Command,
    path: Seq<char>,
    name: Seq<char>,
    folder: FolderView,
)
    requires
        command.compare_method != CompareMethod::Force,
    ensures
        (exists|i: int|
            0 <= i < command.file_steps(path, name, folder).len() && (
            #[trigger] command.file_steps(path, name, folder)[i]).task is Upload) <==> !has_file(
            folder,
            name,
        ),
{
    lemma_first_file(folder.listing, name, 0);
    let steps = command.file_steps(path, name, folder);
    if !has_file(folder, name) {
        assert(steps[0].task is Upload);
    }
}

/// The uploads that a plan holds as steps, in their order.
pub open spec fn planned_uploads(steps: Seq<StepView>) -> Seq<UploadView>
    decreases steps.len(),
{
    if steps.len() == 0 {
        Seq::empty()
    } else {
        match steps.last().task {
            TaskView::Upload(upload) => planned_uploads(steps.drop_last()).push(upload),
            _ => planned_uploads(steps.drop_last()),
        }
    }
}

/// The uploads that a plan makes depend on a comparison of checksums, each
/// with the remote file to compare with, in their order.
pub open spec fn planned_comparisons(steps: Seq<StepView>) -> Seq<(u64, UploadView)>
    decreases steps.len(),
{
    if steps.len() == 0 {
        Seq::empty()
    } else {
        match steps.last().task {
            TaskView::LocalChecksum { file_id, upload } => planned_comparisons(
                steps.drop_last(),
            ).push((file_id, upload)),
            _ => planned_comparisons(steps.drop_last()),
        }
    }
}

impl Command {
    /// The uploads of the local files among `entries` that `folder` does not
    /// hold: those with a name but without a remote file of that name, in
    /// their order.
    pub open spec fn new_files(self, entries: Seq<LocalEntryView>, folder: FolderView) -> Seq<UploadView>
        decreases entries.len(),
    {
        if entries.len() == 0 {
            Seq::empty()
        } else {
            let rest = self.new_files(entries.drop_last(), folder);
            match (entries.last(), entries.last().name()) {
                (LocalEntryView::File(path), Some(name)) => if remote_file_id(folder, name) is None {
                    rest.push(self.upload_of(name, path, folder.folder_id))
                } else {
                    rest
                },
                _ => rest,
            }
        }
    }

    /// The uploads of the local files among `entries` that `folder` holds
    /// already, each with the remote file of its name, in their order.
    pub open spec fn held_files(self, entries: Seq<LocalEntryView>, folder: FolderView) -> Seq<
        (u64, UploadView),
    >
        decreases entries.len(),
    {
        if entries.len() == 0 {
            Seq::empty()
        } else {
            let rest = self.held_files(entries.drop_last(), folder);
            match (entries.last(), entries.last().name()) {
                (LocalEntryView::File(path), Some(name)) => match remote_file_id(folder, name) {
                    Some(file_id) => rest.push(
                        (file_id, self.upload_of(name, path, folder.folder_id)),
                    ),
                    None => rest,
                },
                _ => rest,
            }
        }
    }
}

/// What two plans in a row upload and compare is what the first and then
/// the second upload and compare.
pub proof fn lemma_planned_by_both(a: Seq<StepView>, b: Seq<StepView>)
    ensures
        planned_uploads(a + b) == planned_uploads(a) + planned_uploads(b),
        planned_comparisons(a + b) == planned_comparisons(a) + planned_comparisons(b),
    decreases b.len(),
{
    if b.len() == 0 {
        assert(a + b =~= a);
        assert(planned_uploads(a) + planned_uploads(b) =~= planned_uploads(a));
        assert(planned_comparisons(a) + planned_comparisons(b) =~= planned_comparisons(a));
    } else {
        lemma_planned_by_both(a, b.drop_last());
        assert((a + b).drop_last() =~= a + b.drop_last());
        assert((a + b).last() == b.last());
        assert(planned_uploads(a + b) =~= planned_uploads(a) + planned_uploads(b));
        assert(planned_comparisons(a + b) =~= planned_comparisons(a) + planned_comparisons(b));
    }
}

/// What the plan for one entry uploads and compares.
pub proof fn lemma_planned_for_entry(command: Command, entry: LocalEntryView, folder: FolderView)
    requires
        command.compare_method != CompareMethod::Force,
    ensures
        planned_uploads(command.entry_steps(entry, folder)) == command.new_files(
            seq![entry],
            folder,
        ),
        planned_comparisons(command.entry_steps(entry, folder)) == if command.compare_method
            == CompareMethod::Checksum {
            command.held_files(seq![entry], folder)
        } else {
            Seq::empty()
        },
{
    let steps = command.entry_steps(entry, folder);
    reveal_with_fuel(planned_uploads, 3);
    reveal_with_fuel(planned_comparisons, 3);
    reveal_with_fuel(Command::new_files, 2);
    reveal_with_fuel(Command::held_files, 2);
    assert(seq![entry].drop_last() =~= Seq::<LocalEntryView>::empty());
    assert(seq![entry].last() == entry);
    assert(steps.len() <= 2);
    if steps.len() == 2 {
        assert(steps.drop_last().drop_last() =~= Seq::<StepView>::empty());
    } else if steps.len() == 1 {
        assert(steps.drop_last() =~= Seq::<StepView>::empty());
    }
    assert(planned_uploads(steps) =~= command.new_files(seq![entry], folder));
    assert(planned_comparisons(steps) =~= if command.compare_method == CompareMethod::Checksum {
        command.held_files(seq![entry], folder)
    } else {
        Seq::empty()
    });
}

/// Under the presence method and under the checksum method, the plan for a
/// directory uploads without a question exactly the local files that the
/// remote folder does not hold, each once and in their order. Under the
/// presence method it does nothing about the files that the folder holds;
/// under the checksum method it compares, for each of them, its checksum
/// with that of the remote file, and the engine then uploads it exactly
/// when the two differ. So a file that was uploaded before and has not
/// changed is not uploaded again.
pub proof fn lemma_plan_uploads_new_files(
    command: Command,
    entries: Seq<LocalEntryView>,
    folder: FolderView,
)
    requires
        command.compare_method != CompareMethod::Force,
    ensures
        planned_uploads(command.folder_steps(entries, folder)) == command.new_files(
            entries,
            folder,
        ),
        command.compare_method == CompareMethod::Presence ==> planned_comparisons(
            command.folder_steps(entries, folder),
        ) == Seq::<(u64, UploadView)>::empty(),
        command.compare_method == CompareMethod::Checksum ==> planned_comparisons(
            command.folder_steps(entries, folder),
        ) == command.held_files(entries, folder),
    decreases entries.len(),
{
    if entries.len() > 0 {
        let init = entries.drop_last();
        let entry = entries.last();
        lemma_plan_uploads_new_files(command, init, folder);
        lemma_planned_for_entry(command, entry, folder);
        lemma_planned_by_both(
            command.folder_steps(init, folder),
            command.entry_steps(entry, folder),
        );
        reveal_with_fuel(Command::new_files, 2);
        reveal_with_fuel(Command::held_files, 2);
        assert(seq![entry].drop_last() =~= Seq::<LocalEntryView>::empty());
        assert(seq![entry].last() == entry);
        assert(command.new_files(entries, folder) =~= command.new_files(init, folder)
            + command.new_files(seq![entry], folder));
        assert(command.held_files(entries, folder) =~= command.held_files(init, folder)
            + command.held_files(seq![entry], folder));
    }
}

} // verus!
