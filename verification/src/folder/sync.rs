//! Two-way reconciliation of a local directory with a remote folder.

use crate::classify::{
    absent_from, classify, in_both, lemma_classes_partition, lemma_converged_classes,
    lemma_filter_membership, only_in, views,
};
use crate::entry::{entry_views, Entry, EntryView, File, Folder};
use crate::listing::{collect, lemma_collect, lookup_in, position, Listing};
use crate::path::{file_name, is_plain_name, join, joined, lemma_join_then_name, name_of};
use crate::task::{
    step_views, Diagnostic, DiagnosticView, Step, StepView, Task, TaskView, UploadSpec, UploadView,
};
use vstd::prelude::*;

verus! {

/// A local entry: a file or a directory, by its path.
#[derive(Debug, PartialEq, Eq)]
pub enum LocalEntry {
    File(String),
    Folder(String),
}

/// A local entry as a value of the model.
pub enum LocalEntryView {
    File(Seq<char>),
    Folder(Seq<char>),
}

impl LocalEntryView {
    /// The path of the entry.
    pub open spec fn path(self) -> Seq<char> {
        match self {
            LocalEntryView::File(path) => path,
            LocalEntryView::Folder(path) => path,
        }
    }

    /// The name of the entry: the last component of its path, if it has one.
    pub open spec fn name(self) -> Option<Seq<char>> {
        file_name(self.path())
    }
}

impl View for LocalEntry {
    type V = LocalEntryView;

    open spec fn view(&self) -> LocalEntryView {
        match *self {
            LocalEntry::File(path) => LocalEntryView::File(path@),
            LocalEntry::Folder(path) => LocalEntryView::Folder(path@),
        }
    }
}

/// The models of a sequence of local entries.
pub open spec fn local_views(entries: Seq<LocalEntry>) -> Seq<LocalEntryView> {
    entries.map_values(|entry: LocalEntry| entry@)
}

impl LocalEntry {
    /// The path of the entry.
    pub open spec fn spec_path(self) -> Seq<char> {
        self@.path()
    }

    /// The name of the entry: the last component of its path, if it has one.
    pub open spec fn spec_name(self) -> Option<Seq<char>> {
        self@.name()
    }

    /// The path of the entry.
    pub fn path(&self) -> (path: &String)
        ensures
            path@ == self.spec_path(),
    {
        match self {
            LocalEntry::File(path) => path,
            LocalEntry::Folder(path) => path,
        }
    }

    /// The name of the entry, if its path has one.
    pub fn name(&self) -> (name: Option<String>)
        ensures
            match name {
                Some(n) => self.spec_name() == Some(n@),
                None => self.spec_name() is None,
            },
    {
        name_of(self.path())
    }
}

/// The names of remote entries, in order.
pub open spec fn remote_names(entries: Seq<EntryView>) -> Seq<Option<Seq<char>>> {
    entries.map_values(|entry: EntryView| Some(entry.name()))
}

/// The names of local entries, in order; an entry may have none.
pub open spec fn local_names(entries: Seq<LocalEntryView>) -> Seq<Option<Seq<char>>> {
    entries.map_values(|entry: LocalEntryView| entry.name())
}

/// The names of the contents of a remote folder, each once.
pub open spec fn remote_keys(entries: Seq<EntryView>) -> Seq<Seq<char>> {
    collect(remote_names(entries)).0
}

/// Where the entry called `name` stands in a remote folder: the index of
/// the last one listed with that name.
pub open spec fn remote_index(entries: Seq<EntryView>, name: Seq<char>) -> Option<int> {
    let listing = collect(remote_names(entries));
    match lookup_in(listing.0, listing.1, name) {
        Some(i) => Some(i as int),
        None => None,
    }
}

/// The entry called `name` in a remote folder: the last one listed with
/// that name.
pub open spec fn remote_entry(entries: Seq<EntryView>, name: Seq<char>) -> Option<EntryView> {
    match remote_index(entries, name) {
        Some(i) => Some(entries[i]),
        None => None,
    }
}

/// The names of the entries of a local directory, each once.
pub open spec fn local_keys(entries: Seq<LocalEntryView>) -> Seq<Seq<char>> {
    collect(local_names(entries)).0
}

/// Where the entry called `name` stands in a local directory: the index of
/// the last one listed with that name.
pub open spec fn local_index(entries: Seq<LocalEntryView>, name: Seq<char>) -> Option<int> {
    let listing = collect(local_names(entries));
    match lookup_in(listing.0, listing.1, name) {
        Some(i) => Some(i as int),
        None => None,
    }
}

/// The entry called `name` in a local directory: the last one listed with
/// that name.
pub open spec fn local_entry(entries: Seq<LocalEntryView>, name: Seq<char>) -> Option<
    LocalEntryView,
> {
    match local_index(entries, name) {
        Some(i) => Some(entries[i]),
        None => None,
    }
}

/// The contents of a remote folder, found by name.
pub struct RemoteEntries<'a> {
    pub folder: &'a Folder,
    pub index: Listing<usize>,
}

impl<'a> RemoteEntries<'a> {
    /// The index holds the names of the folder's contents.
    pub open spec fn wf(self) -> bool {
        &&& self.index.wf()
        &&& (self.index.keys(), self.index.values@) == collect(
            remote_names(self.folder.listing()),
        )
    }

    /// The entry called `name`, if there is one: the entry of the folder
    /// that stands at the index found for the name.
    pub fn get(&self, name: &String) -> (found: Option<&'a Entry>)
        requires
            self.wf(),
        ensures
            match found {
                Some(entry) => remote_index(self.folder.listing(), name@) is Some
                    && 0 <= remote_index(self.folder.listing(), name@)->0
                    < self.folder.entries().len() && *entry == self.folder.entries()[remote_index(
                    self.folder.listing(),
                    name@,
                )->0] && remote_entry(self.folder.listing(), name@) == Some(entry@),
                None => remote_index(self.folder.listing(), name@) is None && remote_entry(
                    self.folder.listing(),
                    name@,
                ) is None,
            },
    {
        proof {
            if self.folder.contents is Some {
                assert(self.folder.entries().len() == self.folder.contents->0.len());
            }
            lemma_collect(remote_names(self.folder.listing()));
        }
        match self.index.find(name) {
            Some(at) => {
                let i = self.index.values[at];
                match &self.folder.contents {
                    Some(list) => Some(&list[i]),
                    None => None,
                }
            },
            None => None,
        }
    }
}

/// The entries of a local directory, found by name.
pub struct LocalEntries<'a> {
    pub entries: &'a Vec<LocalEntry>,
    pub index: Listing<usize>,
}

impl<'a> LocalEntries<'a> {
    /// The index holds the names of the entries that have one.
    pub open spec fn wf(self) -> bool {
        &&& self.index.wf()
        &&& (self.index.keys(), self.index.values@) == collect(
            local_names(local_views(self.entries@)),
        )
    }

    /// The entry called `name`, if there is one: the entry that stands at
    /// the index found for the name.
    pub fn get(&self, name: &String) -> (found: Option<&'a LocalEntry>)
        requires
            self.wf(),
        ensures
            match found {
                Some(entry) => local_index(local_views(self.entries@), name@) is Some
                    && 0 <= local_index(local_views(self.entries@), name@)->0 < self.entries@.len()
                    && *entry == self.entries@[local_index(local_views(self.entries@), name@)->0]
                    && local_entry(local_views(self.entries@), name@) == Some(entry@),
                None => local_index(local_views(self.entries@), name@) is None && local_entry(
                    local_views(self.entries@),
                    name@,
                ) is None,
            },
    {
        proof {
            assert(self.entries@.len() == self.entries.len());
            lemma_collect(local_names(local_views(self.entries@)));
        }
        match self.index.find(name) {
            Some(at) => {
                let i = self.index.values[at];
                Some(&self.entries[i])
            },
            None => None,
        }
    }
}

/// The contents of a remote folder by name. Where two entries bear the same
/// name, the later one stands for it. A folder fetched without its contents
/// has none.
pub fn get_remote_entries<'a>(folder: &'a Folder) -> (remote: RemoteEntries<'a>)
    ensures
        remote.wf(),
        remote.folder == folder,
{
    let mut index: Listing<usize> = Listing::new();
    match &folder.contents {
        None => {
            assert(remote_names(folder.listing()) =~= Seq::<Option<Seq<char>>>::empty());
            assert(index.keys() =~= Seq::<Seq<char>>::empty());
        },
        Some(list) => {
            let mut i: usize = 0;
            assert(folder.entries() == list@);
            let ghost all = remote_names(entry_views(list@));
            assert(all.take(0) =~= Seq::<Option<Seq<char>>>::empty());
            while i < list.len()
                invariant
                    i <= list.len(),
                    index.wf(),
                    all == remote_names(entry_views(list@)),
                    (index.keys(), index.values@) == collect(all.take(i as int)),
                decreases list.len() - i,
            {
                let name = list[i].name().clone();
                proof {
                    assert(all.take(i + 1).drop_last() =~= all.take(i as int));
                    assert(all.take(i + 1).last() == Some(name@));
                }
                index.insert(name, i);
                i += 1;
            }
            assert(all.take(list.len() as int) =~= all);
        },
    }
    RemoteEntries { folder, index }
}

/// The entries of a local directory by name. Entries whose path has no name
/// are left out. Where two entries bear the same name, the later one stands
/// for it.
pub fn get_local_entries<'a>(entries: &'a Vec<LocalEntry>) -> (local: LocalEntries<'a>)
    ensures
        local.wf(),
        local.entries == entries,
{
    let mut index: Listing<usize> = Listing::new();
    let mut i: usize = 0;
    let ghost all = local_names(local_views(entries@));
    assert(all.take(0) =~= Seq::<Option<Seq<char>>>::empty());
    while i < entries.len()
        invariant
            i <= entries.len(),
            index.wf(),
            all == local_names(local_views(entries@)),
            (index.keys(), index.values@) == collect(all.take(i as int)),
        decreases entries.len() - i,
    {
        let name = entries[i].name();
        proof {
            assert(all.take(i + 1).drop_last() =~= all.take(i as int));
            assert(all.take(i + 1).last() == entries@[i as int].spec_name());
        }
        match name {
            Some(name) => {
                index.insert(name, i);
            },
            None => {},
        }
        i += 1;
    }
    assert(all.take(entries.len() as int) =~= all);
    LocalEntries { entries, index }
}

/// A step that is attempted once.
pub open spec fn once(task: TaskView) -> StepView {
    StepView { task, retried: false }
}

/// A step that is attempted again after a failure while the retry budget
/// lasts.
pub open spec fn retried(task: TaskView) -> StepView {
    StepView { task, retried: true }
}

/// Adds a step to the end of a plan.
pub fn plan_push(plan: &mut Vec<Step>, task: Task, retried: bool)
    ensures
        step_views(final(plan)@) == step_views(old(plan)@).push(StepView { task: task@, retried }),
{
    plan.push(Step { task, retried });
    assert(step_views(plan@) =~= step_views(old(plan)@).push(StepView { task: task@, retried }));
}

/// The two-way reconciliation of the local directory `path` with a remote
/// folder, and how it is to proceed.
#[derive(Debug, PartialEq, Eq)]
pub struct Command {
    /// Local entries that the remote folder lacks are not uploaded.
    pub disable_upload: bool,
    /// What was uploaded is removed locally.
    pub remove_after_upload: bool,
    /// Remote entries that the local directory lacks are not downloaded.
    pub disable_download: bool,
    /// What was downloaded is deleted remotely.
    pub remove_after_download: bool,
    /// A failed upload may leave a partial file behind remotely.
    pub allow_partial_upload: bool,
    /// How often a failed transfer of one file is attempted again.
    pub retries: u8,
    /// The local directory.
    pub path: String,
}

impl Command {
    /// The steps that bring the remote file `file_id`, called `name`, into
    /// the local directory `local_path`.
    pub open spec fn download_file_steps(
        self,
        name: Seq<char>,
        file_id: u64,
        local_path: Seq<char>,
    ) -> Seq<StepView> {
        let download = retried(TaskView::Download { file_id, path: joined(local_path, name) });
        if self.remove_after_download {
            seq![download, once(TaskView::DeleteRemoteFile { file_id })]
        } else {
            seq![download]
        }
    }

    /// The steps that bring the remote folder `folder_id`, called `name`,
    /// into the local directory `local_path`.
    pub open spec fn download_folder_steps(
        self,
        name: Seq<char>,
        folder_id: u64,
        local_path: Seq<char>,
    ) -> Seq<StepView> {
        let dir = joined(local_path, name);
        let steps = seq![
            once(TaskView::CreateLocalDir { path: dir }),
            once(TaskView::Sync { folder_id, path: dir }),
        ];
        if self.remove_after_download {
            steps.push(once(TaskView::DeleteRemoteFolder { folder_id }))
        } else {
            steps
        }
    }

    /// The steps for one name found only remotely.
    pub open spec fn remote_entry_steps(
        self,
        name: Seq<char>,
        entry: Option<EntryView>,
        local_path: Seq<char>,
    ) -> Seq<StepView> {
        match entry {
            Some(EntryView::File { file_id, .. }) => self.download_file_steps(
                name,
                file_id,
                local_path,
            ),
            Some(EntryView::Folder { folder_id, .. }) => self.download_folder_steps(
                name,
                folder_id,
                local_path,
            ),
            None => Seq::empty(),
        }
    }

    /// The steps of the download phase, for the names found only remotely,
    /// in their order.
    pub open spec fn remote_steps(
        self,
        names: Seq<Seq<char>>,
        remote: Seq<EntryView>,
        local_path: Seq<char>,
    ) -> Seq<StepView>
        decreases names.len(),
    {
        if names.len() == 0 {
            Seq::empty()
        } else {
            self.remote_steps(names.drop_last(), remote, local_path) + self.remote_entry_steps(
                names.last(),
                remote_entry(remote, names.last()),
                local_path,
            )
        }
    }

    /// The steps that bring the local file at `path`, called `name`, into
    /// the remote folder `folder_id`. The removal of the file is a step of
    /// its own, which the run reaches only if the upload has ended well; if
    /// the removal fails, the run stops.
    pub open spec fn upload_file_steps(self, name: Seq<char>, path: Seq<char>, folder_id: u64) -> Seq<
        StepView,
    > {
        let upload = retried(
            TaskView::Upload(
                UploadView {
                    name,
                    path,
                    folder_id,
                    no_partial: !self.allow_partial_upload,
                    remove_after: false,
                },
            ),
        );
        if self.remove_after_upload {
            seq![upload, once(TaskView::RemoveLocalFile { path, lenient: false })]
        } else {
            seq![upload]
        }
    }

    /// The steps that bring the local directory at `path`, called `name`,
    /// into the remote folder `folder_id`.
    pub open spec fn upload_folder_steps(
        self,
        name: Seq<char>,
        path: Seq<char>,
        folder_id: u64,
    ) -> Seq<StepView> {
        let create = once(
            TaskView::CreateRemoteFolder { name, parent_id: folder_id, path, retried: false },
        );
        if self.remove_after_upload {
            seq![
                create,
                once(TaskView::RemoveLocalDir { path, lenient: false, recursive: true }),
            ]
        } else {
            seq![create]
        }
    }

    /// The steps for one name found only locally.
    pub open spec fn local_entry_steps(
        self,
        name: Seq<char>,
        entry: Option<LocalEntryView>,
        folder_id: u64,
    ) -> Seq<StepView> {
        match entry {
            Some(LocalEntryView::File(path)) => self.upload_file_steps(name, path, folder_id),
            Some(LocalEntryView::Folder(path)) => self.upload_folder_steps(name, path, folder_id),
            None => Seq::empty(),
        }
    }

    /// The steps of the upload phase, for the names found only locally, in
    /// their order.
    pub open spec fn local_steps(
        self,
        names: Seq<Seq<char>>,
        entries: Seq<LocalEntryView>,
        folder_id: u64,
    ) -> Seq<StepView>
        decreases names.len(),
    {
        if names.len() == 0 {
            Seq::empty()
        } else {
            self.local_steps(names.drop_last(), entries, folder_id) + self.local_entry_steps(
                names.last(),
                local_entry(entries, names.last()),
                folder_id,
            )
        }
    }

    /// The steps for one name found on both sides: two folders are
    /// reconciled in turn, two files are left alone, and a file that faces a
    /// folder is reported.
    pub open spec fn common_entry_steps(
        remote: Option<EntryView>,
        local: Option<LocalEntryView>,
    ) -> Seq<StepView> {
        match (remote, local) {
            (Some(EntryView::Folder { folder_id, .. }), Some(LocalEntryView::Folder(path))) => seq![
                once(TaskView::Sync { folder_id, path }),
            ],
            (Some(EntryView::File { .. }), Some(LocalEntryView::File(_))) => Seq::empty(),
            (Some(_), Some(entry)) => seq![
                once(TaskView::Report(DiagnosticView::TypeConflict { path: entry.path() })),
            ],
            _ => Seq::empty(),
        }
    }

    /// The steps of the common phase, for the names found on both sides, in
    /// their order.
    pub open spec fn common_steps(
        names: Seq<Seq<char>>,
        remote: Seq<EntryView>,
        entries: Seq<LocalEntryView>,
    ) -> Seq<StepView>
        decreases names.len(),
    {
        if names.len() == 0 {
            Seq::empty()
        } else {
            Self::common_steps(names.drop_last(), remote, entries) + Self::common_entry_steps(
                remote_entry(remote, names.last()),
                local_entry(entries, names.last()),
            )
        }
    }

    /// The steps that reconcile one level: the download phase unless
    /// downloads are disabled, then the upload phase unless uploads are
    /// disabled, then the common phase.
    pub open spec fn folder_steps(
        self,
        listing: Seq<EntryView>,
        folder_id: u64,
        entries: Seq<LocalEntryView>,
        local_path: Seq<char>,
    ) -> Seq<StepView> {
        let remote = remote_keys(listing);
        let local = local_keys(entries);
        let download = if self.disable_download {
            Seq::empty()
        } else {
            self.remote_steps(only_in(remote, local), listing, local_path)
        };
        let upload = if self.disable_upload {
            Seq::empty()
        } else {
            self.local_steps(only_in(local, remote), entries, folder_id)
        };
        download + upload + Self::common_steps(in_both(remote, local), listing, entries)
    }

    /// Plans the download of a remote file into the local directory
    /// `local_path`, and its deletion from the store if what was downloaded
    /// is to be removed.
    pub fn download_file(
        &self,
        plan: &mut Vec<Step>,
        remote_name: &String,
        remote_file: &File,
        local_path: &String,
    )
        ensures
            step_views(final(plan)@) == step_views(old(plan)@) + self.download_file_steps(
                remote_name@,
                remote_file.file_id,
                local_path@,
            ),
    {
        let ghost before = step_views(plan@);
        let path = join(local_path, remote_name);
        plan_push(plan, Task::Download { file_id: remote_file.file_id, path }, true);
        if self.remove_after_download {
            plan_push(plan, Task::DeleteRemoteFile { file_id: remote_file.file_id }, false);
        }
        assert(step_views(plan@) =~= before + self.download_file_steps(
            remote_name@,
            remote_file.file_id,
            local_path@,
        ));
    }

    /// Plans the download of a remote folder: the local directory is
    /// created and reconciled with the folder, and the folder is then
    /// deleted from the store if what was downloaded is to be removed.
    pub fn download_folder(
        &self,
        plan: &mut Vec<Step>,
        remote_name: &String,
        remote_folder: &Folder,
        local_path: &String,
    )
        ensures
            step_views(final(plan)@) == step_views(old(plan)@) + self.download_folder_steps(
                remote_name@,
                remote_folder.folder_id,
                local_path@,
            ),
    {
        let ghost before = step_views(plan@);
        let dir = join(local_path, remote_name);
        plan_push(plan, Task::CreateLocalDir { path: dir.clone() }, false);
        plan_push(plan, Task::Sync { folder_id: remote_folder.folder_id, path: dir }, false);
        if self.remove_after_download {
            plan_push(
                plan,
                Task::DeleteRemoteFolder { folder_id: remote_folder.folder_id },
                false,
            );
        }
        assert(step_views(plan@) =~= before + self.download_folder_steps(
            remote_name@,
            remote_folder.folder_id,
            local_path@,
        ));
    }

    /// Plans the download phase: each of `remote_names` is downloaded into
    /// `path`, a file as a file and a folder with all it holds.
    pub fn sync_remote_entries(
        &self,
        plan: &mut Vec<Step>,
        remote_names: &Vec<String>,
        remote_entries: &RemoteEntries,
        path: &String,
    )
        requires
            remote_entries.wf(),
        ensures
            step_views(final(plan)@) == step_views(old(plan)@) + self.remote_steps(
                views(remote_names@),
                remote_entries.folder.listing(),
                path@,
            ),
    {
        let ghost before = step_views(plan@);
        let ghost names = views(remote_names@);
        let ghost folder = remote_entries.folder.listing();
        let mut i: usize = 0;
        assert(names.take(0) =~= Seq::<Seq<char>>::empty());
        assert(step_views(plan@) =~= before + self.remote_steps(names.take(0), folder, path@));
        while i < remote_names.len()
            invariant
                i <= remote_names.len(),
                remote_entries.wf(),
                names == views(remote_names@),
                folder == remote_entries.folder.listing(),
                step_views(plan@) == before + self.remote_steps(names.take(i as int), folder, path@),
            decreases remote_names.len() - i,
        {
            let remote_name = &remote_names[i];
            let ghost so_far = step_views(plan@);
            proof {
                assert(names.take(i + 1).drop_last() =~= names.take(i as int));
                assert(names.take(i + 1).last() == remote_name@);
            }
            match remote_entries.get(remote_name) {
                Some(Entry::File(remote_file)) => {
                    self.download_file(plan, remote_name, remote_file, path);
                },
                Some(Entry::Folder(remote_folder)) => {
                    self.download_folder(plan, remote_name, remote_folder, path);
                },
                None => {},
            }
            assert(step_views(plan@) =~= before + self.remote_steps(
                names.take(i + 1),
                folder,
                path@,
            ));
            i += 1;
        }
        assert(names.take(remote_names.len() as int) =~= names);
    }

    /// Plans the upload of a local file into a remote folder, and its
    /// removal if what was uploaded is to be removed.
    pub fn upload_file(
        &self,
        plan: &mut Vec<Step>,
        local_name: &String,
        local_file: &String,
        remote_folder: &Folder,
    )
        ensures
            step_views(final(plan)@) == step_views(old(plan)@) + self.upload_file_steps(
                local_name@,
                local_file@,
                remote_folder.folder_id,
            ),
    {
        let ghost before = step_views(plan@);
        let upload = UploadSpec {
            name: local_name.clone(),
            path: local_file.clone(),
            folder_id: remote_folder.folder_id,
            no_partial: !self.allow_partial_upload,
            remove_after: false,
        };
        plan_push(plan, Task::Upload(upload), true);
        if self.remove_after_upload {
            plan_push(plan, Task::RemoveLocalFile { path: local_file.clone(), lenient: false }, false);
        }
        assert(step_views(plan@) =~= before + self.upload_file_steps(
            local_name@,
            local_file@,
            remote_folder.folder_id,
        ));
    }

    /// Plans the upload of a local directory: the remote folder is created,
    /// or found if it exists, and reconciled with the directory, and the
    /// directory is then removed if what was uploaded is to be removed.
    pub fn upload_folder(
        &self,
        plan: &mut Vec<Step>,
        local_name: &String,
        local_folder: &String,
        remote_folder: &Folder,
    )
        ensures
            step_views(final(plan)@) == step_views(old(plan)@) + self.upload_folder_steps(
                local_name@,
                local_folder@,
                remote_folder.folder_id,
            ),
    {
        let ghost before = step_views(plan@);
        plan_push(
            plan,
            Task::CreateRemoteFolder {
                name: local_name.clone(),
                parent_id: remote_folder.folder_id,
                path: local_folder.clone(),
                retried: false,
            },
            false,
        );
        if self.remove_after_upload {
            plan_push(
                plan,
                Task::RemoveLocalDir {
                    path: local_folder.clone(),
                    lenient: false,
                    recursive: true,
                },
                false,
            );
        }
        assert(step_views(plan@) =~= before + self.upload_folder_steps(
            local_name@,
            local_folder@,
            remote_folder.folder_id,
        ));
    }

    /// Plans the upload phase: each of `local_names` is uploaded into
    /// `folder`, a file as a file and a directory with all it holds.
    pub fn sync_local_entries(
        &self,
        plan: &mut Vec<Step>,
        local_names: &Vec<String>,
        local_entries: &LocalEntries,
        folder: &Folder,
    )
        requires
            local_entries.wf(),
        ensures
            step_views(final(plan)@) == step_views(old(plan)@) + self.local_steps(
                views(local_names@),
                local_views(local_entries.entries@),
                folder.folder_id,
            ),
    {
        let ghost before = step_views(plan@);
        let ghost names = views(local_names@);
        let ghost entries = local_views(local_entries.entries@);
        let mut i: usize = 0;
        assert(names.take(0) =~= Seq::<Seq<char>>::empty());
        assert(step_views(plan@) =~= before + self.local_steps(
            names.take(0),
            entries,
            folder.folder_id,
        ));
        while i < local_names.len()
            invariant
                i <= local_names.len(),
                local_entries.wf(),
                names == views(local_names@),
                entries == local_views(local_entries.entries@),
                step_views(plan@) == before + self.local_steps(
                    names.take(i as int),
                    entries,
                    folder.folder_id,
                ),
            decreases local_names.len() - i,
        {
            let local_name = &local_names[i];
            proof {
                assert(names.take(i + 1).drop_last() =~= names.take(i as int));
                assert(names.take(i + 1).last() == local_name@);
            }
            match local_entries.get(local_name) {
                Some(LocalEntry::File(path)) => {
                    self.upload_file(plan, local_name, path, folder);
                },
                Some(LocalEntry::Folder(path)) => {
                    self.upload_folder(plan, local_name, path, folder);
                },
                None => {},
            }
            assert(step_views(plan@) =~= before + self.local_steps(
                names.take(i + 1),
                entries,
                folder.folder_id,
            ));
            i += 1;
        }
        assert(names.take(local_names.len() as int) =~= names);
    }

    /// Plans the common phase: for each of `common_names`, a folder found
    /// on both sides is reconciled in turn, and a file that faces a folder
    /// is reported. Files found on both sides are left as they are.
    pub fn sync_common_entries(
        plan: &mut Vec<Step>,
        common_names: &Vec<String>,
        remote_entries: &RemoteEntries,
        local_entries: &LocalEntries,
    )
        requires
            remote_entries.wf(),
            local_entries.wf(),
        ensures
            step_views(final(plan)@) == step_views(old(plan)@) + Self::common_steps(
                views(common_names@),
                remote_entries.folder.listing(),
                local_views(local_entries.entries@),
            ),
    {
        let ghost before = step_views(plan@);
        let ghost names = views(common_names@);
        let ghost folder = remote_entries.folder.listing();
        let ghost entries = local_views(local_entries.entries@);
        let mut i: usize = 0;
        assert(names.take(0) =~= Seq::<Seq<char>>::empty());
        assert(step_views(plan@) =~= before + Self::common_steps(names.take(0), folder, entries));
        while i < common_names.len()
            invariant
                i <= common_names.len(),
                remote_entries.wf(),
                local_entries.wf(),
                names == views(common_names@),
                folder == remote_entries.folder.listing(),
                entries == local_views(local_entries.entries@),
                step_views(plan@) == before + Self::common_steps(
                    names.take(i as int),
                    folder,
                    entries,
                ),
            decreases common_names.len() - i,
        {
            let name = &common_names[i];
            proof {
                assert(names.take(i + 1).drop_last() =~= names.take(i as int));
                assert(names.take(i + 1).last() == name@);
            }
            let remote = remote_entries.get(name);
            let local = local_entries.get(name);
            match (remote, local) {
                (Some(Entry::Folder(remote_folder)), Some(LocalEntry::Folder(path))) => {
                    plan_push(
                        plan,
                        Task::Sync { folder_id: remote_folder.folder_id, path: path.clone() },
                        false,
                    );
                },
                (Some(Entry::File(_)), Some(LocalEntry::File(_))) => {},
                (Some(_), Some(entry)) => {
                    plan_push(
                        plan,
                        Task::Report(Diagnostic::TypeConflict { path: entry.path().clone() }),
                        false,
                    );
                },
                _ => {},
            }
            assert(step_views(plan@) =~= before + Self::common_steps(
                names.take(i + 1),
                folder,
                entries,
            ));
            i += 1;
        }
        assert(names.take(common_names.len() as int) =~= names);
    }

    /// Plans the reconciliation of one level: of a remote folder, fetched
    /// with its contents, with the entries of the local directory
    /// `local_path`.
    pub fn sync_folder(
        &self,
        remote_folder: &Folder,
        local_entries: &Vec<LocalEntry>,
        local_path: &String,
    ) -> (plan: Vec<Step>)
        ensures
            step_views(plan@) == self.folder_steps(
                remote_folder.listing(),
                remote_folder.folder_id,
                local_views(local_entries@),
                local_path@,
            ),
    {
        let remote = get_remote_entries(remote_folder);
        let local = get_local_entries(local_entries);
        let classes = classify(&remote.index.names, &local.index.names);
        let mut plan: Vec<Step> = Vec::new();
        assert(step_views(plan@) =~= Seq::<StepView>::empty());
        if !self.disable_download {
            self.sync_remote_entries(&mut plan, &classes.remote_only, &remote, local_path);
        }
        if !self.disable_upload {
            self.sync_local_entries(&mut plan, &classes.local_only, &local, remote_folder);
        }
        Self::sync_common_entries(&mut plan, &classes.common, &remote, &local);
        assert(step_views(plan@) =~= self.folder_steps(
            remote_folder.listing(),
            remote_folder.folder_id,
            local_views(local_entries@),
            local_path@,
        ));
        plan
    }
}

/// The common phase changes nothing: each of its steps reconciles a pair
/// of folders in turn or reports a conflict.
pub proof fn lemma_common_steps_change_nothing(
    names: Seq<Seq<char>>,
    listing: Seq<EntryView>,
    entries: Seq<LocalEntryView>,
)
    ensures
        forall|i: int|
            0 <= i < Command::common_steps(names, listing, entries).len() ==> !(
            #[trigger] Command::common_steps(names, listing, entries)[i]).task.is_change(),
    decreases names.len(),
{
    if names.len() > 0 {
        lemma_common_steps_change_nothing(names.drop_last(), listing, entries);
    }
}

/// Once a level has converged, that is once the remote folder and the local
/// directory hold the same names, its reconciliation transfers nothing and
/// changes nothing on either side, whatever is enabled: all that is left is
/// to reconcile the folders found on both sides in turn.
pub proof fn lemma_converged_level_changes_nothing(
    command: Command,
    listing: Seq<EntryView>,
    folder_id: u64,
    entries: Seq<LocalEntryView>,
    local_path: Seq<char>,
)
    requires
        remote_keys(listing).to_set() == local_keys(entries).to_set(),
    ensures
        command.folder_steps(listing, folder_id, entries, local_path) == Command::common_steps(
            remote_keys(listing),
            listing,
            entries,
        ),
        forall|i: int|
            0 <= i < command.folder_steps(listing, folder_id, entries, local_path).len() ==> !(
            #[trigger] command.folder_steps(
                listing,
                folder_id,
                entries,
                local_path,
            )[i]).task.is_change(),
{
    let remote = remote_keys(listing);
    let local = local_keys(entries);
    lemma_converged_classes(remote, local);
    lemma_common_steps_change_nothing(remote, listing, entries);
    assert(command.folder_steps(listing, folder_id, entries, local_path)
        =~= Command::common_steps(remote, listing, entries));
}

/// The name that a task brings into the local directory, if it creates a
/// file or a directory there.
pub open spec fn name_created_locally(task: TaskView) -> Option<Seq<char>> {
    match task {
        TaskView::Download { path, .. } => file_name(path),
        TaskView::CreateLocalDir { path } => file_name(path),
        _ => None,
    }
}

/// The name that a task brings into the remote folder `folder_id`, if it
/// creates a file or a folder there.
pub open spec fn name_created_remotely(task: TaskView, folder_id: u64) -> Option<Seq<char>> {
    match task {
        TaskView::Upload(upload) => if upload.folder_id == folder_id {
            Some(upload.name)
        } else {
            None
        },
        TaskView::CreateRemoteFolder { name, parent_id, .. } => if parent_id == folder_id {
            Some(name)
        } else {
            None
        },
        _ => None,
    }
}

/// The names that the steps of a plan bring into the local directory.
pub open spec fn created_locally(steps: Seq<StepView>) -> Set<Seq<char>>
    decreases steps.len(),
{
    if steps.len() == 0 {
        Set::empty()
    } else {
        match name_created_locally(steps.last().task) {
            Some(name) => created_locally(steps.drop_last()).insert(name),
            None => created_locally(steps.drop_last()),
        }
    }
}

/// The names that the steps of a plan bring into the remote folder
/// `folder_id`.
pub open spec fn created_remotely(steps: Seq<StepView>, folder_id: u64) -> Set<Seq<char>>
    decreases steps.len(),
{
    if steps.len() == 0 {
        Set::empty()
    } else {
        match name_created_remotely(steps.last().task, folder_id) {
            Some(name) => created_remotely(steps.drop_last(), folder_id).insert(name),
            None => created_remotely(steps.drop_last(), folder_id),
        }
    }
}

/// What two plans in a row create is what the first creates and what the
/// second creates.
pub proof fn lemma_created_by_both(a: Seq<StepView>, b: Seq<StepView>, folder_id: u64)
    ensures
        created_locally(a + b) == created_locally(a).union(created_locally(b)),
        created_remotely(a + b, folder_id) == created_remotely(a, folder_id).union(
            created_remotely(b, folder_id),
        ),
    decreases b.len(),
{
    if b.len() == 0 {
        assert(a + b =~= a);
        assert(created_locally(a).union(created_locally(b)) =~= created_locally(a));
        assert(created_remotely(a, folder_id).union(created_remotely(b, folder_id))
            =~= created_remotely(a, folder_id));
    } else {
        lemma_created_by_both(a, b.drop_last(), folder_id);
        assert((a + b).drop_last() =~= a + b.drop_last());
        assert((a + b).last() == b.last());
        assert(created_locally(a + b) =~= created_locally(a).union(created_locally(b)));
        assert(created_remotely(a + b, folder_id) =~= created_remotely(a, folder_id).union(
            created_remotely(b, folder_id),
        ));
    }
}

/// The download of one entry with a plain name creates that name locally
/// and nothing remotely.
pub proof fn lemma_download_creates_name(
    command: Command,
    name: Seq<char>,
    entry: EntryView,
    local_path: Seq<char>,
    folder_id: u64,
)
    requires
        is_plain_name(name),
    ensures
        created_locally(command.remote_entry_steps(name, Some(entry), local_path)) == set![name],
        created_remotely(command.remote_entry_steps(name, Some(entry), local_path), folder_id)
            == Set::<Seq<char>>::empty(),
{
    lemma_join_then_name(local_path, name);
    let steps = command.remote_entry_steps(name, Some(entry), local_path);
    reveal_with_fuel(created_locally, 4);
    reveal_with_fuel(created_remotely, 4);
    assert(steps.len() <= 3);
    if steps.len() == 3 {
        assert(steps.drop_last().drop_last().drop_last() =~= Seq::<StepView>::empty());
    } else if steps.len() == 2 {
        assert(steps.drop_last().drop_last() =~= Seq::<StepView>::empty());
    } else {
        assert(steps.drop_last() =~= Seq::<StepView>::empty());
    }
    assert(created_locally(steps) =~= set![name]);
    assert(created_remotely(steps, folder_id) =~= Set::<Seq<char>>::empty());
}

/// The upload of one entry creates its name in the remote folder and
/// nothing locally.
pub proof fn lemma_upload_creates_name(
    command: Command,
    name: Seq<char>,
    entry: LocalEntryView,
    folder_id: u64,
)
    ensures
        created_remotely(command.local_entry_steps(name, Some(entry), folder_id), folder_id)
            == set![name],
        created_locally(command.local_entry_steps(name, Some(entry), folder_id)) == Set::<
            Seq<char>,
        >::empty(),
{
    let steps = command.local_entry_steps(name, Some(entry), folder_id);
    reveal_with_fuel(created_locally, 3);
    reveal_with_fuel(created_remotely, 3);
    assert(steps.len() <= 2);
    if steps.len() == 2 {
        assert(steps.drop_last().drop_last() =~= Seq::<StepView>::empty());
    } else {
        assert(steps.drop_last() =~= Seq::<StepView>::empty());
    }
    assert(created_remotely(steps, folder_id) =~= set![name]);
    assert(created_locally(steps) =~= Set::<Seq<char>>::empty());
}

/// The names of a sequence are those of its beginning and its last.
pub proof fn lemma_names_with_last(names: Seq<Seq<char>>)
    requires
        names.len() > 0,
    ensures
        names.to_set() == names.drop_last().to_set().union(set![names.last()]),
{
    let init = names.drop_last();
    let name = names.last();
    assert forall|n: Seq<char>| names.to_set().contains(n) <==> init.to_set().union(
        set![name],
    ).contains(n) by {
        if names.contains(n) {
            let i = choose|i: int| 0 <= i < names.len() && names[i] == n;
            if i < init.len() {
                assert(init[i] == n);
            }
        }
        if init.contains(n) {
            let i = choose|i: int| 0 <= i < init.len() && init[i] == n;
            assert(names[i] == n);
        }
        assert(names[names.len() - 1] == name);
    }
    assert(names.to_set() =~= init.to_set().union(set![name]));
}

/// The download phase creates locally exactly the names it is given, and
/// nothing remotely.
pub proof fn lemma_download_phase_creates(
    command: Command,
    names: Seq<Seq<char>>,
    listing: Seq<EntryView>,
    local_path: Seq<char>,
    folder_id: u64,
)
    requires
        forall|i: int| 0 <= i < names.len() ==> is_plain_name(#[trigger] names[i]),
        forall|i: int| 0 <= i < names.len() ==> remote_entry(listing, #[trigger] names[i]) is Some,
    ensures
        created_locally(command.remote_steps(names, listing, local_path)) == names.to_set(),
        created_remotely(command.remote_steps(names, listing, local_path), folder_id) == Set::<
            Seq<char>,
        >::empty(),
    decreases names.len(),
{
    if names.len() == 0 {
        assert(names.to_set() =~= Set::<Seq<char>>::empty());
    } else {
        let init = names.drop_last();
        let name = names.last();
        assert forall|i: int| 0 <= i < init.len() implies is_plain_name(#[trigger] init[i]) by {
            assert(init[i] == names[i]);
        }
        assert forall|i: int| 0 <= i < init.len() implies remote_entry(
            listing,
            #[trigger] init[i],
        ) is Some by {
            assert(init[i] == names[i]);
        }
        lemma_download_phase_creates(command, init, listing, local_path, folder_id);
        let entry = remote_entry(listing, name)->0;
        lemma_download_creates_name(command, name, entry, local_path, folder_id);
        lemma_created_by_both(
            command.remote_steps(init, listing, local_path),
            command.remote_entry_steps(name, Some(entry), local_path),
            folder_id,
        );
        lemma_names_with_last(names);
    }
}

/// The upload phase creates remotely exactly the names it is given, and
/// nothing locally.
pub proof fn lemma_upload_phase_creates(
    command: Command,
    names: Seq<Seq<char>>,
    entries: Seq<LocalEntryView>,
    folder_id: u64,
)
    requires
        forall|i: int| 0 <= i < names.len() ==> local_entry(entries, #[trigger] names[i]) is Some,
    ensures
        created_remotely(command.local_steps(names, entries, folder_id), folder_id)
            == names.to_set(),
        created_locally(command.local_steps(names, entries, folder_id)) == Set::<
            Seq<char>,
        >::empty(),
    decreases names.len(),
{
    if names.len() == 0 {
        assert(names.to_set() =~= Set::<Seq<char>>::empty());
    } else {
        let init = names.drop_last();
        let name = names.last();
        assert forall|i: int| 0 <= i < init.len() implies local_entry(entries, #[trigger] init[i])
            is Some by {
            assert(init[i] == names[i]);
        }
        lemma_upload_phase_creates(command, init, entries, folder_id);
        let entry = local_entry(entries, name)->0;
        lemma_upload_creates_name(command, name, entry, folder_id);
        lemma_created_by_both(
            command.local_steps(init, entries, folder_id),
            command.local_entry_steps(name, Some(entry), folder_id),
            folder_id,
        );
        lemma_names_with_last(names);
    }
}

/// The common phase creates nothing on either side.
pub proof fn lemma_common_phase_creates_nothing(
    names: Seq<Seq<char>>,
    listing: Seq<EntryView>,
    entries: Seq<LocalEntryView>,
    folder_id: u64,
)
    ensures
        created_locally(Command::common_steps(names, listing, entries)) == Set::<
            Seq<char>,
        >::empty(),
        created_remotely(Command::common_steps(names, listing, entries), folder_id) == Set::<
            Seq<char>,
        >::empty(),
    decreases names.len(),
{
    if names.len() > 0 {
        lemma_common_phase_creates_nothing(names.drop_last(), listing, entries, folder_id);
        let last = Command::common_entry_steps(
            remote_entry(listing, names.last()),
            local_entry(entries, names.last()),
        );
        reveal_with_fuel(created_locally, 2);
        reveal_with_fuel(created_remotely, 2);
        if last.len() > 0 {
            assert(last.drop_last() =~= Seq::<StepView>::empty());
        }
        assert(created_locally(last) =~= Set::<Seq<char>>::empty());
        assert(created_remotely(last, folder_id) =~= Set::<Seq<char>>::empty());
        lemma_created_by_both(
            Command::common_steps(names.drop_last(), listing, entries),
            last,
            folder_id,
        );
        assert(created_locally(Command::common_steps(names, listing, entries)) =~= Set::<
            Seq<char>,
        >::empty());
        assert(created_remotely(Command::common_steps(names, listing, entries), folder_id)
            =~= Set::<Seq<char>>::empty());
    }
}

/// With both directions enabled, the reconciliation of one level makes the
/// two sides hold the same names: what the remote folder holds together
/// with what the plan creates in it is what the local directory holds
/// together with what the plan creates in it, and that is every name of
/// either side. The names of the remote entries must be fit to name local
/// entries.
pub proof fn lemma_level_converges(
    command: Command,
    listing: Seq<EntryView>,
    folder_id: u64,
    entries: Seq<LocalEntryView>,
    local_path: Seq<char>,
)
    requires
        !command.disable_download,
        !command.disable_upload,
        forall|i: int|
            0 <= i < remote_keys(listing).len() ==> is_plain_name(
                #[trigger] remote_keys(listing)[i],
            ),
    ensures
        remote_keys(listing).to_set().union(
            created_remotely(
                command.folder_steps(listing, folder_id, entries, local_path),
                folder_id,
            ),
        ) == remote_keys(listing).to_set().union(local_keys(entries).to_set()),
        local_keys(entries).to_set().union(
            created_locally(command.folder_steps(listing, folder_id, entries, local_path)),
        ) == remote_keys(listing).to_set().union(local_keys(entries).to_set()),
{
    let remote = remote_keys(listing);
    let local = local_keys(entries);
    let down_names = only_in(remote, local);
    let up_names = only_in(local, remote);
    let down = command.remote_steps(down_names, listing, local_path);
    let up = command.local_steps(up_names, entries, folder_id);
    let common = Command::common_steps(in_both(remote, local), listing, entries);
    assert forall|i: int| 0 <= i < down_names.len() implies is_plain_name(
        #[trigger] down_names[i],
    ) && remote_entry(listing, down_names[i]) is Some by {
        assert(down_names.contains(down_names[i]));
        lemma_filter_membership(remote, absent_from(local), down_names[i]);
        let k = choose|k: int| 0 <= k < remote.len() && remote[k] == down_names[i];
        assert(is_plain_name(remote[k]));
        assert(position(remote, down_names[i]) is Some);
    }
    assert forall|i: int| 0 <= i < up_names.len() implies local_entry(
        entries,
        #[trigger] up_names[i],
    ) is Some by {
        assert(up_names.contains(up_names[i]));
        lemma_filter_membership(local, absent_from(remote), up_names[i]);
        assert(position(local, up_names[i]) is Some);
    }
    lemma_download_phase_creates(command, down_names, listing, local_path, folder_id);
    lemma_upload_phase_creates(command, up_names, entries, folder_id);
    lemma_common_phase_creates_nothing(in_both(remote, local), listing, entries, folder_id);
    lemma_created_by_both(down, up, folder_id);
    lemma_created_by_both(down + up, common, folder_id);
    lemma_classes_partition(remote, local);
    let plan = command.folder_steps(listing, folder_id, entries, local_path);
    assert(plan == down + up + common);
    assert(created_remotely(plan, folder_id) =~= up_names.to_set());
    assert(created_locally(plan) =~= down_names.to_set());
    assert(remote.to_set().union(up_names.to_set()) =~= remote.to_set().union(local.to_set()));
    assert(local.to_set().union(down_names.to_set()) =~= remote.to_set().union(local.to_set()));
}

} // verus!
