use pcloud_sync::engine::{Engine, Mode};
use pcloud_sync::entry::{Entry, File, Folder};
use pcloud_sync::error::Error;
use pcloud_sync::folder::sync::{Command as SyncCommand, LocalEntry};
use pcloud_sync::folder::upload::{Command as UploadCommand, CompareMethod};
use pcloud_sync::request::Error as RemoteError;
use pcloud_sync::task::{Action, Diagnostic, Event, Task, UploadSpec};
use std::collections::{BTreeMap, BTreeSet};

/// A remote store and a local tree in memory, with a log of what was done.
struct World {
    folders: BTreeMap<u64, (u64, String)>,
    files: BTreeMap<u64, (u64, String, String)>,
    next_id: u64,
    local_dirs: BTreeSet<String>,
    local_files: BTreeMap<String, String>,
    log: Vec<String>,
    failing_uploads: BTreeMap<String, usize>,
    failing_downloads: BTreeMap<u64, usize>,
    unreadable: BTreeSet<String>,
    reports: Vec<Diagnostic>,
}

fn world(root: &str) -> World {
    let mut folders = BTreeMap::new();
    folders.insert(0, (0, String::new()));
    let mut local_dirs = BTreeSet::new();
    local_dirs.insert(root.to_string());
    World {
        folders,
        files: BTreeMap::new(),
        next_id: 1,
        local_dirs,
        local_files: BTreeMap::new(),
        log: Vec::new(),
        failing_uploads: BTreeMap::new(),
        failing_downloads: BTreeMap::new(),
        unreadable: BTreeSet::new(),
        reports: Vec::new(),
    }
}

fn parent_of(path: &str) -> String {
    match path.rfind('/') {
        Some(at) => path[..at].to_string(),
        None => String::new(),
    }
}

fn unavailable() -> Error {
    Error::PCloud(RemoteError::Reqwest("connection reset".to_string()))
}

impl World {
    fn add_local_file(&mut self, path: &str, content: &str) {
        self.local_files.insert(path.to_string(), content.to_string());
    }

    fn add_local_dir(&mut self, path: &str) {
        self.local_dirs.insert(path.to_string());
    }

    fn add_remote_folder(&mut self, parent: u64, name: &str) -> u64 {
        let id = self.next_id;
        self.next_id += 1;
        self.folders.insert(id, (parent, name.to_string()));
        id
    }

    fn add_remote_file(&mut self, parent: u64, name: &str, content: &str) -> u64 {
        let id = self.next_id;
        self.next_id += 1;
        self.files.insert(id, (parent, name.to_string(), content.to_string()));
        id
    }

    fn list_remote(&self, folder_id: u64) -> Folder {
        let mut contents = Vec::new();
        for (id, (parent, name)) in self.folders.iter() {
            if *parent == folder_id && *id != 0 {
                contents.push(Entry::Folder(Folder {
                    folder_id: *id,
                    name: name.clone(),
                    modified: String::new(),
                    contents: None,
                }));
            }
        }
        for (id, (parent, name, _)) in self.files.iter() {
            if *parent == folder_id {
                contents.push(Entry::File(File {
                    file_id: *id,
                    name: name.clone(),
                    modified: String::new(),
                }));
            }
        }
        Folder {
            folder_id,
            name: self.folders[&folder_id].1.clone(),
            modified: String::new(),
            contents: Some(contents),
        }
    }

    fn list_local(&self, path: &str) -> Vec<LocalEntry> {
        let mut entries = Vec::new();
        for dir in self.local_dirs.iter() {
            if dir != path && parent_of(dir) == path {
                entries.push(LocalEntry::Folder(dir.clone()));
            }
        }
        for file in self.local_files.keys() {
            if parent_of(file) == path {
                entries.push(LocalEntry::File(file.clone()));
            }
        }
        entries
    }

    fn remote_path(&self, folder_id: u64) -> String {
        if folder_id == 0 {
            return String::new();
        }
        let (parent, name) = &self.folders[&folder_id];
        format!("{}/{}", self.remote_path(*parent), name)
    }

    fn remote_content(&self) -> BTreeSet<String> {
        self.files
            .values()
            .map(|(parent, name, _)| format!("{}/{}", self.remote_path(*parent), name))
            .collect()
    }

    fn delete_remote_folder(&mut self, folder_id: u64) {
        let sub: Vec<u64> = self
            .folders
            .iter()
            .filter(|(id, (parent, _))| *parent == folder_id && **id != 0)
            .map(|(id, _)| *id)
            .collect();
        for id in sub {
            self.delete_remote_folder(id);
        }
        self.files.retain(|_, (parent, _, _)| *parent != folder_id);
        self.folders.remove(&folder_id);
    }

    fn upload(&mut self, upload: &UploadSpec) -> Event {
        self.log.push(format!("upload {}", upload.path));
        if let Some(left) = self.failing_uploads.get_mut(&upload.path) {
            if *left > 0 {
                *left -= 1;
                return Event::Failed(unavailable());
            }
        }
        let content = self.local_files[&upload.path].clone();
        let existing: Vec<u64> = self
            .files
            .iter()
            .filter(|(_, (parent, name, _))| *parent == upload.folder_id && *name == upload.name)
            .map(|(id, _)| *id)
            .collect();
        for id in existing {
            self.files.remove(&id);
        }
        self.add_remote_file(upload.folder_id, &upload.name, &content);
        Event::Done
    }

    fn perform(&mut self, task: &Task) -> Event {
        match task {
            Task::Sync { folder_id, path } => {
                self.log.push(format!("list {}", path));
                if !self.local_dirs.contains(path) {
                    return Event::Failed(Error::Io(format!("{} is no directory", path)));
                }
                Event::Listings(self.list_remote(*folder_id), self.list_local(path))
            }
            Task::Download { file_id, path } => {
                self.log.push(format!("download {}", path));
                if let Some(left) = self.failing_downloads.get_mut(file_id) {
                    if *left > 0 {
                        *left -= 1;
                        return Event::Failed(unavailable());
                    }
                }
                let content = self.files[file_id].2.clone();
                self.local_files.insert(path.clone(), content);
                Event::Done
            }
            Task::Upload(upload) => self.upload(upload),
            Task::LocalChecksum { file_id: _, upload } => {
                self.log.push(format!("checksum {}", upload.path));
                if self.unreadable.contains(&upload.path) {
                    Event::LocalChecksum(Err("permission denied".to_string()))
                } else {
                    Event::LocalChecksum(Ok(self.local_files[&upload.path].clone()))
                }
            }
            Task::RemoteChecksum { file_id, local: _, upload: _ } => {
                Event::RemoteChecksum(self.files[file_id].2.clone())
            }
            Task::CreateLocalDir { path } => {
                self.log.push(format!("mkdir {}", path));
                self.local_dirs.insert(path.clone());
                Event::Done
            }
            Task::CreateRemoteFolder { name, parent_id, path: _, retried: _ } => {
                self.log.push(format!("createfolder {}", name));
                let found = self
                    .folders
                    .iter()
                    .find(|(id, (parent, n))| **id != 0 && parent == parent_id && n == name)
                    .map(|(id, _)| *id);
                let id = match found {
                    Some(id) => id,
                    None => self.add_remote_folder(*parent_id, name),
                };
                Event::FolderCreated(id)
            }
            Task::DeleteRemoteFile { file_id } => {
                self.log.push(format!("deletefile {}", file_id));
                self.files.remove(file_id);
                Event::Done
            }
            Task::DeleteRemoteFolder { folder_id } => {
                self.log.push(format!("deletefolder {}", folder_id));
                self.delete_remote_folder(*folder_id);
                Event::Done
            }
            Task::RemoveLocalFile { path, lenient: _ } => {
                self.log.push(format!("rm {}", path));
                self.local_files.remove(path);
                Event::Done
            }
            Task::RemoveLocalDir { path, lenient: _, recursive } => {
                self.log.push(format!("rmdir {}", path));
                let prefix = format!("{}/", path);
                let holds_something = self.local_files.keys().any(|f| f.starts_with(&prefix))
                    || self.local_dirs.iter().any(|d| d.starts_with(&prefix));
                if !*recursive && holds_something {
                    return Event::Failed(Error::Io(format!("{} is not empty", path)));
                }
                self.local_files.retain(|file, _| !file.starts_with(&prefix));
                self.local_dirs.retain(|dir| dir != path && !dir.starts_with(&prefix));
                Event::Done
            }
            Task::Report(diagnostic) => {
                self.reports.push(diagnostic.duplicate());
                Event::Done
            }
        }
    }

    fn run(&mut self, mode: Mode, folder_id: u64) -> Result<(), Error> {
        let mut engine = Engine::new(mode, folder_id);
        let mut event = Event::Start;
        loop {
            match engine.step(event) {
                Action::Perform(task) => {
                    event = self.perform(&task);
                }
                Action::Finished => {
                    assert!(engine.is_idle());
                    return Ok(());
                }
                Action::Failed(err) => {
                    assert!(engine.is_idle());
                    return Err(err);
                }
            }
        }
    }

    fn count(&self, prefix: &str) -> usize {
        self.log.iter().filter(|line| line.starts_with(prefix)).count()
    }
}

fn build_cmd(root: &str, remove_after_upload: bool) -> Mode {
    Mode::Upload(UploadCommand {
        remove_after_upload,
        compare_method: CompareMethod::Checksum,
        allow_partial_upload: false,
        retries: 5,
        path: root.to_string(),
    })
}

fn upload_with(root: &str, compare_method: CompareMethod, retries: usize) -> Mode {
    Mode::Upload(UploadCommand {
        remove_after_upload: false,
        compare_method,
        allow_partial_upload: false,
        retries,
        path: root.to_string(),
    })
}

fn sync_cmd(root: &str) -> SyncCommand {
    SyncCommand {
        disable_upload: false,
        remove_after_upload: false,
        disable_download: false,
        remove_after_download: false,
        allow_partial_upload: false,
        retries: 5,
        path: root.to_string(),
    }
}

fn basic_tree(w: &mut World) {
    w.add_local_file("/root/foo.txt", "one");
    w.add_local_dir("/root/first");
    w.add_local_file("/root/first/foo.txt", "two");
    w.add_local_dir("/root/first/second");
    w.add_local_file("/root/first/second/foo.txt", "three");
}

#[test]
fn simple() {
    let mut w = world("/root");
    basic_tree(&mut w);
    w.run(build_cmd("/root", false), 0).unwrap();
    let remote_content = w.remote_content();
    assert_eq!(remote_content.len(), 3);
    assert!(remote_content.contains("/foo.txt"));
    assert!(remote_content.contains("/first/foo.txt"));
    assert!(remote_content.contains("/first/second/foo.txt"));
    w.add_local_file("/root/first/second/bar.txt", "four");
    w.log.clear();
    w.run(build_cmd("/root", false), 0).unwrap();
    let remote_content = w.remote_content();
    assert_eq!(remote_content.len(), 4);
    assert!(remote_content.contains("/foo.txt"));
    assert!(remote_content.contains("/first/foo.txt"));
    assert!(remote_content.contains("/first/second/foo.txt"));
    assert!(remote_content.contains("/first/second/bar.txt"));
    assert_eq!(w.count("upload "), 1);
    assert_eq!(w.log.iter().filter(|l| *l == "upload /root/first/second/bar.txt").count(), 1);
}

#[test]
fn removes_after() {
    let mut w = world("/root");
    basic_tree(&mut w);
    w.run(build_cmd("/root", true), 0).unwrap();
    let remote_content = w.remote_content();
    assert_eq!(remote_content.len(), 3);
    assert!(remote_content.contains("/foo.txt"));
    assert!(remote_content.contains("/first/foo.txt"));
    assert!(remote_content.contains("/first/second/foo.txt"));
    assert!(!w.local_files.contains_key("/root/foo.txt"));
    assert!(!w.local_files.contains_key("/root/first/foo.txt"));
    assert!(!w.local_files.contains_key("/root/first/second/foo.txt"));
}

#[test]
fn sync_fresh_upload_mirrors_local_tree() {
    let mut w = world("/root");
    basic_tree(&mut w);
    let mut cmd = sync_cmd("/root");
    cmd.disable_download = true;
    w.run(Mode::Sync(cmd), 0).unwrap();
    let remote_content = w.remote_content();
    assert_eq!(remote_content.len(), 3);
    assert!(remote_content.contains("/foo.txt"));
    assert!(remote_content.contains("/first/foo.txt"));
    assert!(remote_content.contains("/first/second/foo.txt"));
    assert_eq!(w.local_files.len(), 3);
}

#[test]
fn sync_incremental_upload_sends_only_the_new_file() {
    let mut w = world("/root");
    basic_tree(&mut w);
    let mut cmd = sync_cmd("/root");
    cmd.disable_download = true;
    w.run(Mode::Sync(cmd), 0).unwrap();
    w.add_local_file("/root/first/second/bar.txt", "four");
    w.log.clear();
    let mut cmd = sync_cmd("/root");
    cmd.disable_download = true;
    w.run(Mode::Sync(cmd), 0).unwrap();
    assert_eq!(w.remote_content().len(), 4);
    assert!(w.remote_content().contains("/first/second/bar.txt"));
    assert_eq!(w.count("upload "), 1);
}

#[test]
fn presence_uploads_only_missing_files() {
    let mut w = world("/root");
    basic_tree(&mut w);
    w.run(upload_with("/root", CompareMethod::Presence, 5), 0).unwrap();
    assert_eq!(w.count("upload "), 3);
    w.add_local_file("/root/foo.txt", "changed");
    w.add_local_file("/root/first/second/bar.txt", "four");
    w.log.clear();
    w.run(upload_with("/root", CompareMethod::Presence, 5), 0).unwrap();
    assert_eq!(w.count("upload "), 1);
    assert_eq!(w.count("checksum "), 0);
    assert_eq!(w.remote_content().len(), 4);
    let root_file = w.files.values().find(|(parent, name, _)| *parent == 0 && name == "foo.txt");
    assert_eq!(root_file.unwrap().2, "one");
}

#[test]
fn force_uploads_everything_again() {
    let mut w = world("/root");
    basic_tree(&mut w);
    w.run(upload_with("/root", CompareMethod::Force, 5), 0).unwrap();
    w.log.clear();
    w.run(upload_with("/root", CompareMethod::Force, 5), 0).unwrap();
    assert_eq!(w.count("upload "), 3);
    assert_eq!(w.remote_content().len(), 3);
}

#[test]
fn checksum_uploads_changed_files_only() {
    let mut w = world("/root");
    basic_tree(&mut w);
    w.run(upload_with("/root", CompareMethod::Checksum, 5), 0).unwrap();
    w.add_local_file("/root/first/foo.txt", "two, changed");
    w.log.clear();
    w.run(upload_with("/root", CompareMethod::Checksum, 5), 0).unwrap();
    assert_eq!(w.count("upload "), 1);
    assert_eq!(w.count("checksum "), 3);
    let changed = w.files.values().find(|(_, name, content)| name == "foo.txt" && content == "two, changed");
    assert!(changed.is_some());
    assert_eq!(w.remote_content().len(), 3);
}

#[test]
fn checksum_failure_skips_the_file_and_goes_on() {
    let mut w = world("/root");
    basic_tree(&mut w);
    w.run(upload_with("/root", CompareMethod::Checksum, 5), 0).unwrap();
    w.add_local_file("/root/foo.txt", "changed");
    w.add_local_file("/root/zzz.txt", "new");
    w.unreadable.insert("/root/foo.txt".to_string());
    w.log.clear();
    let result = w.run(upload_with("/root", CompareMethod::Checksum, 5), 0);
    assert_eq!(result, Ok(()));
    assert_eq!(w.log.iter().filter(|l| *l == "upload /root/foo.txt").count(), 0);
    assert_eq!(w.log.iter().filter(|l| *l == "upload /root/zzz.txt").count(), 1);
    assert_eq!(
        w.reports,
        vec![Diagnostic::ChecksumUnavailable {
            path: "/root/foo.txt".to_string(),
            reason: "permission denied".to_string(),
        }]
    );
}

#[test]
fn two_way_sync_converges_and_second_run_transfers_nothing() {
    let mut w = world("/root");
    basic_tree(&mut w);
    let docs = w.add_remote_folder(0, "docs");
    w.add_remote_file(docs, "a.txt", "remote a");
    let deep = w.add_remote_folder(docs, "deep");
    w.add_remote_file(deep, "b.txt", "remote b");
    w.add_remote_file(0, "top.txt", "remote top");
    let first = w.add_remote_folder(0, "first");
    w.add_remote_file(first, "remote_only.txt", "r");
    w.run(Mode::Sync(sync_cmd("/root")), 0).unwrap();
    let remote: BTreeSet<String> = w.remote_content();
    let local: BTreeSet<String> =
        w.local_files.keys().map(|path| path["/root".len()..].to_string()).collect();
    assert_eq!(remote, local);
    assert_eq!(remote.len(), 7);
    assert!(local.contains("/docs/deep/b.txt"));
    assert!(remote.contains("/first/second/foo.txt"));
    assert_eq!(w.local_files["/root/docs/a.txt"], "remote a");
    let files_before = w.files.clone();
    let local_before = w.local_files.clone();
    w.log.clear();
    w.run(Mode::Sync(sync_cmd("/root")), 0).unwrap();
    assert_eq!(w.count("upload "), 0);
    assert_eq!(w.count("download "), 0);
    assert_eq!(w.count("mkdir "), 0);
    assert_eq!(w.count("createfolder "), 0);
    assert_eq!(w.files, files_before);
    assert_eq!(w.local_files, local_before);
}

#[test]
fn failing_upload_is_attempted_budget_plus_one_times() {
    let mut w = world("/root");
    w.add_local_file("/root/foo.txt", "one");
    w.failing_uploads.insert("/root/foo.txt".to_string(), 100);
    let mut cmd = sync_cmd("/root");
    cmd.retries = 2;
    let result = w.run(Mode::Sync(cmd), 0);
    assert_eq!(w.count("upload "), 3);
    assert_eq!(
        result,
        Err(Error::Retry(vec![unavailable(), unavailable(), unavailable()]))
    );
}

#[test]
fn zero_budget_means_a_single_attempt() {
    let mut w = world("/root");
    w.add_local_file("/root/foo.txt", "one");
    w.failing_uploads.insert("/root/foo.txt".to_string(), 100);
    let mut cmd = sync_cmd("/root");
    cmd.retries = 0;
    let result = w.run(Mode::Sync(cmd), 0);
    assert_eq!(w.count("upload "), 1);
    assert_eq!(result, Err(Error::Retry(vec![unavailable()])));
}

#[test]
fn upload_that_succeeds_on_third_attempt_is_not_attempted_again() {
    let mut w = world("/root");
    w.add_local_file("/root/foo.txt", "one");
    w.failing_uploads.insert("/root/foo.txt".to_string(), 2);
    let mut cmd = sync_cmd("/root");
    cmd.retries = 2;
    let result = w.run(Mode::Sync(cmd), 0);
    assert_eq!(result, Ok(()));
    assert_eq!(w.count("upload "), 3);
    assert!(w.remote_content().contains("/foo.txt"));
}

#[test]
fn failing_download_is_retried_and_then_aborts_the_run() {
    let mut w = world("/root");
    let a = w.add_remote_file(0, "a.txt", "a");
    w.add_remote_file(0, "b.txt", "b");
    w.failing_downloads.insert(a, 100);
    let mut cmd = sync_cmd("/root");
    cmd.retries = 1;
    let result = w.run(Mode::Sync(cmd), 0);
    assert_eq!(result, Err(Error::Retry(vec![unavailable(), unavailable()])));
    assert_eq!(w.count("download "), 2);
    assert!(w.local_files.is_empty());
}

#[test]
fn exhausted_file_in_upload_mode_retries_the_folder() {
    let mut w = world("/root");
    w.add_local_file("/root/foo.txt", "one");
    w.failing_uploads.insert("/root/foo.txt".to_string(), 100);
    let result = w.run(upload_with("/root", CompareMethod::Force, 1), 0);
    assert_eq!(w.count("upload "), 4);
    assert_eq!(w.count("list "), 2);
    let file_failure = || Error::Retry(vec![unavailable(), unavailable()]);
    assert_eq!(result, Err(Error::Retry(vec![file_failure(), file_failure()])));
}

#[test]
fn remove_after_download_deletes_remote_entries() {
    let mut w = world("/root");
    let docs = w.add_remote_folder(0, "docs");
    w.add_remote_file(docs, "a.txt", "remote a");
    w.add_remote_file(0, "top.txt", "remote top");
    let mut cmd = sync_cmd("/root");
    cmd.remove_after_download = true;
    w.run(Mode::Sync(cmd), 0).unwrap();
    assert_eq!(w.local_files["/root/docs/a.txt"], "remote a");
    assert_eq!(w.local_files["/root/top.txt"], "remote top");
    assert!(w.files.is_empty());
    assert_eq!(w.folders.len(), 1);
}

#[test]
fn remove_after_upload_in_sync_removes_local_entries() {
    let mut w = world("/root");
    basic_tree(&mut w);
    let mut cmd = sync_cmd("/root");
    cmd.remove_after_upload = true;
    w.run(Mode::Sync(cmd), 0).unwrap();
    assert_eq!(w.remote_content().len(), 3);
    assert!(w.local_files.is_empty());
    assert_eq!(w.local_dirs.len(), 1);
}

#[test]
fn disabled_directions_leave_the_other_side_alone() {
    let mut w = world("/root");
    w.add_local_file("/root/l.txt", "l");
    w.add_remote_file(0, "r.txt", "r");
    let mut cmd = sync_cmd("/root");
    cmd.disable_upload = true;
    cmd.disable_download = true;
    w.run(Mode::Sync(cmd), 0).unwrap();
    assert_eq!(w.count("upload "), 0);
    assert_eq!(w.count("download "), 0);
    assert_eq!(w.remote_content().len(), 1);
    assert_eq!(w.local_files.len(), 1);
}

#[test]
fn type_conflict_is_reported_and_run_goes_on() {
    let mut w = world("/root");
    w.add_local_dir("/root/thing");
    w.add_local_file("/root/thing/inner.txt", "x");
    w.add_remote_file(0, "thing", "a file");
    w.add_local_file("/root/other", "a file");
    w.add_remote_folder(0, "other");
    w.add_local_file("/root/z.txt", "z");
    let result = w.run(Mode::Sync(sync_cmd("/root")), 0);
    assert_eq!(result, Ok(()));
    assert_eq!(w.reports.len(), 2);
    assert!(w.reports.contains(&Diagnostic::TypeConflict { path: "/root/thing".to_string() }));
    assert!(w.reports.contains(&Diagnostic::TypeConflict { path: "/root/other".to_string() }));
    assert!(w.remote_content().contains("/z.txt"));
    assert_eq!(w.count("upload "), 1);
}

#[test]
fn unreadable_directory_aborts_the_run() {
    let mut w = world("/root");
    let result = w.run(Mode::Sync(sync_cmd("/missing")), 0);
    assert_eq!(result, Err(Error::Io("/missing is no directory".to_string())));
}

#[test]
fn outcome_that_does_not_answer_the_task_ends_the_run() {
    let mut engine = Engine::new(Mode::Sync(sync_cmd("/root")), 7);
    let action = engine.step(Event::Start);
    assert_eq!(
        action,
        Action::Perform(Task::Sync { folder_id: 7, path: "/root".to_string() })
    );
    let action = engine.step(Event::RemoteChecksum("abc".to_string()));
    assert_eq!(action, Action::Failed(Error::Protocol));
    assert!(engine.is_idle());
    assert_eq!(engine.step(Event::Done), Action::Failed(Error::Protocol));
}

#[test]
fn engine_must_be_started_first() {
    let mut engine = Engine::new(Mode::Sync(sync_cmd("/root")), 7);
    assert!(!engine.is_idle());
    assert_eq!(engine.step(Event::Done), Action::Failed(Error::Protocol));
    assert!(engine.is_idle());
}

#[test]
fn empty_trees_finish_at_once() {
    let mut w = world("/root");
    assert_eq!(w.run(Mode::Sync(sync_cmd("/root")), 0), Ok(()));
    assert_eq!(w.log, vec!["list /root".to_string()]);
}

#[test]
fn lenient_removal_failure_does_not_stop_the_run() {
    let mode = Mode::Upload(UploadCommand {
        remove_after_upload: true,
        compare_method: CompareMethod::Force,
        allow_partial_upload: true,
        retries: 0,
        path: "/root".to_string(),
    });
    let mut engine = Engine::new(mode, 3);
    assert_eq!(
        engine.step(Event::Start),
        Action::Perform(Task::Sync { folder_id: 3, path: "/root".to_string() })
    );
    let folder = Folder {
        folder_id: 3,
        name: "r".to_string(),
        modified: String::new(),
        contents: Some(vec![]),
    };
    let upload = UploadSpec {
        name: "a.txt".to_string(),
        path: "/root/a.txt".to_string(),
        folder_id: 3,
        no_partial: false,
        remove_after: true,
    };
    let action = engine.step(Event::Listings(
        folder,
        vec![LocalEntry::File("/root/a.txt".to_string())],
    ));
    assert_eq!(action, Action::Perform(Task::Upload(upload)));
    let action = engine.step(Event::Done);
    assert_eq!(
        action,
        Action::Perform(Task::RemoveLocalFile { path: "/root/a.txt".to_string(), lenient: true })
    );
    let action = engine.step(Event::Failed(Error::Io("busy".to_string())));
    assert_eq!(action, Action::Finished);
}

#[test]
fn strict_removal_failure_stops_the_run() {
    let mut cmd = sync_cmd("/root");
    cmd.remove_after_upload = true;
    let mut engine = Engine::new(Mode::Sync(cmd), 3);
    engine.step(Event::Start);
    let folder = Folder {
        folder_id: 3,
        name: "r".to_string(),
        modified: String::new(),
        contents: Some(vec![]),
    };
    engine.step(Event::Listings(folder, vec![LocalEntry::File("/root/a.txt".to_string())]));
    let action = engine.step(Event::Done);
    assert_eq!(
        action,
        Action::Perform(Task::RemoveLocalFile { path: "/root/a.txt".to_string(), lenient: false })
    );
    let action = engine.step(Event::Failed(Error::Io("busy".to_string())));
    assert_eq!(action, Action::Failed(Error::Io("busy".to_string())));
}

fn removing(compare_method: CompareMethod) -> Mode {
    Mode::Upload(UploadCommand {
        remove_after_upload: true,
        compare_method,
        allow_partial_upload: false,
        retries: 1,
        path: "/root".to_string(),
    })
}

#[test]
fn file_whose_checksum_cannot_be_computed_is_not_removed() {
    let mut w = world("/root");
    w.add_local_file("/root/foo.txt", "changed");
    w.add_remote_file(0, "foo.txt", "one");
    w.unreadable.insert("/root/foo.txt".to_string());
    let result = w.run(removing(CompareMethod::Checksum), 0);
    assert_eq!(result, Ok(()));
    assert_eq!(w.count("upload "), 0);
    assert_eq!(w.count("rm "), 0);
    assert_eq!(w.local_files["/root/foo.txt"], "changed");
    assert_eq!(w.reports.len(), 1);
    let remote = w.files.values().find(|(_, name, _)| name == "foo.txt").unwrap();
    assert_eq!(remote.2, "one");
}

#[test]
fn file_skipped_by_presence_is_not_removed() {
    let mut w = world("/root");
    w.add_local_file("/root/foo.txt", "local");
    w.add_local_file("/root/new.txt", "new");
    w.add_remote_file(0, "foo.txt", "remote");
    let result = w.run(removing(CompareMethod::Presence), 0);
    assert_eq!(result, Ok(()));
    assert_eq!(w.log.iter().filter(|l| *l == "upload /root/new.txt").count(), 1);
    assert_eq!(w.count("upload "), 1);
    assert!(w.local_files.contains_key("/root/foo.txt"));
    assert!(!w.local_files.contains_key("/root/new.txt"));
}

#[test]
fn file_with_equal_checksum_is_not_removed() {
    let mut w = world("/root");
    w.add_local_file("/root/same.txt", "same");
    w.add_local_file("/root/other.txt", "local");
    w.add_remote_file(0, "same.txt", "same");
    w.add_remote_file(0, "other.txt", "remote");
    let result = w.run(removing(CompareMethod::Checksum), 0);
    assert_eq!(result, Ok(()));
    assert_eq!(w.count("upload "), 1);
    assert!(w.local_files.contains_key("/root/same.txt"));
    assert!(!w.local_files.contains_key("/root/other.txt"));
    let other = w.files.values().find(|(_, name, _)| name == "other.txt").unwrap();
    assert_eq!(other.2, "local");
}

#[test]
fn file_whose_upload_fails_is_not_removed() {
    let mut w = world("/root");
    w.add_local_file("/root/foo.txt", "one");
    w.failing_uploads.insert("/root/foo.txt".to_string(), 100);
    let result = w.run(removing(CompareMethod::Force), 0);
    assert!(result.is_err());
    assert_eq!(w.count("rm "), 0);
    assert!(w.local_files.contains_key("/root/foo.txt"));
}

#[test]
fn directory_that_still_holds_a_kept_file_stays() {
    let mut w = world("/root");
    w.add_local_dir("/root/sub");
    w.add_local_file("/root/sub/kept.txt", "local");
    w.add_local_file("/root/sub/sent.txt", "new");
    w.add_local_dir("/root/gone");
    w.add_local_file("/root/gone/sent.txt", "new");
    let sub = w.add_remote_folder(0, "sub");
    w.add_remote_file(sub, "kept.txt", "remote");
    let result = w.run(removing(CompareMethod::Presence), 0);
    assert_eq!(result, Ok(()));
    assert!(w.local_files.contains_key("/root/sub/kept.txt"));
    assert!(!w.local_files.contains_key("/root/sub/sent.txt"));
    assert!(w.local_dirs.contains("/root/sub"));
    assert!(!w.local_files.contains_key("/root/gone/sent.txt"));
    assert!(!w.local_dirs.contains("/root/gone"));
    assert_eq!(w.remote_content().len(), 3);
}

#[test]
fn removal_is_asked_for_right_after_the_upload_and_only_then() {
    let mut engine = Engine::new(removing(CompareMethod::Checksum), 3);
    engine.step(Event::Start);
    let folder = Folder {
        folder_id: 3,
        name: "r".to_string(),
        modified: String::new(),
        contents: Some(vec![Entry::File(File {
            file_id: 9,
            name: "a.txt".to_string(),
            modified: String::new(),
        })]),
    };
    let spec = || UploadSpec {
        name: "a.txt".to_string(),
        path: "/root/a.txt".to_string(),
        folder_id: 3,
        no_partial: true,
        remove_after: true,
    };
    let action = engine.step(Event::Listings(
        folder,
        vec![LocalEntry::File("/root/a.txt".to_string())],
    ));
    assert_eq!(action, Action::Perform(Task::LocalChecksum { file_id: 9, upload: spec() }));
    let action = engine.step(Event::LocalChecksum(Ok("abc".to_string())));
    assert_eq!(
        action,
        Action::Perform(Task::RemoteChecksum { file_id: 9, local: "abc".to_string(), upload: spec() })
    );
    let action = engine.step(Event::RemoteChecksum("xyz".to_string()));
    assert_eq!(action, Action::Perform(Task::Upload(spec())));
    let action = engine.step(Event::Failed(unavailable()));
    assert_eq!(action, Action::Perform(Task::LocalChecksum { file_id: 9, upload: spec() }));
    let action = engine.step(Event::LocalChecksum(Err("denied".to_string())));
    assert_eq!(
        action,
        Action::Perform(Task::Report(Diagnostic::ChecksumUnavailable {
            path: "/root/a.txt".to_string(),
            reason: "denied".to_string(),
        }))
    );
    assert_eq!(engine.step(Event::Done), Action::Finished);
}
