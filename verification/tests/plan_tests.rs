use pcloud_sync::entry::{contains_file, Entry, File, Folder};
use pcloud_sync::folder::sync::{
    get_local_entries, get_remote_entries, plan_push, Command as SyncCommand, LocalEntry,
};
use pcloud_sync::folder::upload::{
    checksum_decision, should_upload_file_with_checksum, Command as UploadCommand, CompareMethod,
    Decision,
};
use pcloud_sync::listing::Listing;
use pcloud_sync::task::{Diagnostic, Step, Task, UploadSpec};

fn s(text: &str) -> String {
    text.to_string()
}

fn file(id: u64, name: &str) -> Entry {
    Entry::File(File { file_id: id, name: s(name), modified: s("") })
}

fn dir(id: u64, name: &str) -> Entry {
    Entry::Folder(Folder { folder_id: id, name: s(name), modified: s(""), contents: None })
}

fn remote(id: u64, contents: Vec<Entry>) -> Folder {
    Folder { folder_id: id, name: s("remote"), modified: s(""), contents: Some(contents) }
}

fn once(task: Task) -> Step {
    Step { task, retried: false }
}

fn retried(task: Task) -> Step {
    Step { task, retried: true }
}

fn upload(name: &str, path: &str, folder_id: u64, no_partial: bool) -> UploadSpec {
    UploadSpec { name: s(name), path: s(path), folder_id, no_partial, remove_after: false }
}

fn removing(spec: UploadSpec) -> UploadSpec {
    UploadSpec { remove_after: true, ..spec }
}

fn sync_cmd() -> SyncCommand {
    SyncCommand {
        disable_upload: false,
        remove_after_upload: false,
        disable_download: false,
        remove_after_download: false,
        allow_partial_upload: false,
        retries: 5,
        path: s("/root"),
    }
}

fn upload_cmd(compare_method: CompareMethod) -> UploadCommand {
    UploadCommand {
        remove_after_upload: false,
        compare_method,
        allow_partial_upload: false,
        retries: 5,
        path: s("/root"),
    }
}

#[test]
fn listing_insert_replaces_and_keeps_place() {
    let mut listing: Listing<usize> = Listing::new();
    assert_eq!(listing.len(), 0);
    listing.insert(s("a"), 1);
    listing.insert(s("b"), 2);
    listing.insert(s("a"), 3);
    assert_eq!(listing.len(), 2);
    assert_eq!(listing.names, vec![s("a"), s("b")]);
    assert_eq!(listing.get(&s("a")), Some(&3));
    assert_eq!(listing.get(&s("b")), Some(&2));
    assert_eq!(listing.get(&s("c")), None);
    assert_eq!(listing.find(&s("b")), Some(1));
    assert_eq!(listing.find(&s("")), None);
}

#[test]
fn remote_entries_by_name_later_entry_wins() {
    let folder = remote(1, vec![file(10, "a"), dir(11, "b"), file(12, "a")]);
    let entries = get_remote_entries(&folder);
    assert_eq!(entries.index.names, vec![s("a"), s("b")]);
    assert_eq!(entries.get(&s("a")), Some(&file(12, "a")));
    assert_eq!(entries.get(&s("b")), Some(&dir(11, "b")));
    assert_eq!(entries.get(&s("c")), None);
}

#[test]
fn remote_folder_without_contents_has_no_entries() {
    let folder = Folder { folder_id: 1, name: s("x"), modified: s(""), contents: None };
    let entries = get_remote_entries(&folder);
    assert!(entries.index.names.is_empty());
    assert_eq!(entries.get(&s("a")), None);
}

#[test]
fn local_entries_without_a_name_are_left_out() {
    let raw = vec![
        LocalEntry::File(s("/root/a.txt")),
        LocalEntry::Folder(s("/root/..")),
        LocalEntry::Folder(s("/")),
        LocalEntry::Folder(s("/root/sub/")),
    ];
    let entries = get_local_entries(&raw);
    assert_eq!(entries.index.names, vec![s("a.txt"), s("sub")]);
    assert_eq!(entries.get(&s("a.txt")), Some(&LocalEntry::File(s("/root/a.txt"))));
    assert_eq!(entries.get(&s("sub")), Some(&LocalEntry::Folder(s("/root/sub/"))));
    assert_eq!(entries.get(&s("..")), None);
}

#[test]
fn contains_file_ignores_folders_and_takes_the_first_file() {
    let folder = remote(1, vec![dir(5, "a"), file(6, "a"), file(7, "a"), file(8, "b")]);
    assert_eq!(contains_file(&folder, &s("a")).map(|f| f.file_id), Some(6));
    assert_eq!(contains_file(&folder, &s("b")).map(|f| f.file_id), Some(8));
    assert!(contains_file(&folder, &s("c")).is_none());
    let only_dir = remote(1, vec![dir(5, "a")]);
    assert!(contains_file(&only_dir, &s("a")).is_none());
    let unlisted = Folder { folder_id: 1, name: s("x"), modified: s(""), contents: None };
    assert!(contains_file(&unlisted, &s("a")).is_none());
}

#[test]
fn entry_name_id_and_kind() {
    assert_eq!(file(3, "a").name(), "a");
    assert_eq!(file(3, "a").id(), 3);
    assert!(!file(3, "a").is_folder());
    assert_eq!(dir(4, "d").name(), "d");
    assert_eq!(dir(4, "d").id(), 4);
    assert!(dir(4, "d").is_folder());
}

#[test]
fn sync_plan_runs_download_then_upload_then_common() {
    let folder = remote(
        1,
        vec![file(10, "r.txt"), dir(11, "rdir"), dir(12, "both"), file(13, "same.txt")],
    );
    let local = vec![
        LocalEntry::File(s("/root/l.txt")),
        LocalEntry::Folder(s("/root/ldir")),
        LocalEntry::Folder(s("/root/both")),
        LocalEntry::File(s("/root/same.txt")),
    ];
    let plan = sync_cmd().sync_folder(&folder, &local, &s("/root"));
    assert_eq!(
        plan,
        vec![
            retried(Task::Download { file_id: 10, path: s("/root/r.txt") }),
            once(Task::CreateLocalDir { path: s("/root/rdir") }),
            once(Task::Sync { folder_id: 11, path: s("/root/rdir") }),
            retried(Task::Upload(upload("l.txt", "/root/l.txt", 1, true))),
            once(Task::CreateRemoteFolder {
                name: s("ldir"),
                parent_id: 1,
                path: s("/root/ldir"),
                retried: false,
            }),
            once(Task::Sync { folder_id: 12, path: s("/root/both") }),
        ]
    );
}

#[test]
fn sync_plan_with_removal_and_partial_upload() {
    let folder = remote(1, vec![file(10, "r.txt"), dir(11, "rdir")]);
    let local = vec![LocalEntry::File(s("/root/l.txt")), LocalEntry::Folder(s("/root/ldir"))];
    let mut cmd = sync_cmd();
    cmd.remove_after_download = true;
    cmd.remove_after_upload = true;
    cmd.allow_partial_upload = true;
    let plan = cmd.sync_folder(&folder, &local, &s("/root"));
    assert_eq!(
        plan,
        vec![
            retried(Task::Download { file_id: 10, path: s("/root/r.txt") }),
            once(Task::DeleteRemoteFile { file_id: 10 }),
            once(Task::CreateLocalDir { path: s("/root/rdir") }),
            once(Task::Sync { folder_id: 11, path: s("/root/rdir") }),
            once(Task::DeleteRemoteFolder { folder_id: 11 }),
            retried(Task::Upload(upload("l.txt", "/root/l.txt", 1, false))),
            once(Task::RemoveLocalFile { path: s("/root/l.txt"), lenient: false }),
            once(Task::CreateRemoteFolder {
                name: s("ldir"),
                parent_id: 1,
                path: s("/root/ldir"),
                retried: false,
            }),
            once(Task::RemoveLocalDir { path: s("/root/ldir"), lenient: false, recursive: true }),
        ]
    );
}

#[test]
fn sync_plan_skips_disabled_phases() {
    let folder = remote(1, vec![file(10, "r.txt"), dir(12, "both")]);
    let local = vec![LocalEntry::File(s("/root/l.txt")), LocalEntry::Folder(s("/root/both"))];
    let mut cmd = sync_cmd();
    cmd.disable_download = true;
    assert_eq!(
        cmd.sync_folder(&folder, &local, &s("/root")),
        vec![
            retried(Task::Upload(upload("l.txt", "/root/l.txt", 1, true))),
            once(Task::Sync { folder_id: 12, path: s("/root/both") }),
        ]
    );
    let mut cmd = sync_cmd();
    cmd.disable_upload = true;
    assert_eq!(
        cmd.sync_folder(&folder, &local, &s("/root")),
        vec![
            retried(Task::Download { file_id: 10, path: s("/root/r.txt") }),
            once(Task::Sync { folder_id: 12, path: s("/root/both") }),
        ]
    );
}

#[test]
fn sync_plan_reports_type_conflicts() {
    let folder = remote(1, vec![file(10, "x"), dir(11, "y")]);
    let local = vec![LocalEntry::Folder(s("/root/x")), LocalEntry::File(s("/root/y"))];
    assert_eq!(
        sync_cmd().sync_folder(&folder, &local, &s("/root")),
        vec![
            once(Task::Report(Diagnostic::TypeConflict { path: s("/root/x") })),
            once(Task::Report(Diagnostic::TypeConflict { path: s("/root/y") })),
        ]
    );
}

#[test]
fn sync_plan_of_converged_level_only_recurses() {
    let folder = remote(1, vec![file(10, "a"), dir(11, "d"), file(12, "b")]);
    let local = vec![
        LocalEntry::File(s("/root/b")),
        LocalEntry::File(s("/root/a")),
        LocalEntry::Folder(s("/root/d")),
    ];
    assert_eq!(
        sync_cmd().sync_folder(&folder, &local, &s("/root")),
        vec![once(Task::Sync { folder_id: 11, path: s("/root/d") })]
    );
}

#[test]
fn should_upload_file_by_method() {
    let folder = remote(1, vec![dir(5, "d"), file(6, "a")]);
    assert_eq!(CompareMethod::Force.should_upload_file(&s("a"), &folder), Decision::Upload);
    assert_eq!(CompareMethod::Force.should_upload_file(&s("zz"), &folder), Decision::Upload);
    assert_eq!(CompareMethod::Presence.should_upload_file(&s("a"), &folder), Decision::Skip);
    assert_eq!(CompareMethod::Presence.should_upload_file(&s("zz"), &folder), Decision::Upload);
    assert_eq!(CompareMethod::Presence.should_upload_file(&s("d"), &folder), Decision::Upload);
    assert_eq!(
        CompareMethod::Checksum.should_upload_file(&s("a"), &folder),
        Decision::LocalChecksum { file_id: 6 }
    );
    assert_eq!(CompareMethod::Checksum.should_upload_file(&s("zz"), &folder), Decision::Upload);
}

#[test]
fn checksum_comparison_uploads_on_mismatch_only() {
    let folder = remote(1, vec![file(6, "a")]);
    let decide = |local: &str, remote: &str| {
        should_upload_file_with_checksum(&s("a"), &folder, Some(&Ok(s(local))), Some(&s(remote)))
    };
    assert_eq!(decide("abc123", "abc123"), Decision::Skip);
    assert_eq!(decide("abc123", "abc124"), Decision::Upload);
    assert_eq!(decide("abc123", "ABC123"), Decision::Upload);
    assert_eq!(decide("", "abc"), Decision::Upload);
}

#[test]
fn without_a_remote_file_the_checksum_method_uploads_at_once() {
    let folder = remote(1, vec![dir(5, "a"), file(6, "b")]);
    let name = s("a");
    assert_eq!(should_upload_file_with_checksum(&name, &folder, None, None), Decision::Upload);
    let failed: Result<String, String> = Err(s("denied"));
    assert_eq!(
        should_upload_file_with_checksum(&name, &folder, Some(&failed), None),
        Decision::Upload
    );
    let same: Result<String, String> = Ok(s("x"));
    assert_eq!(
        should_upload_file_with_checksum(&name, &folder, Some(&same), Some(&s("x"))),
        Decision::Upload
    );
}

#[test]
fn checksum_method_asks_for_the_local_checksum_then_the_remote_one() {
    let folder = remote(1, vec![file(6, "a")]);
    let name = s("a");
    assert_eq!(
        should_upload_file_with_checksum(&name, &folder, None, None),
        Decision::LocalChecksum { file_id: 6 }
    );
    let known: Result<String, String> = Ok(s("abc"));
    assert_eq!(
        should_upload_file_with_checksum(&name, &folder, Some(&known), None),
        Decision::RemoteChecksum { file_id: 6 }
    );
    assert_eq!(
        checksum_decision(Some(6), Some(&known), Some(&s("abd"))),
        Decision::Upload
    );
    assert_eq!(checksum_decision(None, None, None), Decision::Upload);
}

#[test]
fn local_checksum_failure_gives_a_skip_and_asks_for_nothing_more() {
    let folder = remote(1, vec![file(6, "a")]);
    let failed: Result<String, String> = Err(s("permission denied"));
    assert_eq!(
        should_upload_file_with_checksum(&s("a"), &folder, Some(&failed), None),
        Decision::Skip
    );
    assert_eq!(
        should_upload_file_with_checksum(&s("a"), &folder, Some(&failed), Some(&s("abc"))),
        Decision::Skip
    );
}

#[test]
fn handle_file_gives_the_transfer() {
    let folder = remote(1, vec![file(6, "a.txt")]);
    let cmd = upload_cmd(CompareMethod::Checksum);
    assert_eq!(
        cmd.handle_file(&s("/root/a.txt"), &s("a.txt"), &folder),
        Some(Task::LocalChecksum { file_id: 6, upload: upload("a.txt", "/root/a.txt", 1, true) })
    );
    assert_eq!(
        cmd.handle_file(&s("/root/b.txt"), &s("b.txt"), &folder),
        Some(Task::Upload(upload("b.txt", "/root/b.txt", 1, true)))
    );
    let cmd = upload_cmd(CompareMethod::Presence);
    assert_eq!(cmd.handle_file(&s("/root/a.txt"), &s("a.txt"), &folder), None);
}

#[test]
fn upload_plan_handles_every_named_entry() {
    let folder = remote(1, vec![file(6, "a.txt"), dir(7, "sub")]);
    let local = vec![
        LocalEntry::File(s("/root/a.txt")),
        LocalEntry::Folder(s("/root/sub")),
        LocalEntry::Folder(s("/root/..")),
        LocalEntry::File(s("/root/new.txt")),
    ];
    let mut cmd = upload_cmd(CompareMethod::Checksum);
    cmd.remove_after_upload = true;
    cmd.allow_partial_upload = true;
    assert_eq!(
        cmd.handle_folder(&local, &folder),
        vec![
            retried(Task::LocalChecksum {
                file_id: 6,
                upload: removing(upload("a.txt", "/root/a.txt", 1, false)),
            }),
            once(Task::CreateRemoteFolder {
                name: s("sub"),
                parent_id: 1,
                path: s("/root/sub"),
                retried: true,
            }),
            once(Task::RemoveLocalDir { path: s("/root/sub"), lenient: true, recursive: false }),
            retried(Task::Upload(removing(upload("new.txt", "/root/new.txt", 1, false)))),
        ]
    );
}

#[test]
fn upload_plan_with_presence_skips_present_files() {
    let folder = remote(1, vec![file(6, "a.txt")]);
    let local = vec![LocalEntry::File(s("/root/a.txt")), LocalEntry::File(s("/root/b.txt"))];
    assert_eq!(
        upload_cmd(CompareMethod::Presence).handle_folder(&local, &folder),
        vec![retried(Task::Upload(upload("b.txt", "/root/b.txt", 1, true)))]
    );
    let mut plan = Vec::new();
    upload_cmd(CompareMethod::Presence).handle_file_with_retry(
        &mut plan,
        &s("/root/a.txt"),
        &s("a.txt"),
        &folder,
    );
    assert!(plan.is_empty());
}

#[test]
fn handle_folder_with_retry_is_a_retried_level() {
    assert_eq!(
        UploadCommand::handle_folder_with_retry(&s("/root"), 4),
        retried(Task::Sync { folder_id: 4, path: s("/root") })
    );
}

#[test]
fn plan_push_appends() {
    let mut plan = vec![once(Task::DeleteRemoteFile { file_id: 1 })];
    plan_push(&mut plan, Task::DeleteRemoteFolder { folder_id: 2 }, true);
    assert_eq!(
        plan,
        vec![
            once(Task::DeleteRemoteFile { file_id: 1 }),
            retried(Task::DeleteRemoteFolder { folder_id: 2 }),
        ]
    );
}

#[test]
fn duplicates_are_equal_to_what_they_copy() {
    let task = Task::RemoteChecksum {
        file_id: 3,
        local: s("abc"),
        upload: upload("a", "/root/a", 1, true),
    };
    assert_eq!(task.duplicate(), task);
    let report = Task::Report(Diagnostic::ChecksumUnavailable { path: s("/p"), reason: s("r") });
    assert_eq!(report.duplicate(), report);
    let create =
        Task::CreateRemoteFolder { name: s("n"), parent_id: 1, path: s("/p"), retried: true };
    assert_eq!(create.duplicate(), create);
}

#[test]
fn upload_plan_never_holds_the_removal_of_a_file() {
    let folder = remote(1, vec![file(6, "a.txt")]);
    let local = vec![LocalEntry::File(s("/root/a.txt")), LocalEntry::File(s("/root/b.txt"))];
    for method in [CompareMethod::Presence, CompareMethod::Checksum, CompareMethod::Force] {
        let mut cmd = upload_cmd(method);
        cmd.remove_after_upload = true;
        let plan = cmd.handle_folder(&local, &folder);
        assert!(plan.iter().all(|step| !matches!(step.task, Task::RemoveLocalFile { .. })));
    }
    let mut cmd = upload_cmd(CompareMethod::Presence);
    cmd.remove_after_upload = true;
    assert_eq!(
        cmd.handle_folder(&local, &folder),
        vec![retried(Task::Upload(removing(upload("b.txt", "/root/b.txt", 1, true))))]
    );
}
