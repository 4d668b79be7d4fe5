use pcloud_sync::binary::Value;
use pcloud_sync::decimal::to_decimal;
use pcloud_sync::entry::{File, Folder};
use pcloud_sync::file::copy::FileCopyCommand;
use pcloud_sync::file::download::{written, FileDownloadCommand};
use pcloud_sync::file::{file_of, FileIdentifier, FileResponse};
use pcloud_sync::folder::list::{name_le, row_before, Command as ListCommand, Kind, Row};
use pcloud_sync::folder::{
    folder_of, DeleteFolderRecursiveResponse, FolderResponse, ListFolderParams, ROOT,
};
use pcloud_sync::request::{
    extend_params, param, Error, PCloudApi, Request, Response, Verb, ROOT_FOLDER,
};
use pcloud_sync::entry::Entry;
use pcloud_sync::remote::{request_for, upload_request};
use pcloud_sync::task::{Diagnostic, Task, UploadSpec};

fn s(text: &str) -> String {
    text.to_string()
}

fn pair(name: &str, value: &str) -> (String, String) {
    (s(name), s(value))
}

fn api() -> PCloudApi {
    PCloudApi {
        base_url: s("https://eapi.pcloud.com"),
        credentials: vec![pair("access_token", "SECRET")],
    }
}

fn get(method: &str, params: Vec<(String, String)>) -> Request {
    let mut query = vec![pair("access_token", "SECRET")];
    query.extend(params);
    Request {
        verb: Verb::Get,
        url: format!("https://eapi.pcloud.com/{}", method),
        query,
        body: vec![],
    }
}

fn folder(id: u64, name: &str) -> Folder {
    Folder { folder_id: id, name: s(name), modified: s("Mon, 01 Jan 2024"), contents: None }
}

#[test]
fn decimal_text_of_numbers() {
    assert_eq!(to_decimal(0), "0");
    assert_eq!(to_decimal(7), "7");
    assert_eq!(to_decimal(10), "10");
    assert_eq!(to_decimal(1234567890), "1234567890");
    assert_eq!(to_decimal(u64::MAX), "18446744073709551615");
    for n in [9u64, 99, 100, 101, 4096, 90009] {
        assert_eq!(to_decimal(n), n.to_string());
    }
}

#[test]
fn payload_of_success_and_failure() {
    let ok: Response<u8> = Response::Success { result: 0, payload: 42 };
    assert_eq!(ok.payload(), Ok(42));
    let failed: Response<u8> = Response::Error { result: 2005, error: s("Directory does not exist.") };
    assert_eq!(failed.payload(), Err(Error::Payload(2005, s("Directory does not exist."))));
}

#[test]
fn folder_and_file_of_responses() {
    let ok = Response::Success { result: 0, payload: FolderResponse { metadata: folder(5, "docs") } };
    assert_eq!(folder_of(ok), Ok(folder(5, "docs")));
    let failed: Response<FolderResponse> = Response::Error { result: 1000, error: s("Log in required.") };
    assert_eq!(folder_of(failed), Err(Error::Payload(1000, s("Log in required."))));
    let file = File { file_id: 9, name: s("a.txt"), modified: s("now") };
    let ok = Response::Success {
        result: 0,
        payload: FileResponse { metadata: File { file_id: 9, name: s("a.txt"), modified: s("now") } },
    };
    assert_eq!(file_of(ok), Ok(file));
    let failed: Response<FileResponse> = Response::Error { result: 2009, error: s("File not found.") };
    assert_eq!(file_of(failed), Err(Error::Payload(2009, s("File not found."))));
}

#[test]
fn build_url_joins_base_and_method() {
    assert_eq!(api().build_url("listfolder"), "https://eapi.pcloud.com/listfolder");
    let other = PCloudApi { base_url: s("http://localhost:8080"), credentials: vec![] };
    assert_eq!(other.build_url(""), "http://localhost:8080/");
}

#[test]
fn get_request_puts_credentials_first() {
    let request = api().get_request("stat", &vec![pair("fileid", "3"), pair("x", "y")]);
    assert_eq!(request, get("stat", vec![pair("fileid", "3"), pair("x", "y")]));
}

#[test]
fn put_request_carries_the_payload() {
    let request = api().put_request_data("uploadfile", &vec![pair("folderid", "0")], vec![1, 2, 3]);
    assert_eq!(request.verb, Verb::Put);
    assert_eq!(request.url, "https://eapi.pcloud.com/uploadfile");
    assert_eq!(request.query, vec![pair("access_token", "SECRET"), pair("folderid", "0")]);
    assert_eq!(request.body, vec![1, 2, 3]);
}

#[test]
fn param_and_extend_params() {
    assert_eq!(param("name", s("value")), pair("name", "value"));
    let mut params = vec![pair("a", "1")];
    extend_params(&mut params, &vec![pair("b", "2"), pair("c", "3")]);
    assert_eq!(params, vec![pair("a", "1"), pair("b", "2"), pair("c", "3")]);
    extend_params(&mut params, &vec![]);
    assert_eq!(params.len(), 3);
}

#[test]
fn list_folder_params_default_sets_nothing() {
    let params = ListFolderParams::default();
    assert!(!params.recursive && !params.show_deleted && !params.no_files && !params.no_shares);
    assert!(params.to_vec().is_empty());
}

#[test]
fn list_folder_params_builders_set_one_flag_each() {
    let base = ListFolderParams::default();
    assert_eq!(base.recursive(true).to_vec(), vec![pair("recursive", "1")]);
    assert_eq!(base.show_deleted(true).to_vec(), vec![pair("showdeleted", "1")]);
    assert_eq!(base.no_files(true).to_vec(), vec![pair("no_files", "1")]);
    assert_eq!(base.no_shares(true).to_vec(), vec![pair("no_shares", "1")]);
    assert_eq!(base.recursive(true).recursive(false), base);
    let all = base.no_shares(true).no_files(true).show_deleted(true).recursive(true);
    assert_eq!(
        all.to_vec(),
        vec![
            pair("recursive", "1"),
            pair("showdeleted", "1"),
            pair("no_files", "1"),
            pair("no_shares", "1"),
        ]
    );
    let some = base.recursive(true).no_shares(true);
    assert_eq!(some.to_vec(), vec![pair("recursive", "1"), pair("no_shares", "1")]);
}

#[test]
fn folder_requests() {
    let api = api();
    assert_eq!(
        api.create_folder("docs", 12),
        get("createfolder", vec![pair("name", "docs"), pair("folderid", "12")])
    );
    assert_eq!(api.list_folder(ROOT), get("listfolder", vec![pair("folderid", "0")]));
    assert_eq!(
        api.list_folder_with_params(34, &ListFolderParams::default().recursive(true).no_files(true)),
        get(
            "listfolder",
            vec![pair("folderid", "34"), pair("recursive", "1"), pair("no_files", "1")]
        )
    );
    assert_eq!(api.delete_folder(5), get("deletefolder", vec![pair("folderid", "5")]));
    assert_eq!(
        api.delete_folder_recursive(6),
        get("deletefolderrecursive", vec![pair("folderid", "6")])
    );
    assert_eq!(
        api.rename_folder(7, "new name"),
        get("renamefolder", vec![pair("folderid", "7"), pair("toname", "new name")])
    );
    assert_eq!(
        api.move_folder(8, 9),
        get("renamefolder", vec![pair("folderid", "8"), pair("tofolderid", "9")])
    );
    assert_eq!(ROOT, 0);
    assert_eq!(ROOT_FOLDER, 0);
}

#[test]
fn delete_folder_recursive_response_holds_counts() {
    let response = DeleteFolderRecursiveResponse { deleted_files: 3, deleted_folders: 2 };
    assert_eq!(response.deleted_files, 3);
    assert_eq!(response.deleted_folders, 2);
}

#[test]
fn file_copy_command_params() {
    let command = FileCopyCommand::new(42, 1000);
    assert_eq!(command.file_id, 42);
    assert_eq!(command.to_folder_id, 1000);
    assert_eq!(command.to_http_params(), vec![pair("fileid", "42"), pair("tofolderid", "1000")]);
    assert_eq!(
        command.to_binary_params(),
        vec![("fileid", Value::Number(42)), ("tofolderid", Value::Number(1000))]
    );
    assert_eq!(
        command.execute(&api()),
        get("copyfile", vec![pair("fileid", "42"), pair("tofolderid", "1000")])
    );
}

#[test]
fn file_download_command_asks_for_the_link() {
    let command = FileDownloadCommand::new(FileIdentifier::FileId(77), Vec::<u8>::new());
    assert_eq!(command.identifier, FileIdentifier::FileId(77));
    assert!(command.writer.is_empty());
    assert_eq!(command.execute(&api()), get("getfilelink", vec![pair("fileid", "77")]));
    let by_path = FileDownloadCommand::new(FileIdentifier::Path(s("/docs/a.txt")), ());
    assert_eq!(by_path.execute(&api()), get("getfilelink", vec![pair("path", "/docs/a.txt")]));
}

#[test]
fn written_sums_chunk_sizes() {
    assert_eq!(written(&vec![]), Some(0));
    assert_eq!(written(&vec![4096, 4096, 100]), Some(8292));
    assert_eq!(written(&vec![usize::MAX, 0]), Some(usize::MAX));
    assert_eq!(written(&vec![usize::MAX, 1]), None);
    assert_eq!(written(&vec![1, usize::MAX, 5]), None);
}

#[test]
fn list_rows_show_id_kind_name_and_date() {
    let entries = vec![
        Entry::Folder(folder(3, "docs")),
        Entry::File(File { file_id: 8, name: s("a.txt"), modified: s("Tue, 02 Jan 2024") }),
    ];
    let rows = ListCommand.rows(&entries);
    assert_eq!(
        rows,
        vec![
            Row { id: 3, kind: Kind::Folder, name: s("docs"), modified: s("Mon, 01 Jan 2024") },
            Row { id: 8, kind: Kind::File, name: s("a.txt"), modified: s("Tue, 02 Jan 2024") },
        ]
    );
    assert_eq!(ListCommand::label(Kind::File), "file");
    assert_eq!(ListCommand::label(Kind::Folder), "folder");
    assert!(ListCommand.rows(&vec![]).is_empty());
}

#[test]
fn list_rows_put_folders_first_and_sort_by_name() {
    let entries = vec![
        Entry::File(File { file_id: 1, name: s("b.txt"), modified: s("") }),
        Entry::Folder(folder(2, "zeta")),
        Entry::File(File { file_id: 3, name: s("a.txt"), modified: s("") }),
        Entry::Folder(folder(4, "alpha")),
        Entry::File(File { file_id: 5, name: s("a"), modified: s("") }),
        Entry::File(File { file_id: 6, name: s("B.txt"), modified: s("") }),
    ];
    let rows = ListCommand.rows(&entries);
    let shown: Vec<(u64, &str)> = rows.iter().map(|row| (row.id, row.name.as_str())).collect();
    assert_eq!(
        shown,
        vec![(4, "alpha"), (2, "zeta"), (6, "B.txt"), (5, "a"), (3, "a.txt"), (1, "b.txt")]
    );
}

#[test]
fn list_rows_keep_every_entry_even_with_equal_names() {
    let entries = vec![
        Entry::File(File { file_id: 1, name: s("same"), modified: s("") }),
        Entry::Folder(folder(2, "same")),
        Entry::File(File { file_id: 3, name: s("same"), modified: s("") }),
    ];
    let rows = ListCommand.rows(&entries);
    assert_eq!(rows.len(), 3);
    assert_eq!(rows[0].id, 2);
    let mut ids: Vec<u64> = rows.iter().map(|row| row.id).collect();
    ids.sort();
    assert_eq!(ids, vec![1, 2, 3]);
}

#[test]
fn name_order_is_that_of_a_dictionary() {
    let samples = ["", "a", "ab", "b", "B", "a.txt", "é", "z", "zz", "10", "9", "été", "ete"];
    for x in samples {
        for y in samples {
            assert_eq!(name_le(&s(x), &s(y)), x <= y, "{:?} and {:?}", x, y);
        }
    }
}

#[test]
fn row_order_puts_folders_before_files() {
    let row = |kind: Kind, name: &str| Row { id: 0, kind, name: s(name), modified: s("") };
    assert!(row_before(&row(Kind::Folder, "z"), &row(Kind::File, "a")));
    assert!(!row_before(&row(Kind::File, "a"), &row(Kind::Folder, "z")));
    assert!(row_before(&row(Kind::File, "a"), &row(Kind::File, "b")));
    assert!(!row_before(&row(Kind::Folder, "b"), &row(Kind::Folder, "a")));
    assert!(row_before(&row(Kind::Folder, "a"), &row(Kind::Folder, "a")));
    assert_eq!(ListCommand::row(&Entry::Folder(folder(3, "docs"))).kind, Kind::Folder);
}

#[test]
fn requests_that_perform_the_remote_tasks() {
    let api = api();
    assert_eq!(
        request_for(&api, &Task::Sync { folder_id: 12, path: s("/root") }),
        Some(get("listfolder", vec![pair("folderid", "12")]))
    );
    assert_eq!(
        request_for(
            &api,
            &Task::CreateRemoteFolder { name: s("docs"), parent_id: 3, path: s("/root/docs"), retried: false }
        ),
        Some(get("createfolderifnotexists", vec![pair("name", "docs"), pair("folderid", "3")]))
    );
    assert_eq!(
        request_for(&api, &Task::DeleteRemoteFile { file_id: 7 }),
        Some(get("deletefile", vec![pair("fileid", "7")]))
    );
    assert_eq!(
        request_for(&api, &Task::DeleteRemoteFolder { folder_id: 8 }),
        Some(get("deletefolderrecursive", vec![pair("folderid", "8")]))
    );
    assert_eq!(
        request_for(&api, &Task::Download { file_id: 9, path: s("/root/a") }),
        Some(get("getfilelink", vec![pair("fileid", "9")]))
    );
    let upload = || UploadSpec {
        name: s("a.txt"),
        path: s("/root/a.txt"),
        folder_id: 4,
        no_partial: true,
        remove_after: false,
    };
    assert_eq!(
        request_for(&api, &Task::RemoteChecksum { file_id: 10, local: s("abc"), upload: upload() }),
        Some(get("checksumfile", vec![pair("fileid", "10")]))
    );
    assert_eq!(request_for(&api, &Task::Upload(upload())), None);
    assert_eq!(request_for(&api, &Task::CreateLocalDir { path: s("/root/d") }), None);
    assert_eq!(
        request_for(&api, &Task::RemoveLocalDir { path: s("/d"), lenient: true, recursive: false }),
        None
    );
    assert_eq!(
        request_for(&api, &Task::Report(Diagnostic::TypeConflict { path: s("/root/x") })),
        None
    );
}

#[test]
fn upload_request_carries_name_folder_and_content() {
    let spec = UploadSpec {
        name: s("a.txt"),
        path: s("/root/a.txt"),
        folder_id: 4,
        no_partial: true,
        remove_after: true,
    };
    let request = upload_request(&api(), &spec, vec![104, 105]);
    assert_eq!(request.verb, Verb::Put);
    assert_eq!(request.url, "https://eapi.pcloud.com/uploadfile");
    assert_eq!(
        request.query,
        vec![
            pair("access_token", "SECRET"),
            pair("folderid", "4"),
            pair("filename", "a.txt"),
            pair("nopartial", "1"),
        ]
    );
    assert_eq!(request.body, vec![104, 105]);
    let partial = UploadSpec { no_partial: false, ..spec };
    assert_eq!(
        upload_request(&api(), &partial, vec![]).query,
        vec![pair("access_token", "SECRET"), pair("folderid", "4"), pair("filename", "a.txt")]
    );
}

#[test]
fn file_requests() {
    let api = api();
    assert_eq!(api.delete_file(5), get("deletefile", vec![pair("fileid", "5")]));
    assert_eq!(
        api.rename_file(5, "b.txt"),
        get("renamefile", vec![pair("fileid", "5"), pair("toname", "b.txt")])
    );
    assert_eq!(api.checksum_file(5), get("checksumfile", vec![pair("fileid", "5")]));
    assert_eq!(
        api.create_folder_with("docs", 1, false),
        get("createfolder", vec![pair("name", "docs"), pair("folderid", "1")])
    );
    assert_eq!(
        api.create_folder_with("docs", 1, true),
        get("createfolderifnotexists", vec![pair("name", "docs"), pair("folderid", "1")])
    );
}
