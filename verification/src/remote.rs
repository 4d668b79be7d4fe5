//! The requests by which the tasks of a run are performed on the remote
//! store.

use crate::file::download::FileDownloadCommand;
use crate::file::{upload_params, FileIdentifier};
use crate::folder::id_param;
use crate::request::{PCloudApi, Request, RequestView, Verb};
use crate::task::{Task, TaskView, UploadSpec};
use vstd::prelude::*;

verus! {

/// The request that performs `task` on the store, for the tasks that one
/// request performs or begins:
///
/// - a level is listed with the remote folder and its contents;
/// - a remote folder is created so that a folder of that name that exists
///   already is found instead, and the request does not fail;
/// - a remote file is deleted, and a remote folder with all it holds;
/// - the checksum of the remote file is read;
/// - a download begins with the link to the content of the file.
///
/// An upload needs the content of the local file besides, and the other
/// tasks are performed on the local tree.
pub open spec fn task_request(api: PCloudApi, task: TaskView) -> Option<RequestView> {
    match task {
        TaskView::Sync { folder_id, .. } => Some(
            api.request_of(
                Verb::Get,
                "listfolder"@,
                seq![id_param("folderid"@, folder_id)],
                Seq::empty(),
            ),
        ),
        TaskView::CreateRemoteFolder { name, parent_id, .. } => Some(
            api.request_of(
                Verb::Get,
                "createfolderifnotexists"@,
                seq![("name"@, name), id_param("folderid"@, parent_id)],
                Seq::empty(),
            ),
        ),
        TaskView::DeleteRemoteFile { file_id } => Some(
            api.request_of(
                Verb::Get,
                "deletefile"@,
                seq![id_param("fileid"@, file_id)],
                Seq::empty(),
            ),
        ),
        TaskView::DeleteRemoteFolder { folder_id } => Some(
            api.request_of(
                Verb::Get,
                "deletefolderrecursive"@,
                seq![id_param("folderid"@, folder_id)],
                Seq::empty(),
            ),
        ),
        TaskView::RemoteChecksum { file_id, .. } => Some(
            api.request_of(
                Verb::Get,
                "checksumfile"@,
                seq![id_param("fileid"@, file_id)],
                Seq::empty(),
            ),
        ),
        TaskView::Download { file_id, .. } => Some(
            api.request_of(
                Verb::Get,
                "getfilelink"@,
                seq![id_param("fileid"@, file_id)],
                Seq::empty(),
            ),
        ),
        _ => None,
    }
}

/// The request that performs `task` on the store, if one request performs
/// or begins it.
pub fn request_for(api: &PCloudApi, task: &Task) -> (request: Option<Request>)
    ensures
        match request {
            Some(r) => task_request(*api, task@) == Some(r@),
            None => task_request(*api, task@) is None,
        },
{
    match task {
        Task::Sync { folder_id, path: _ } => Some(api.list_folder(*folder_id)),
        Task::CreateRemoteFolder { name, parent_id, path: _, retried: _ } => Some(
            api.create_folder_with(name.as_str(), *parent_id, true),
        ),
        Task::DeleteRemoteFile { file_id } => Some(api.delete_file(*file_id)),
        Task::DeleteRemoteFolder { folder_id } => Some(api.delete_folder_recursive(*folder_id)),
        Task::RemoteChecksum { file_id, local: _, upload: _ } => Some(
            api.checksum_file(*file_id),
        ),
        Task::Download { file_id, path: _ } => Some(
            FileDownloadCommand::new(FileIdentifier::FileId(*file_id), ()).execute(api),
        ),
        _ => None,
    }
}

/// The request that uploads `payload`, the content of the local file, as
/// `upload` says: into its folder, under its name, and so that a failure
/// leaves nothing behind unless a partial file is allowed.
pub fn upload_request(api: &PCloudApi, upload: &UploadSpec, payload: Vec<u8>) -> (request: Request)
    ensures
        request@ == api.request_of(
            Verb::Put,
            "uploadfile"@,
            upload_params(upload.name@, upload.folder_id, upload.no_partial),
            payload@,
        ),
{
    api.upload_file(upload.name.as_str(), upload.folder_id, upload.no_partial, payload)
}

} // verus!
