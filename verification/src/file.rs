//! Files: the requests that copy and download them.

pub mod copy;
pub mod download;

use crate::decimal::{decimal, to_decimal};
use crate::entry::File;
use crate::folder::{flag_if, id_param};
use crate::request::{param, param_views, Error, PCloudApi, Param, Request, Response, Verb};
use vstd::prelude::*;

verus! {

/// How a request names a remote file: by its identifier or by its path.
#[derive(Debug, PartialEq, Eq)]
pub enum FileIdentifier {
    FileId(u64),
    Path(String),
}

impl FileIdentifier {
    /// The parameter that names the file.
    pub open spec fn spec_param(self) -> (Seq<char>, Seq<char>) {
        match self {
            FileIdentifier::FileId(id) => ("fileid"@, decimal(id as nat)),
            FileIdentifier::Path(path) => ("path"@, path@),
        }
    }
}

/// The payload of an answer that describes one file.
#[derive(Debug, PartialEq, Eq)]
pub struct FileResponse {
    pub metadata: File,
}

/// The file that an answer describes, or the failure that the store
/// reported.
pub fn file_of(response: Response<FileResponse>) -> (r: Result<File, Error>)
    ensures
        r == match response {
            Response::Error { result, error } => Err::<File, Error>(Error::Payload(result, error)),
            Response::Success { result, payload } => Ok::<File, Error>(payload.metadata),
        },
{
    match response.payload() {
        Ok(item) => Ok(item.metadata),
        Err(err) => Err(err),
    }
}

/// The parameters of an upload: the folder, the name of the file, and the
/// flag that forbids a partial file if nothing is to be left behind by a
/// failure.
pub open spec fn upload_params(name: Seq<char>, folder_id: u64, no_partial: bool) -> Seq<
    (Seq<char>, Seq<char>),
> {
    seq![id_param("folderid"@, folder_id), ("filename"@, name)] + flag_if(no_partial, "nopartial"@)
}

impl PCloudApi {
    /// The request that uploads `payload` as the file `name` into the
    /// folder `folder_id`.
    pub fn upload_file(&self, name: &str, folder_id: u64, no_partial: bool, payload: Vec<u8>) -> (request:
        Request)
        ensures
            request@ == self.request_of(
                Verb::Put,
                "uploadfile"@,
                upload_params(name@, folder_id, no_partial),
                payload@,
            ),
    {
        let mut params: Vec<Param> = Vec::new();
        params.push(param("folderid", to_decimal(folder_id)));
        params.push(param("filename", String::from_str(name)));
        if no_partial {
            proof {
                reveal_strlit("1");
            }
            params.push(param("nopartial", String::from_str("1")));
            assert("1"@ =~= seq!['1']);
        }
        assert(param_views(params@) =~= upload_params(name@, folder_id, no_partial));
        self.put_request_data("uploadfile", &params, payload)
    }

    /// The request that deletes the file `file_id`.
    pub fn delete_file(&self, file_id: u64) -> (request: Request)
        ensures
            request@ == self.request_of(
                Verb::Get,
                "deletefile"@,
                seq![id_param("fileid"@, file_id)],
                Seq::<u8>::empty(),
            ),
    {
        let mut params: Vec<Param> = Vec::new();
        params.push(param("fileid", to_decimal(file_id)));
        assert(param_views(params@) =~= seq![id_param("fileid"@, file_id)]);
        self.get_request("deletefile", &params)
    }

    /// The request that gives the file `file_id` the name `name`.
    pub fn rename_file(&self, file_id: u64, name: &str) -> (request: Request)
        ensures
            request@ == self.request_of(
                Verb::Get,
                "renamefile"@,
                seq![id_param("fileid"@, file_id), ("toname"@, name@)],
                Seq::<u8>::empty(),
            ),
    {
        let mut params: Vec<Param> = Vec::new();
        params.push(param("fileid", to_decimal(file_id)));
        params.push(param("toname", String::from_str(name)));
        assert(param_views(params@) =~= seq![id_param("fileid"@, file_id), ("toname"@, name@)]);
        self.get_request("renamefile", &params)
    }

    /// The request that reads the checksums of the file `file_id`.
    pub fn checksum_file(&self, file_id: u64) -> (request: Request)
        ensures
            request@ == self.request_of(
                Verb::Get,
                "checksumfile"@,
                seq![id_param("fileid"@, file_id)],
                Seq::<u8>::empty(),
            ),
    {
        let mut params: Vec<Param> = Vec::new();
        params.push(param("fileid", to_decimal(file_id)));
        assert(param_views(params@) =~= seq![id_param("fileid"@, file_id)]);
        self.get_request("checksumfile", &params)
    }
}

} // verus!
