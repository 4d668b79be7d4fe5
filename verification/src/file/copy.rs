//! The copy of a remote file into another folder.

use crate::binary::Value;
use crate::decimal::{decimal, to_decimal};
use crate::request::{param, param_views, PCloudApi, Param, Request, Verb};
use vstd::prelude::*;

verus! {

/// The copy of the file `file_id` into the folder `to_folder_id`.
#[derive(Debug, Clone, Copy, PartialEq, Eq, Structural)]
pub struct FileCopyCommand {
    pub file_id: u64,
    pub to_folder_id: u64,
}

impl FileCopyCommand {
    /// The parameters of the request, as text.
    pub open spec fn spec_http_params(self) -> Seq<(Seq<char>, Seq<char>)> {
        seq![
            ("fileid"@, decimal(self.file_id as nat)),
            ("tofolderid"@, decimal(self.to_folder_id as nat)),
        ]
    }

    /// The copy of the file `file_id` into the folder `to_folder_id`.
    pub fn new(file_id: u64, to_folder_id: u64) -> (command: FileCopyCommand)
        ensures
            command == (FileCopyCommand { file_id, to_folder_id }),
    {
        FileCopyCommand { file_id, to_folder_id }
    }

    /// The parameters of the request, as text: the file, then the folder.
    pub fn to_http_params(&self) -> (params: Vec<Param>)
        ensures
            param_views(params@) == self.spec_http_params(),
    {
        let mut params: Vec<Param> = Vec::new();
        params.push(param("fileid", to_decimal(self.file_id)));
        params.push(param("tofolderid", to_decimal(self.to_folder_id)));
        assert(param_views(params@) =~= self.spec_http_params());
        params
    }

    /// The parameters of the request in the binary protocol: the file,
    /// then the folder, both as numbers.
    pub fn to_binary_params(&self) -> (params: Vec<(&'static str, Value)>)
        ensures
            params@.len() == 2,
            params@[0].0@ == "fileid"@,
            params@[0].1 == Value::Number(self.file_id),
            params@[1].0@ == "tofolderid"@,
            params@[1].1 == Value::Number(self.to_folder_id),
    {
        let mut params: Vec<(&'static str, Value)> = Vec::new();
        params.push(("fileid", Value::Number(self.file_id)));
        params.push(("tofolderid", Value::Number(self.to_folder_id)));
        params
    }

    /// The request that makes the copy.
    pub fn execute(self, client: &PCloudApi) -> (request: Request)
        ensures
            request@ == client.request_of(
                Verb::Get,
                "copyfile"@,
                self.spec_http_params(),
                Seq::<u8>::empty(),
            ),
    {
        client.get_request("copyfile", &self.to_http_params())
    }
}

} // verus!
