//! Folders: the requests that list, create, delete, rename and move them,
//! and the reconciliation of a local directory with a remote folder.

pub mod list;
pub mod sync;
pub mod upload;

use crate::decimal::{decimal, to_decimal};
use crate::entry::Folder;
use crate::request::{param, param_views, Error, PCloudApi, Param, Request, Response, Verb};
use vstd::prelude::*;

verus! {

/// The identifier of the root folder.
pub const ROOT: u64 = 0;

/// The payload of an answer that describes one folder.
#[derive(Debug, PartialEq, Eq)]
pub struct FolderResponse {
    pub metadata: Folder,
}

/// The folder that an answer describes, or the failure that the store
/// reported.
pub fn folder_of(response: Response<FolderResponse>) -> (r: Result<Folder, Error>)
    ensures
        r == match response {
            Response::Error { result, error } => Err::<Folder, Error>(Error::Payload(result, error)),
            Response::Success { result, payload } => Ok::<Folder, Error>(payload.metadata),
        },
{
    match response.payload() {
        Ok(item) => Ok(item.metadata),
        Err(err) => Err(err),
    }
}

/// What a listing of a folder is to hold.
#[derive(Debug, Clone, Copy, PartialEq, Eq, Structural)]
pub struct ListFolderParams {
    pub recursive: bool,
    pub show_deleted: bool,
    pub no_files: bool,
    pub no_shares: bool,
}

impl Default for ListFolderParams {
    fn default() -> (params: ListFolderParams)
        ensures
            params == (ListFolderParams {
                recursive: false,
                show_deleted: false,
                no_files: false,
                no_shares: false,
            }),
    {
        ListFolderParams { recursive: false, show_deleted: false, no_files: false, no_shares: false }
    }
}

/// The parameter that sets the flag called `name`.
pub open spec fn flag(name: Seq<char>) -> Seq<(Seq<char>, Seq<char>)> {
    seq![(name, seq!['1'])]
}

/// The parameter that sets the flag called `name` if `set`, else none.
pub open spec fn flag_if(set: bool, name: Seq<char>) -> Seq<(Seq<char>, Seq<char>)> {
    if set {
        flag(name)
    } else {
        Seq::empty()
    }
}

impl ListFolderParams {
    /// The parameters of the flags that are set, in the order `recursive`,
    /// `showdeleted`, `no_files`, `no_shares`.
    pub open spec fn spec_params(self) -> Seq<(Seq<char>, Seq<char>)> {
        flag_if(self.recursive, "recursive"@) + flag_if(self.show_deleted, "showdeleted"@)
            + flag_if(self.no_files, "no_files"@) + flag_if(self.no_shares, "no_shares"@)
    }

    /// If set, the full tree below the folder is listed: every folder in it
    /// comes with its contents.
    pub fn recursive(self, value: bool) -> (params: ListFolderParams)
        ensures
            params == (ListFolderParams { recursive: value, ..self }),
    {
        let mut params = self;
        params.recursive = value;
        params
    }

    /// If set, deleted files and folders that can be restored are listed.
    pub fn show_deleted(self, value: bool) -> (params: ListFolderParams)
        ensures
            params == (ListFolderParams { show_deleted: value, ..self }),
    {
        let mut params = self;
        params.show_deleted = value;
        params
    }

    /// If set, only folders are listed.
    pub fn no_files(self, value: bool) -> (params: ListFolderParams)
        ensures
            params == (ListFolderParams { no_files: value, ..self }),
    {
        let mut params = self;
        params.no_files = value;
        params
    }

    /// If set, only the user's own folders and files are listed.
    pub fn no_shares(self, value: bool) -> (params: ListFolderParams)
        ensures
            params == (ListFolderParams { no_shares: value, ..self }),
    {
        let mut params = self;
        params.no_shares = value;
        params
    }

    /// The parameters of the flags that are set.
    pub fn to_vec(&self) -> (res: Vec<Param>)
        ensures
            param_views(res@) == self.spec_params(),
    {
        let mut res: Vec<Param> = Vec::new();
        assert(param_views(res@) =~= Seq::<(Seq<char>, Seq<char>)>::empty());
        push_flag(&mut res, self.recursive, "recursive");
        push_flag(&mut res, self.show_deleted, "showdeleted");
        push_flag(&mut res, self.no_files, "no_files");
        push_flag(&mut res, self.no_shares, "no_shares");
        assert(param_views(res@) =~= self.spec_params());
        res
    }
}

/// Adds the parameter that sets the flag called `name`, if `set`.
fn push_flag(params: &mut Vec<Param>, set: bool, name: &str)
    ensures
        param_views(final(params)@) == param_views(old(params)@) + flag_if(set, name@),
{
    if set {
        proof {
            reveal_strlit("1");
        }
        params.push(param(name, String::from_str("1")));
        assert("1"@ =~= seq!['1']);
        assert(param_views(params@) =~= param_views(old(params)@) + flag_if(set, name@));
    } else {
        assert(param_views(params@) =~= param_views(old(params)@) + flag_if(set, name@));
    }
}

/// The payload of the answer to the deletion of a folder with all it held.
#[derive(Debug, Clone, Copy, PartialEq, Eq, Structural)]
pub struct DeleteFolderRecursiveResponse {
    pub deleted_files: u64,
    pub deleted_folders: u64,
}

/// The parameter that names a folder by its identifier.
pub open spec fn id_param(name: Seq<char>, id: u64) -> (Seq<char>, Seq<char>) {
    (name, decimal(id as nat))
}

impl PCloudApi {
    /// The request that creates the folder `name` in the folder
    /// `parent_id`.
    pub fn create_folder(&self, name: &str, parent_id: u64) -> (request: Request)
        ensures
            request@ == self.request_of(
                Verb::Get,
                "createfolder"@,
                seq![("name"@, name@), id_param("folderid"@, parent_id)],
                Seq::<u8>::empty(),
            ),
    {
        let mut params: Vec<Param> = Vec::new();
        params.push(param("name", String::from_str(name)));
        params.push(param("folderid", to_decimal(parent_id)));
        assert(param_views(params@) =~= seq![("name"@, name@), id_param("folderid"@, parent_id)]);
        self.get_request("createfolder", &params)
    }

    /// The request that creates the folder `name` in the folder
    /// `parent_id`; with `ignore_exists`, a folder of that name that exists
    /// already is found instead and the request does not fail.
    pub fn create_folder_with(&self, name: &str, parent_id: u64, ignore_exists: bool) -> (request:
        Request)
        ensures
            request@ == self.request_of(
                Verb::Get,
                if ignore_exists {
                    "createfolderifnotexists"@
                } else {
                    "createfolder"@
                },
                seq![("name"@, name@), id_param("folderid"@, parent_id)],
                Seq::<u8>::empty(),
            ),
    {
        let mut params: Vec<Param> = Vec::new();
        params.push(param("name", String::from_str(name)));
        params.push(param("folderid", to_decimal(parent_id)));
        assert(param_views(params@) =~= seq![("name"@, name@), id_param("folderid"@, parent_id)]);
        if ignore_exists {
            self.get_request("createfolderifnotexists", &params)
        } else {
            self.get_request("createfolder", &params)
        }
    }

    /// The request that lists the folder `folder_id` with its contents.
    pub fn list_folder(&self, folder_id: u64) -> (request: Request)
        ensures
            request@ == self.request_of(
                Verb::Get,
                "listfolder"@,
                seq![id_param("folderid"@, folder_id)],
                Seq::<u8>::empty(),
            ),
    {
        let params = ListFolderParams::default();
        let request = self.list_folder_with_params(folder_id, &params);
        assert(seq![id_param("folderid"@, folder_id)] + params.spec_params() =~= seq![
            id_param("folderid"@, folder_id),
        ]);
        request
    }

    /// The request that lists the folder `folder_id` as `params` say.
    pub fn list_folder_with_params(&self, folder_id: u64, params: &ListFolderParams) -> (request:
        Request)
        ensures
            request@ == self.request_of(
                Verb::Get,
                "listfolder"@,
                seq![id_param("folderid"@, folder_id)] + params.spec_params(),
                Seq::<u8>::empty(),
            ),
    {
        let mut local_params: Vec<Param> = Vec::new();
        local_params.push(param("folderid", to_decimal(folder_id)));
        let mut flags = params.to_vec();
        let ghost first = param_views(local_params@);
        assert(first =~= seq![id_param("folderid"@, folder_id)]);
        local_params.append(&mut flags);
        assert(param_views(local_params@) =~= first + params.spec_params());
        self.get_request("listfolder", &local_params)
    }

    /// The request that deletes the empty folder `folder_id`.
    pub fn delete_folder(&self, folder_id: u64) -> (request: Request)
        ensures
            request@ == self.request_of(
                Verb::Get,
                "deletefolder"@,
                seq![id_param("folderid"@, folder_id)],
                Seq::<u8>::empty(),
            ),
    {
        let mut params: Vec<Param> = Vec::new();
        params.push(param("folderid", to_decimal(folder_id)));
        assert(param_views(params@) =~= seq![id_param("folderid"@, folder_id)]);
        self.get_request("deletefolder", &params)
    }

    /// The request that deletes the folder `folder_id` with all it holds.
    pub fn delete_folder_recursive(&self, folder_id: u64) -> (request: Request)
        ensures
            request@ == self.request_of(
                Verb::Get,
                "deletefolderrecursive"@,
                seq![id_param("folderid"@, folder_id)],
                Seq::<u8>::empty(),
            ),
    {
        let mut params: Vec<Param> = Vec::new();
        params.push(param("folderid", to_decimal(folder_id)));
        assert(param_views(params@) =~= seq![id_param("folderid"@, folder_id)]);
        self.get_request("deletefolderrecursive", &params)
    }

    /// The request that gives the folder `folder_id` the name `name`.
    pub fn rename_folder(&self, folder_id: u64, name: &str) -> (request: Request)
        ensures
            request@ == self.request_of(
                Verb::Get,
                "renamefolder"@,
                seq![id_param("folderid"@, folder_id), ("toname"@, name@)],
                Seq::<u8>::empty(),
            ),
    {
        let mut params: Vec<Param> = Vec::new();
        params.push(param("folderid", to_decimal(folder_id)));
        params.push(param("toname", String::from_str(name)));
        assert(param_views(params@) =~= seq![
            id_param("folderid"@, folder_id),
            ("toname"@, name@),
        ]);
        self.get_request("renamefolder", &params)
    }

    /// The request that moves the folder `folder_id` into the folder
    /// `to_folder_id`.
    pub fn move_folder(&self, folder_id: u64, to_folder_id: u64) -> (request: Request)
        ensures
            request@ == self.request_of(
                Verb::Get,
                "renamefolder"@,
                seq![id_param("folderid"@, folder_id), id_param("tofolderid"@, to_folder_id)],
                Seq::<u8>::empty(),
            ),
    {
        let mut params: Vec<Param> = Vec::new();
        params.push(param("folderid", to_decimal(folder_id)));
        params.push(param("tofolderid", to_decimal(to_folder_id)));
        assert(param_views(params@) =~= seq![
            id_param("folderid"@, folder_id),
            id_param("tofolderid"@, to_folder_id),
        ]);
        self.get_request("renamefolder", &params)
    }
}

} // verus!
