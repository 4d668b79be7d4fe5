//! Requests to the remote store and the envelope of its responses.

use vstd::prelude::*;
use vstd::string::*;

verus! {

/// The identifier of the root folder of the remote store.
pub const ROOT_FOLDER: u64 = 0;

/// Failures of one exchange with the remote store.
#[derive(Debug, PartialEq, Eq)]
pub enum Error {
    /// The store answered with a failure code and a message.
    Payload(u16, String),
    /// The exchange itself failed; the text describes the transport failure.
    Reqwest(String),
    /// The answer could not be decoded.
    ResponseFormat,
    /// Writing downloaded bytes failed.
    Download(String),
    /// Reading bytes to upload failed.
    Upload(String),
}

/// The envelope of every answer of the store: a failure code with its
/// message, or the success code with a payload.
#[derive(Debug)]
pub enum Response<T> {
    Error { result: u16, error: String },
    Success { result: u16, payload: T },
}

impl<T> Response<T> {
    /// The payload of a successful answer, or the failure that the store
    /// reported.
    pub fn payload(self) -> (r: Result<T, Error>)
        ensures
            r == match self {
                Response::Error { result, error } => Err::<T, Error>(Error::Payload(result, error)),
                Response::Success { result, payload } => Ok::<T, Error>(payload),
            },
    {
        match self {
            Response::Error { result, error } => Err(Error::Payload(result, error)),
            Response::Success { result: _, payload } => Ok(payload),
        }
    }
}

/// A parameter of a request: its name and its value.
pub type Param = (String, String);

/// The model of a parameter.
pub open spec fn param_view(param: Param) -> (Seq<char>, Seq<char>) {
    (param.0@, param.1@)
}

/// The models of a sequence of parameters.
pub open spec fn param_views(params: Seq<Param>) -> Seq<(Seq<char>, Seq<char>)> {
    params.map_values(|param: Param| param_view(param))
}

/// How a request is sent.
#[derive(Debug, Clone, Copy, PartialEq, Eq, Structural)]
pub enum Verb {
    Get,
    Put,
}

/// A request to the store, ready to be sent: the address, the query
/// parameters with the credentials first, and the bytes of the body.
#[derive(Debug, PartialEq, Eq)]
pub struct Request {
    pub verb: Verb,
    pub url: String,
    pub query: Vec<Param>,
    pub body: Vec<u8>,
}

/// A request as a value of the model.
pub struct RequestView {
    pub verb: Verb,
    pub url: Seq<char>,
    pub query: Seq<(Seq<char>, Seq<char>)>,
    pub body: Seq<u8>,
}

impl View for Request {
    type V = RequestView;

    open spec fn view(&self) -> RequestView {
        RequestView {
            verb: self.verb,
            url: self.url@,
            query: param_views(self.query@),
            body: self.body@,
        }
    }
}

/// Access to the store: the address of the data center, and the query
/// parameters that authenticate a request.
#[derive(Debug, PartialEq, Eq)]
pub struct PCloudApi {
    pub base_url: String,
    pub credentials: Vec<Param>,
}

/// A parameter with the given name and value.
pub fn param(name: &str, value: String) -> (p: Param)
    ensures
        param_view(p) == (name@, value@),
{
    (String::from_str(name), value)
}

/// Adds copies of `more` to the end of `params`.
pub fn extend_params(params: &mut Vec<Param>, more: &Vec<Param>)
    ensures
        param_views(final(params)@) == param_views(old(params)@) + param_views(more@),
{
    let ghost before = param_views(params@);
    let mut i: usize = 0;
    assert(param_views(params@) =~= before + param_views(more@).take(0));
    while i < more.len()
        invariant
            i <= more.len(),
            param_views(params@) == before + param_views(more@).take(i as int),
        decreases more.len() - i,
    {
        let ghost so_far = params@;
        let copy = (more[i].0.clone(), more[i].1.clone());
        params.push(copy);
        assert(param_views(params@) =~= param_views(so_far).push(param_view(more@[i as int])));
        assert(param_views(more@).take(i + 1) =~= param_views(more@).take(i as int).push(
            param_view(more@[i as int]),
        ));
        i += 1;
    }
    assert(param_views(more@).take(more.len() as int) =~= param_views(more@));
}

impl PCloudApi {
    /// The address of `method`: the address of the data center, a slash,
    /// and the name of the method.
    pub open spec fn url_of(self, method: Seq<char>) -> Seq<char> {
        self.base_url@ + seq!['/'] + method
    }

    /// The request that calls `method` with `params`: the credentials come
    /// first in the query, then the parameters.
    pub open spec fn request_of(
        self,
        verb: Verb,
        method: Seq<char>,
        params: Seq<(Seq<char>, Seq<char>)>,
        body: Seq<u8>,
    ) -> RequestView {
        RequestView {
            verb,
            url: self.url_of(method),
            query: param_views(self.credentials@) + params,
            body,
        }
    }

    /// The address of `method`.
    pub fn build_url(&self, method: &str) -> (url: String)
        ensures
            url@ == self.url_of(method@),
    {
        proof {
            reveal_strlit("/");
        }
        let mut url = self.base_url.clone();
        url.append("/");
        url.append(method);
        assert(url@ =~= self.url_of(method@));
        url
    }

    /// The request that reads from `method` with `params`.
    pub fn get_request(&self, method: &str, params: &Vec<Param>) -> (request: Request)
        ensures
            request@ == self.request_of(
                Verb::Get,
                method@,
                param_views(params@),
                Seq::<u8>::empty(),
            ),
    {
        let mut query: Vec<Param> = Vec::new();
        assert(param_views(query@) =~= Seq::<(Seq<char>, Seq<char>)>::empty());
        extend_params(&mut query, &self.credentials);
        extend_params(&mut query, params);
        let url = self.build_url(method);
        assert(param_views(query@) =~= param_views(self.credentials@) + param_views(params@));
        Request { verb: Verb::Get, url, query, body: Vec::new() }
    }

    /// The request that sends `payload` to `method` with `params`.
    pub fn put_request_data(&self, method: &str, params: &Vec<Param>, payload: Vec<u8>) -> (request:
        Request)
        ensures
            request@ == self.request_of(Verb::Put, method@, param_views(params@), payload@),
    {
        let mut query: Vec<Param> = Vec::new();
        assert(param_views(query@) =~= Seq::<(Seq<char>, Seq<char>)>::empty());
        extend_params(&mut query, &self.credentials);
        extend_params(&mut query, params);
        let url = self.build_url(method);
        assert(param_views(query@) =~= param_views(self.credentials@) + param_views(params@));
        Request { verb: Verb::Put, url, query, body: payload }
    }
}

} // verus!
