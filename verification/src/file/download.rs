//! The download of a remote file into a writer.

use crate::decimal::to_decimal;
use crate::file::FileIdentifier;
use crate::request::{param, param_views, PCloudApi, Param, Request, Verb};
use vstd::prelude::*;

verus! {

/// The download of the file `identifier` into `writer`.
#[derive(Debug)]
pub struct FileDownloadCommand<W> {
    pub identifier: FileIdentifier,
    pub writer: W,
}

/// The bytes written after chunks of the given sizes were written in turn.
pub open spec fn total(sizes: Seq<usize>) -> nat
    decreases sizes.len(),
{
    if sizes.len() == 0 {
        0
    } else {
        total(sizes.drop_last()) + sizes.last() as nat
    }
}

impl<W> FileDownloadCommand<W> {
    /// The download of the file `identifier` into `writer`.
    pub fn new(identifier: FileIdentifier, writer: W) -> (command: FileDownloadCommand<W>)
        ensures
            command.identifier == identifier,
            command.writer == writer,
    {
        FileDownloadCommand { identifier, writer }
    }

    /// The request for the link from which the content of the file can be
    /// fetched.
    pub fn execute(&self, client: &PCloudApi) -> (request: Request)
        ensures
            request@ == client.request_of(
                Verb::Get,
                "getfilelink"@,
                seq![self.identifier.spec_param()],
                Seq::<u8>::empty(),
            ),
    {
        let mut params: Vec<Param> = Vec::new();
        match &self.identifier {
            FileIdentifier::FileId(id) => {
                params.push(param("fileid", to_decimal(*id)));
            },
            FileIdentifier::Path(path) => {
                params.push(param("path", path.clone()));
            },
        }
        assert(param_views(params@) =~= seq![self.identifier.spec_param()]);
        client.get_request("getfilelink", &params)
    }
}

/// The number of bytes written after chunks of the given sizes were written
/// in turn, or nothing if the number does not fit.
pub fn written(sizes: &Vec<usize>) -> (size: Option<usize>)
    ensures
        match size {
            Some(n) => n == total(sizes@),
            None => total(sizes@) > usize::MAX,
        },
{
    let mut size: usize = 0;
    let mut i: usize = 0;
    assert(sizes@.take(0) =~= Seq::<usize>::empty());
    while i < sizes.len()
        invariant
            i <= sizes.len(),
            size == total(sizes@.take(i as int)),
        decreases sizes.len() - i,
    {
        proof {
            assert(sizes@.take(i + 1).drop_last() =~= sizes@.take(i as int));
            lemma_total_grows(sizes@, i + 1);
        }
        match size.checked_add(sizes[i]) {
            Some(sum) => {
                size = sum;
            },
            None => {
                return None;
            },
        }
        i += 1;
    }
    assert(sizes@.take(sizes.len() as int) =~= sizes@);
    Some(size)
}

/// The total of a beginning of the sizes is at most the total of all.
proof fn lemma_total_grows(sizes: Seq<usize>, n: int)
    requires
        0 <= n <= sizes.len(),
    ensures
        total(sizes.take(n)) <= total(sizes),
    decreases sizes.len() - n,
{
    if n < sizes.len() {
        lemma_total_grows(sizes, n + 1);
        assert(sizes.take(n + 1).drop_last() =~= sizes.take(n));
    } else {
        assert(sizes.take(n) =~= sizes);
    }
}

} // verus!
