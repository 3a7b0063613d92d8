//! The store of the files: which service holds it, what is counted of a
//! transfer, and how often a deletion is tried.

use vstd::prelude::*;
use crate::text::{same_text, split_n, split_text};

verus! {

/// The services that can hold the files.
#[derive(Debug, Clone, Copy, PartialEq, Eq, Structural)]
pub enum StorageProvider {
    Aws,
    Azure,
    Gcp,
}

/// The service that a configured name stands for.
pub open spec fn provider_named(name: Seq<char>) -> StorageProvider {
    if name == "azure"@ {
        StorageProvider::Azure
    } else if name == "gcs"@ || name == "gcp"@ {
        StorageProvider::Gcp
    } else {
        StorageProvider::Aws
    }
}

/// Chooses the service that holds the files by its configured name:
/// `azure` names the one, `gcs` and `gcp` another, and `aws`, `s3` and every
/// other name the third.
pub fn storage_provider(name: &str) -> (r: StorageProvider)
    ensures
        r == provider_named(name@),
{
    if same_text(name, "azure") {
        StorageProvider::Azure
    } else if same_text(name, "gcs") || same_text(name, "gcp") {
        StorageProvider::Gcp
    } else {
        StorageProvider::Aws
    }
}

/// Under which labels a transfer of a file is counted.
#[derive(Debug)]
pub enum TransferLabels {
    /// The file is none of the stored files of a stream: nothing is counted.
    Uncounted,
    /// The file belongs to this stream.
    Counted { organization: String, stream: String, stream_type: String },
    /// The path says that the file is a stored file of a stream, but is too
    /// short to name the stream.
    Malformed,
}

/// The columns of a path: the path cut at each slash.
pub open spec fn path_columns(path: Seq<char>) -> Seq<Seq<char>> {
    split_n(path, '/', usize::MAX as nat)
}

/// Finds the labels under which a transfer of a file is counted.
///
/// The path of a stored file of a stream has the form
/// `files/organization/type/stream/...`. A path that does not start with the
/// column `files` is not counted.
pub fn transfer_labels(path: &str) -> (r: TransferLabels)
    ensures
        match r {
            TransferLabels::Uncounted => path_columns(path@)[0] != "files"@,
            TransferLabels::Counted { organization, stream, stream_type } => {
                &&& path_columns(path@)[0] == "files"@
                &&& path_columns(path@).len() >= 4
                &&& organization@ == path_columns(path@)[1]
                &&& stream_type@ == path_columns(path@)[2]
                &&& stream@ == path_columns(path@)[3]
            },
            TransferLabels::Malformed => path_columns(path@)[0] == "files"@ && path_columns(path@).len() < 4,
        },
{
    let columns = split_text(path, '/', usize::MAX);
    assert(columns.deep_view()[0] == columns[0]@);
    if !same_text(columns[0].as_str(), "files") {
        TransferLabels::Uncounted
    } else if columns.len() < 4 {
        TransferLabels::Malformed
    } else {
        assert(columns.deep_view()[1] == columns[1]@);
        assert(columns.deep_view()[2] == columns[2]@);
        assert(columns.deep_view()[3] == columns[3]@);
        TransferLabels::Counted {
            organization: columns[1].clone(),
            stream: columns[3].clone(),
            stream_type: columns[2].clone(),
        }
    }
}

/// How often a deletion is tried.
pub const DELETE_ATTEMPTS: u32 = 3;

/// How long is waited after a deletion that failed, in milliseconds.
pub const DELETE_PAUSE_MILLIS: u64 = 100;

/// What follows one try of a deletion.
#[derive(Debug, Clone, Copy, PartialEq, Eq, Structural)]
pub enum AfterDelete {
    /// The deletion is done: its result is given back.
    Finish,
    /// The deletion failed: after a pause it is tried again.
    PauseAndRetry,
    /// The deletion failed for the last time: after a pause its error is
    /// given back.
    PauseAndFinish,
}

/// What follows the try with the number `attempt`, counted from one.
pub open spec fn after_attempt(attempt: u32, succeeded: bool) -> AfterDelete {
    if succeeded {
        AfterDelete::Finish
    } else if attempt < DELETE_ATTEMPTS {
        AfterDelete::PauseAndRetry
    } else {
        AfterDelete::PauseAndFinish
    }
}

/// Decides what follows one try of a deletion: a deletion that failed is
/// tried again after a pause, up to three tries in all.
pub fn after_delete_attempt(attempt: u32, succeeded: bool) -> (r: AfterDelete)
    ensures
        r == after_attempt(attempt, succeeded),
        r == AfterDelete::PauseAndRetry ==> attempt < DELETE_ATTEMPTS,
{
    if succeeded {
        AfterDelete::Finish
    } else if attempt < DELETE_ATTEMPTS {
        AfterDelete::PauseAndRetry
    } else {
        AfterDelete::PauseAndFinish
    }
}

} // verus!
