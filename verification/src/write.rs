//! The start of a write request: who may write, and the unpacking of the
//! request's body.

use vstd::prelude::*;
use vstd::string::StringExecFns;
use crate::errors::Failure;
use crate::text::contains_text;

verus! {

/// The error of the crate `snap`. Nothing is known of its inside.
#[verifier::external_type_specification]
#[verifier::external_body]
pub struct ExSnapError(snap::Error);

/// Why a request is turned away before its body is read, if it is.
pub open spec fn refusal(is_ingester: bool, blocked_orgs: Seq<Seq<char>>, org_id: Seq<char>) -> Option<Seq<char>> {
    if !is_ingester {
        Some("not an ingester"@)
    } else if blocked_orgs.contains(org_id) {
        Some("Quota exceeded for this organization"@)
    } else {
        None
    }
}

/// Decides whether this node takes a write request of an organization.
///
/// A node that is no ingester takes none, and no node takes one of an
/// organization that is blocked.
pub fn check_ingest_allowed(is_ingester: bool, blocked_orgs: &Vec<String>, org_id: &str) -> (r: Result<(), Failure>)
    ensures
        match r {
            Ok(_) => refusal(is_ingester, blocked_orgs.deep_view(), org_id@) is None,
            Err(error) => refusal(is_ingester, blocked_orgs.deep_view(), org_id@) == Some(error.text()),
        },
{
    if !is_ingester {
        return Err(Failure::Message(String::from_str("not an ingester")));
    }
    if contains_text(blocked_orgs, org_id) {
        return Err(Failure::Message(String::from_str("Quota exceeded for this organization")));
    }
    Ok(())
}

/// What a body holds once it is unpacked; `None` for a body that is not a
/// well-formed Snappy block.
pub uninterp spec fn snappy_decoded(body: Seq<u8>) -> Option<Seq<u8>>;

/// Calls `snap::raw::Decoder::decompress_vec` on a new decoder. The call
/// gives the unpacked bytes or an error, and which of the two depends on the
/// body alone. An empty body is an error.
#[verifier::external_body]
fn snappy_decompress(body: &[u8]) -> (r: Result<Vec<u8>, snap::Error>)
    ensures
        match r {
            Ok(bytes) => snappy_decoded(body@) == Some(bytes@),
            Err(_) => snappy_decoded(body@) is None,
        },
        body@.len() == 0 ==> r is Err,
{
    snap::raw::Decoder::new().decompress_vec(body)
}

/// The words of a `snap::Error`, as its `Display` writes them.
#[verifier::external_body]
fn snappy_error_text(error: &snap::Error) -> String {
    error.to_string()
}

/// Start of the words of the error for a body that cannot be unpacked.
pub const INVALID_BODY: &'static str = "Invalid snappy compressed data: ";

/// Unpacks the body of a write request.
///
/// A body that is not a well-formed Snappy block is refused, with an error
/// whose words start with `INVALID_BODY`.
pub fn decompress_body(body: &[u8]) -> (r: Result<Vec<u8>, Failure>)
    ensures
        match r {
            Ok(bytes) => snappy_decoded(body@) == Some(bytes@),
            Err(error) => snappy_decoded(body@) is None && INVALID_BODY@.is_prefix_of(error.text()),
        },
        body@.len() == 0 ==> r is Err,
{
    match snappy_decompress(body) {
        Ok(bytes) => Ok(bytes),
        Err(cause) => {
            let mut message = String::from_str(INVALID_BODY);
            let words = snappy_error_text(&cause);
            message.append(words.as_str());
            Err(Failure::Message(message))
        },
    }
}

} // verus!
