//! The ingestion edge's decisions: classifying a submitted body as text or
//! binary and building the event that is broadcast and persisted.

use vstd::prelude::*;
use vstd::utf8::{decode_utf8, valid_utf8};

use crate::msg::{trim_of, trimmed, GroupMsg};
use crate::strutil::{contains_sub, has_sub};

verus! {

/// Whether a declared content type announces a textual body: it mentions
/// `text` or `json`.
pub open spec fn textual_content(ctype: Seq<char>) -> bool {
    has_sub(ctype, "text"@) || has_sub(ctype, "json"@)
}

/// Decides whether a declared content type announces a textual body.
pub fn content_is_textual(ctype: &str) -> (r: bool)
    ensures
        r == textual_content(ctype@),
{
    contains_sub(ctype, "text") || contains_sub(ctype, "json")
}

/// Relies on std's `str::from_utf8`: decodes bytes as UTF-8 text, and
/// succeeds exactly on valid UTF-8.
#[verifier::external_body]
pub(crate) fn decoded_utf8(b: &Vec<u8>) -> (r: Option<String>)
    ensures
        r is Some <==> valid_utf8(b@),
        r matches Some(t) ==> t@ == decode_utf8(b@),
{
    match std::str::from_utf8(b.as_slice()) {
        Ok(t) => Some(t.to_owned()),
        Err(_) => None,
    }
}

/// Why a submission was rejected.
#[derive(Debug)]
pub enum IngestError {
    /// The declared content type was textual but the body is not valid
    /// UTF-8.
    BadEncoding,
}

/// Builds the event for one submitted body.  A textual content type gives
/// a text event holding the trimmed decoded body, and is rejected when the
/// body is not valid UTF-8; any other content type gives a binary event
/// holding the body unchanged.
pub fn ingest_message(group: String, ctype: &str, body: Vec<u8>) -> (r: Result<
    GroupMsg,
    IngestError,
>)
    ensures
        textual_content(ctype@) && valid_utf8(body@) ==> (r matches Ok(m) && m.group@ == group@
            && m.data@ == trim_of(decode_utf8(body@)) && m.bytes@.len() == 0),
        textual_content(ctype@) && !valid_utf8(body@) ==> (r matches Err(e)
            && e is BadEncoding),
        !textual_content(ctype@) ==> (r matches Ok(m) && m.group@ == group@ && m.data@.len()
            == 0 && m.bytes@ == body@),
{
    if content_is_textual(ctype) {
        match decoded_utf8(&body) {
            Some(t) => Ok(
                GroupMsg { group, data: trimmed(t.as_str()), bytes: Vec::new() },
            ),
            None => Err(IngestError::BadEncoding),
        }
    } else {
        Ok(GroupMsg { group, data: String::new(), bytes: body })
    }
}

} // verus!
