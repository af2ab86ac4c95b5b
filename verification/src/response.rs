//! Translation of an upstream reply into the response the original caller
//! sees.
//!
//! A transport failure becomes a generic error with status 500; a body that
//! is not valid JSON becomes a fixed parse-error message with status 400;
//! a JSON body is relayed unchanged with status 200.  No upstream error
//! detail ever reaches the caller.

use vstd::prelude::*;

verus! {

#[verifier::external_type_specification]
#[verifier::external_body]
pub struct ExJsonValue(serde_json::Value);

#[verifier::external_type_specification]
#[verifier::external_body]
pub struct ExJsonError(serde_json::Error);

/// Whether the bytes form a valid JSON document.
pub uninterp spec fn json_parses(bytes: Seq<u8>) -> bool;

/// Relies on `serde_json::from_slice::<Value>`: whether a byte string
/// parses as JSON is a function of the bytes alone.
#[verifier::external_body]
fn parse_json(bytes: &Vec<u8>) -> (r: Result<serde_json::Value, serde_json::Error>)
    ensures
        r is Ok <==> json_parses(bytes@),
{
    serde_json::from_slice(bytes.as_slice())
}

/// What came back from the upstream service: a transport failure, or the
/// raw bytes of a response body.
pub enum UpstreamReply {
    Failed,
    Received(Vec<u8>),
}

/// The body of the response relayed to the original caller: the upstream
/// JSON payload, or the text of a generic error envelope.
pub enum RelayBody {
    Payload(serde_json::Value),
    ErrorMessage(String),
}

/// The response relayed to the original caller.
pub struct RelayResponse {
    pub status: u16,
    pub body: RelayBody,
}

/// The generic message for an upstream transport failure.
pub open spec fn transport_error_text() -> Seq<char> {
    "An error occurred while fetching news"@
}

/// The generic message for an upstream body that is not valid JSON.
pub open spec fn parse_error_text() -> Seq<char> {
    "Failed to parse news data"@
}

/// Turns a parse outcome into the caller's response: a parsed payload is
/// relayed exactly, with success status; a parse failure becomes the fixed
/// parse-error message with status 400.
pub fn relay_parsed(parsed: Result<serde_json::Value, serde_json::Error>) -> (r: RelayResponse)
    ensures
        parsed matches Ok(v) ==> r.status == 200 && r.body == RelayBody::Payload(v),
        parsed is Err ==> r.status == 400 && (r.body matches RelayBody::ErrorMessage(m)
            && m@ == parse_error_text()),
{
    match parsed {
        Ok(v) => RelayResponse { status: 200, body: RelayBody::Payload(v) },
        Err(_) => RelayResponse {
            status: 400,
            body: RelayBody::ErrorMessage("Failed to parse news data".to_owned()),
        },
    }
}

/// Translates an upstream reply into the caller's response.  A transport
/// failure yields the generic failure message with status 500; received
/// bytes are parsed as JSON and either relayed with status 200 or refused
/// with the parse-error message and status 400.
pub fn handle_response(reply: UpstreamReply) -> (r: RelayResponse)
    ensures
        reply is Failed ==> r.status == 500 && (r.body matches RelayBody::ErrorMessage(m)
            && m@ == transport_error_text()),
        (reply matches UpstreamReply::Received(b) && json_parses(b@)) ==> r.status == 200
            && r.body is Payload,
        (reply matches UpstreamReply::Received(b) && !json_parses(b@)) ==> r.status == 400
            && (r.body matches RelayBody::ErrorMessage(m) && m@ == parse_error_text()),
{
    match reply {
        UpstreamReply::Failed => RelayResponse {
            status: 500,
            body: RelayBody::ErrorMessage("An error occurred while fetching news".to_owned()),
        },
        UpstreamReply::Received(bytes) => relay_parsed(parse_json(&bytes)),
    }
}

} // verus!
