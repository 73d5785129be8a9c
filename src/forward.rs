use vstd::prelude::*;

use crate::body_type::BodyType;
use crate::error::{classifies, is_timeout_failure, IoKind, TcpIpError};
use crate::header_item::{
    body_type_of, hop_names, lemma_body_type_cases, lemma_without_names, lemma_without_names_empty,
    listed, with_field, without_names,
};
use crate::header_map::{has_name, inserted, lemma_value_of_inserted, names_unique, value_of, Field};
use crate::request::Request;
use crate::response::Response;
use crate::text::{dec_chars, decimal_string, folded, same_name};
use vstd::string::*;
use vstd::utf8::*;

verus! {

/// The fields of a forwarded response: the hop-by-hop ones removed, and,
/// when there is a body, `Content-Length` set to its length.
pub open spec fn relayed_fields(fields: Seq<Field>, body: Option<Vec<u8>>) -> Seq<Field> {
    let stripped = without_names(fields, hop_names());
    match body {
        Some(b) => inserted(stripped, "Content-Length"@, dec_chars(b@.len())),
        None => stripped,
    }
}

/// Readies a client's request for the remote server: drops the hop-by-hop fields.
pub fn prepare_request(request: &mut Request)
    requires
        old(request).header.wf(),
    ensures
        final(request).header.wf(),
        final(request).body == old(request).body,
        final(request).header.method == old(request).header.method,
        final(request).header.uri == old(request).header.uri,
        final(request).header.version == old(request).header.version,
        final(request).header.headers.is_some() == old(request).header.headers.is_some(),
        final(request).header.fields() == without_names(old(request).header.fields(), hop_names()),
{
    proof {
        lemma_without_names_empty(hop_names());
    }
    request.header.strip_hop_by_hop();
}

/// Readies the remote server's response for the client: drops the hop-by-hop
/// fields and, when there is a body, sets `Content-Length` to its length.
pub fn prepare_response(response: &mut Response)
    requires
        old(response).header.wf(),
    ensures
        final(response).header.wf(),
        final(response).body == old(response).body,
        final(response).header.version == old(response).header.version,
        final(response).header.status_code == old(response).header.status_code,
        final(response).header.reason_phrase == old(response).header.reason_phrase,
        final(response).header.fields() == relayed_fields(old(response).header.fields(), old(response).body),
{
    proof {
        lemma_without_names_empty(hop_names());
    }
    response.header.strip_hop_by_hop();
    match &response.body {
        Some(b) => {
            let len = decimal_string(b.len() as u64);
            let headers = response.header.headers.take();
            response.header.headers = with_field(headers, "Content-Length", len.as_str());
        },
        None => {},
    }
}

/// What the connection loop does after trying to read a request.
#[derive(Debug, Clone, Copy, PartialEq, Eq, Structural)]
pub enum LoopAction {
    /// A request came: forward it and read the next one.
    Forward,
    /// The client went idle: close the connection quietly.
    Close,
    /// Reading failed: log the error and close the connection.
    LogAndClose,
}

/// The action for a failed read: a TCP timeout closes quietly, anything else is logged.
pub open spec fn action_on_failure(e: TcpIpError) -> LoopAction {
    if e == TcpIpError::TcpTimeout {
        LoopAction::Close
    } else {
        LoopAction::LogAndClose
    }
}

/// Decides what the connection loop does with the outcome of a read.
pub fn after_read(outcome: &Result<Request, TcpIpError>) -> (r: LoopAction)
    ensures
        outcome.is_ok() ==> r == LoopAction::Forward,
        *outcome matches Err(e) ==> r == action_on_failure(e),
{
    match outcome {
        Ok(_) => LoopAction::Forward,
        Err(e) => {
            if e.is_tcp_timeout() {
                LoopAction::Close
            } else {
                LoopAction::LogAndClose
            }
        },
    }
}

/// A socket failure ends the connection quietly exactly when it is a timeout
/// or an aborted connection; in particular a socket operation that timed out
/// is never logged.
pub proof fn lemma_timeout_closes_quietly(kind: IoKind, message: Seq<char>, e: TcpIpError)
    requires
        classifies(kind, message, e),
    ensures
        (action_on_failure(e) == LoopAction::Close) == is_timeout_failure(kind, message),
        kind == IoKind::TimedOut || kind == IoKind::WouldBlock ==> e == TcpIpError::TcpTimeout
            && action_on_failure(e) == LoopAction::Close,
{
}

/// The names `Content-Length` and `Transfer-Encoding` differ in any letter case.
proof fn lemma_length_is_not_encoding(k: Seq<char>)
    requires
        same_name(k, "transfer-encoding"@),
    ensures
        !same_name("Content-Length"@, k),
{
    reveal_strlit("Content-Length");
    reveal_strlit("transfer-encoding");
    is_ascii_chars_encode_utf8("Content-Length"@);
    is_ascii_chars_encode_utf8("transfer-encoding"@);
    assert(folded("Content-Length"@).len() != folded("transfer-encoding"@).len());
}

/// A relayed response with a body keeps no `Transfer-Encoding` field, in any
/// letter case, and its `Content-Length` holds the length of the body, which
/// then frames it.
pub proof fn lemma_relayed_response(fields: Seq<Field>, body: Vec<u8>, k: Seq<char>)
    requires
        names_unique(fields),
        body@.len() <= usize::MAX,
        same_name(k, "transfer-encoding"@),
    ensures
        !has_name(relayed_fields(fields, Some(body)), k),
        value_of(relayed_fields(fields, Some(body)), "Content-Length"@) == Some(dec_chars(body@.len())),
        body_type_of(relayed_fields(fields, Some(body))) == Some(BodyType::Fixed(body@.len() as usize)),
{
    let stripped = without_names(fields, hop_names());
    let d = dec_chars(body@.len());
    let r = inserted(stripped, "Content-Length"@, d);
    lemma_without_names(fields, hop_names());
    assert(same_name(k, hop_names()[9]));
    assert(listed(k, hop_names()));
    assert(!has_name(stripped, k));
    lemma_value_of_inserted(stripped, "Content-Length"@, d);
    lemma_length_is_not_encoding(k);
    if has_name(r, k) {
        let i = choose|i: int| 0 <= i < r.len() && same_name(#[trigger] r[i].0, k);
        if has_name(stripped, "Content-Length"@) {
            assert(r[i].0 == stripped[i].0);
        } else if i < stripped.len() {
            assert(r[i] == stripped[i]);
        } else {
            assert(r[i].0 == "Content-Length"@);
        }
    }
    lemma_body_type_cases(r, body@.len() as usize);
}

} // verus!
