use vstd::prelude::*;
use vstd::string::*;
use vstd::utf8::*;

use crate::body_type::{body_scan, reports, BodyType};
use crate::error::TcpIpError;
use crate::text::utf8_string;
use crate::util::{find_from, first_occurrence, lemma_first_from_props};

verus! {

/// The blank line that ends a header block.
pub open spec fn head_end() -> Seq<u8> {
    seq![13u8, 10u8, 13u8, 10u8]
}

/// Finds where the header block in the buffered bytes ends; a buffer without
/// the blank line that ends it is a data timeout. Only what is already
/// buffered is searched: a header split over two reads is reported as a data
/// timeout rather than awaited.
pub fn find_head_end(buf: &[u8]) -> (r: Result<usize, TcpIpError>)
    ensures
        match first_occurrence(buf@, head_end()) {
            None => r == Err::<usize, TcpIpError>(TcpIpError::DataTimeout),
            Some(e) => (r matches Ok(k) && k == e && e + 4 <= buf@.len()),
        },
        r matches Ok(k) ==> k + 4 <= buf@.len(),
{
    let end: [u8; 4] = [13u8, 10u8, 13u8, 10u8];
    let end_slice: &[u8] = &end;
    assert(end_slice@ =~= head_end());
    proof {
        lemma_first_from_props(buf@, head_end(), 0);
    }
    if buf.len() < 4 {
        return Err(TcpIpError::DataTimeout);
    }
    match find_from(buf, end_slice, 0) {
        Some(e) => Ok(e),
        None => Err(TcpIpError::DataTimeout),
    }
}

/// Reads the body framed as `t` that starts at `start` in the buffer.
pub fn read_body_at(buf: &[u8], start: usize, t: BodyType) -> (r: Result<Option<(Vec<u8>, usize)>, TcpIpError>)
    requires
        start <= buf@.len(),
    ensures
        reports(body_scan(t, buf@.subrange(start as int, buf@.len() as int)), r),
        r matches Ok(Some((_, k))) ==> start + k <= buf@.len(),
{
    let rest = vstd::slice::slice_subrange(buf, start, buf.len());
    t.read_body(rest)
}

/// A rule of sixty dashes.
pub open spec fn rule() -> Seq<char> {
    Seq::new(60, |i: int| '-')
}

/// How a body is shown in the log: its text when it is valid UTF-8, else a
/// placeholder, then a blank line; nothing when there is no body.
pub open spec fn shown_body(body: Option<Vec<u8>>) -> Seq<char> {
    match body {
        Some(b) => (if valid_utf8(b@) {
            decode_utf8(b@)
        } else {
            "Binary data"@
        }) + "\n\n"@,
        None => Seq::empty(),
    }
}

/// The log entry of a message: a banner with its kind and the proxy's label,
/// then the header text and the body.
pub open spec fn log_entry(item: Seq<char>, label: Seq<char>, head: Seq<u8>, body: Option<Vec<u8>>) -> Seq<char> {
    rule() + "\n"@ + item + " ["@ + label + "]\n"@ + rule() + "\n\n"@ + if valid_utf8(head) {
        decode_utf8(head) + shown_body(body)
    } else {
        "Failed to display "@ + item
    }
}

fn push_rule(out: &mut String)
    ensures
        final(out)@ == old(out)@ + rule(),
{
    let mut i: usize = 0;
    while i < 60
        invariant
            i <= 60,
            out@ == old(out)@ + Seq::new(i as nat, |k: int| '-'),
        decreases 60 - i,
    {
        proof {
            reveal_strlit("-");
        }
        out.append("-");
        i = i + 1;
        assert(out@ =~= old(out)@ + Seq::new(i as nat, |k: int| '-'));
    }
    assert(Seq::new(60, |k: int| '-') =~= rule());
}

/// Renders the log entry of a message whose header is `head`.
pub fn render_log_entry(item: &str, label: &str, head: &[u8], body: &Option<Vec<u8>>) -> (r: String)
    ensures
        r@ == log_entry(item@, label@, head@, *body),
{
    let mut out = String::new();
    push_rule(&mut out);
    out.append("\n");
    out.append(item);
    out.append(" [");
    out.append(label);
    out.append("]\n");
    push_rule(&mut out);
    out.append("\n\n");
    match utf8_string(head) {
        Some(text) => {
            out.append(text.as_str());
            match body {
                Some(b) => {
                    match utf8_string(b.as_slice()) {
                        Some(t) => out.append(t.as_str()),
                        None => out.append("Binary data"),
                    }
                    out.append("\n\n");
                },
                None => {},
            }
        },
        None => {
            out.append("Failed to display ");
            out.append(item);
        },
    }
    assert(out@ =~= log_entry(item@, label@, head@, *body));
    out
}

} // verus!
