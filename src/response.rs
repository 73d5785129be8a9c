use vstd::prelude::*;
use vstd::string::*;
use vstd::utf8::*;

use crate::body_type::{body_scan, crlf, BodyScan, BodyType};
use crate::error::TcpIpError;
use crate::http_item::{find_head_end, head_end, log_entry, read_body_at, render_log_entry};
use crate::header_item::{
    body_type_of, body_type_of_headers, fields_bytes, fields_of, head_lines, hop_names, http_prefix,
    is_head_block, lemma_head_block, opt_wf, parse_version, push_bytes, sp, split_lines,
    strip_hop_by_hop_headers, version_of, with_field, without_names, write_headers,
};
use crate::header_map::{fields_of_lines, has_name, inserted, Field, HeaderMap};
use crate::request::body_bytes;
use crate::text::{dec_chars, dec_in_range, dec_value, decimal_string, parse_decimal, utf8_string};
use crate::util::{
    copy_range, find_from, first_occurrence, lemma_first_from_props, lemma_first_from_shift,
    lines_view,
};

verus! {

/// The standard reason phrase of a status code.
pub open spec fn standard_reason(code: u16) -> Option<Seq<char>> {
    match code {
        100 => Some("Continue"@),
        101 => Some("Switching Protocols"@),
        102 => Some("Processing"@),
        103 => Some("Early Hints"@),
        200 => Some("OK"@),
        201 => Some("Created"@),
        202 => Some("Accepted"@),
        203 => Some("Non-Authoritative Information"@),
        204 => Some("No Content"@),
        205 => Some("Reset Content"@),
        206 => Some("Partial Content"@),
        207 => Some("Multi-Status"@),
        208 => Some("Already Reported"@),
        226 => Some("IM Used"@),
        300 => Some("Multiple Choices"@),
        301 => Some("Moved Permanently"@),
        302 => Some("Found"@),
        303 => Some("See Other"@),
        304 => Some("Not Modified"@),
        305 => Some("Use Proxy"@),
        307 => Some("Temporary Redirect"@),
        308 => Some("Permanent Redirect"@),
        400 => Some("Bad Request"@),
        401 => Some("Unauthorized"@),
        402 => Some("Payment Required"@),
        403 => Some("Forbidden"@),
        404 => Some("Not Found"@),
        405 => Some("Method Not Allowed"@),
        406 => Some("Not Acceptable"@),
        407 => Some("Proxy Authentication Required"@),
        408 => Some("Request Timeout"@),
        409 => Some("Conflict"@),
        410 => Some("Gone"@),
        411 => Some("Length Required"@),
        412 => Some("Precondition Failed"@),
        413 => Some("Payload Too Large"@),
        414 => Some("URI Too Long"@),
        415 => Some("Unsupported Media Type"@),
        416 => Some("Range Not Satisfiable"@),
        417 => Some("Expectation Failed"@),
        418 => Some("I'm a teapot"@),
        421 => Some("Misdirected Request"@),
        422 => Some("Unprocessable Entity"@),
        423 => Some("Locked"@),
        424 => Some("Failed Dependency"@),
        425 => Some("Too Early"@),
        426 => Some("Upgrade Required"@),
        428 => Some("Precondition Required"@),
        429 => Some("Too Many Requests"@),
        431 => Some("Request Header Fields Too Large"@),
        451 => Some("Unavailable For Legal Reasons"@),
        500 => Some("Internal Server Error"@),
        501 => Some("Not Implemented"@),
        502 => Some("Bad Gateway"@),
        503 => Some("Service Unavailable"@),
        504 => Some("Gateway Timeout"@),
        505 => Some("HTTP Version Not Supported"@),
        506 => Some("Variant Also Negotiates"@),
        507 => Some("Insufficient Storage"@),
        508 => Some("Loop Detected"@),
        510 => Some("Not Extended"@),
        511 => Some("Network Authentication Required"@),
        _ => None,
    }
}

/// The standard reason phrase of a status code, if it has one.
pub fn reason_for(code: u16) -> (r: Option<&'static str>)
    ensures
        match (r, standard_reason(code)) {
            (Some(s), Some(t)) => s@ == t,
            (None, None) => true,
            _ => false,
        },
{
    match code {
        100 => Some("Continue"),
        101 => Some("Switching Protocols"),
        102 => Some("Processing"),
        103 => Some("Early Hints"),
        200 => Some("OK"),
        201 => Some("Created"),
        202 => Some("Accepted"),
        203 => Some("Non-Authoritative Information"),
        204 => Some("No Content"),
        205 => Some("Reset Content"),
        206 => Some("Partial Content"),
        207 => Some("Multi-Status"),
        208 => Some("Already Reported"),
        226 => Some("IM Used"),
        300 => Some("Multiple Choices"),
        301 => Some("Moved Permanently"),
        302 => Some("Found"),
        303 => Some("See Other"),
        304 => Some("Not Modified"),
        305 => Some("Use Proxy"),
        307 => Some("Temporary Redirect"),
        308 => Some("Permanent Redirect"),
        400 => Some("Bad Request"),
        401 => Some("Unauthorized"),
        402 => Some("Payment Required"),
        403 => Some("Forbidden"),
        404 => Some("Not Found"),
        405 => Some("Method Not Allowed"),
        406 => Some("Not Acceptable"),
        407 => Some("Proxy Authentication Required"),
        408 => Some("Request Timeout"),
        409 => Some("Conflict"),
        410 => Some("Gone"),
        411 => Some("Length Required"),
        412 => Some("Precondition Failed"),
        413 => Some("Payload Too Large"),
        414 => Some("URI Too Long"),
        415 => Some("Unsupported Media Type"),
        416 => Some("Range Not Satisfiable"),
        417 => Some("Expectation Failed"),
        418 => Some("I'm a teapot"),
        421 => Some("Misdirected Request"),
        422 => Some("Unprocessable Entity"),
        423 => Some("Locked"),
        424 => Some("Failed Dependency"),
        425 => Some("Too Early"),
        426 => Some("Upgrade Required"),
        428 => Some("Precondition Required"),
        429 => Some("Too Many Requests"),
        431 => Some("Request Header Fields Too Large"),
        451 => Some("Unavailable For Legal Reasons"),
        500 => Some("Internal Server Error"),
        501 => Some("Not Implemented"),
        502 => Some("Bad Gateway"),
        503 => Some("Service Unavailable"),
        504 => Some("Gateway Timeout"),
        505 => Some("HTTP Version Not Supported"),
        506 => Some("Variant Also Negotiates"),
        507 => Some("Insufficient Storage"),
        508 => Some("Loop Detected"),
        510 => Some("Not Extended"),
        511 => Some("Network Authentication Required"),
        _ => None,
    }
}

/// A status line: `HTTP/` and the version, space, the status code, space,
/// and the reason phrase, which runs to the end of the line.
pub open spec fn status_line(l: Seq<u8>) -> Option<(Seq<char>, u16, Seq<char>)> {
    match first_occurrence(l, sp()) {
        Some(a) if 0 <= a < l.len() => {
            let rest = l.subrange(a + 1, l.len() as int);
            match first_occurrence(rest, sp()) {
                Some(b) if 0 <= b < rest.len() => {
                    let code = rest.subrange(0, b);
                    let reason = rest.subrange(b + 1, rest.len() as int);
                    match version_of(l.subrange(0, a)) {
                        Some(v) => if valid_utf8(code) && dec_in_range(decode_utf8(code), u16::MAX as int)
                            && reason.len() > 0 && valid_utf8(reason) {
                            Some((v, dec_value(decode_utf8(code)) as u16, decode_utf8(reason)))
                        } else {
                            None
                        },
                        None => None,
                    }
                },
                _ => None,
            }
        },
        _ => None,
    }
}

/// What a response header block says: its status line and its fields.
pub open spec fn parse_response_head(b: Seq<u8>) -> Option<(Seq<char>, u16, Seq<char>, Seq<Field>)> {
    if !valid_utf8(b) {
        None
    } else {
        let ls = split_lines(b);
        match status_line(ls[0]) {
            Some((v, c, p)) => Some((v, c, p, fields_of_lines(ls.drop_first()))),
            None => None,
        }
    }
}

/// The bytes of a response header block.
pub open spec fn response_head_bytes(version: Seq<char>, code: u16, reason: Seq<char>, fields: Seq<Field>) -> Seq<u8> {
    http_prefix() + encode_utf8(version) + sp() + encode_utf8(dec_chars(code as nat)) + sp()
        + encode_utf8(reason) + crlf() + fields_bytes(fields) + crlf()
}

/// The status line and the fields of a response.
#[derive(Debug, Clone)]
pub struct ResponseHeader {
    /// The protocol version as written after `HTTP/`, such as `1.1`.
    pub version: String,
    pub status_code: u16,
    pub reason_phrase: String,
    pub headers: Option<HeaderMap>,
}

impl ResponseHeader {
    pub open spec fn wf(&self) -> bool {
        opt_wf(self.headers)
    }

    pub open spec fn fields(&self) -> Seq<Field> {
        fields_of(self.headers)
    }

    /// The bytes this header is written as.
    pub open spec fn spec_bytes(&self) -> Seq<u8> {
        response_head_bytes(self.version@, self.status_code, self.reason_phrase@, self.fields())
    }

    pub fn new(version: &str, status_code: u16, reason_phrase: &str, headers: Option<HeaderMap>) -> (r: Self)
        ensures
            r.version@ == version@,
            r.status_code == status_code,
            r.reason_phrase@ == reason_phrase@,
            r.headers == headers,
    {
        ResponseHeader {
            version: version.to_owned(),
            status_code,
            reason_phrase: reason_phrase.to_owned(),
            headers,
        }
    }

    /// Parses a response header block: the status line, then one field per
    /// line; lines without `": "` are skipped.
    pub fn from_bytes(bytes: &[u8]) -> (r: Result<Self, TcpIpError>)
        ensures
            match parse_response_head(bytes@) {
                None => r is Err,
                Some((v, c, p, fs)) => (r matches Ok(h) && h.version@ == v && h.status_code == c
                    && h.reason_phrase@ == p && h.wf() && h.fields() == fs
                    && h.headers.is_some() == (fs.len() > 0)),
            },
    {
        if utf8_string(bytes).is_none() {
            return Err(TcpIpError::new("Header is not valid UTF-8"));
        }
        let mut lines = head_lines(bytes);
        let ghost ls = split_lines(bytes@);
        proof {
            crate::header_item::lemma_join_split(bytes@);
        }
        let first = lines.remove(0);
        assert(first@ == ls[0]);
        assert(lines_view(lines@) =~= ls.drop_first());
        let (version, status_code, reason_phrase) = match parse_status_line(first.as_slice()) {
            Some(t) => t,
            None => {
                return Err(TcpIpError::new("Failed to read HTTP Response Status line"));
            },
        };
        let headers = HeaderMap::from_header_lines(&lines);
        Ok(ResponseHeader { version, status_code, reason_phrase, headers })
    }

    /// Writes the status line, each field, and the blank line that ends the block.
    pub fn to_bytes(&self) -> (r: Vec<u8>)
        ensures
            r@ == self.spec_bytes(),
    {
        let mut out: Vec<u8> = Vec::new();
        push_bytes(&mut out, &[72u8, 84u8, 84u8, 80u8, 47u8]);
        push_bytes(&mut out, self.version.as_str().as_bytes());
        push_bytes(&mut out, &[32u8]);
        let code = decimal_string(self.status_code as u64);
        push_bytes(&mut out, code.as_str().as_bytes());
        push_bytes(&mut out, &[32u8]);
        push_bytes(&mut out, self.reason_phrase.as_str().as_bytes());
        push_bytes(&mut out, &[13u8, 10u8]);
        write_headers(&self.headers, &mut out);
        push_bytes(&mut out, &[13u8, 10u8]);
        assert(out@ =~= self.spec_bytes());
        out
    }

    /// How the response's body is framed, if it has one.
    pub fn body_type(&self) -> (r: Option<BodyType>)
        requires
            self.wf(),
        ensures
            self.headers.is_none() ==> r is None,
            self.headers.is_some() ==> r == body_type_of(self.fields()),
    {
        body_type_of_headers(&self.headers)
    }

    /// Removes the fields that concern one link only.
    pub fn strip_hop_by_hop(&mut self)
        requires
            old(self).wf(),
        ensures
            final(self).wf(),
            final(self).version == old(self).version,
            final(self).status_code == old(self).status_code,
            final(self).reason_phrase == old(self).reason_phrase,
            final(self).headers.is_some() == old(self).headers.is_some(),
            final(self).fields() == if old(self).headers.is_some() {
                without_names(old(self).fields(), hop_names())
            } else {
                Seq::empty()
            },
    {
        strip_hop_by_hop_headers(&mut self.headers);
    }
}

/// Parses a status line.
fn parse_status_line(l: &[u8]) -> (r: Option<(String, u16, String)>)
    ensures
        match (r, status_line(l@)) {
            (Some((v, c, p)), Some((v2, c2, p2))) => v@ == v2 && c == c2 && p@ == p2,
            (None, None) => true,
            _ => false,
        },
{
    let space: [u8; 1] = [32u8];
    let space_slice: &[u8] = &space;
    assert(space_slice@ =~= sp());
    let len = l.len();
    proof {
        lemma_first_from_props(l@, sp(), 0);
    }
    if len == 0 {
        return None;
    }
    let a = match find_from(l, space_slice, 0) {
        Some(a) => a,
        None => {
            return None;
        },
    };
    let ghost rest = l@.subrange(a + 1, len as int);
    proof {
        lemma_first_from_shift(l@, sp(), a + 1, 0);
        lemma_first_from_props(rest, sp(), 0);
    }
    if a + 1 >= len {
        return None;
    }
    let b = match find_from(l, space_slice, a + 1) {
        Some(b) => b,
        None => {
            return None;
        },
    };
    let ghost bb = b - (a + 1);
    let version = match parse_version(l, 0, a) {
        Some(v) => v,
        None => {
            return None;
        },
    };
    let code_bytes = copy_range(l, a + 1, b);
    assert(code_bytes@ =~= rest.subrange(0, bb));
    let code_text = match utf8_string(code_bytes.as_slice()) {
        Some(t) => t,
        None => {
            return None;
        },
    };
    let code = match parse_decimal(code_text.as_str()) {
        Some(c) => c,
        None => {
            return None;
        },
    };
    if code > 65535 {
        return None;
    }
    let reason_bytes = copy_range(l, b + 1, len);
    assert(reason_bytes@ =~= rest.subrange(bb + 1, rest.len() as int));
    if reason_bytes.len() == 0 {
        return None;
    }
    match utf8_string(reason_bytes.as_slice()) {
        Some(reason) => Some((version, code as u16, reason)),
        None => None,
    }
}

/// A response: its header and the body, if it has one.
#[derive(Debug, Clone)]
pub struct Response {
    pub header: ResponseHeader,
    pub body: Option<Vec<u8>>,
}

impl Response {
    pub fn new(header: ResponseHeader, body: Option<Vec<u8>>) -> (r: Self)
        ensures
            r.header == header,
            r.body == body,
    {
        Response { header, body }
    }

    /// The header bytes, then the body bytes.
    pub fn to_bytes(&self) -> (r: Vec<u8>)
        ensures
            r@ == self.header.spec_bytes() + body_bytes(self.body),
    {
        let mut out = self.header.to_bytes();
        match &self.body {
            Some(b) => push_bytes(&mut out, b.as_slice()),
            None => {},
        }
        assert(out@ =~= self.header.spec_bytes() + body_bytes(self.body));
        out
    }
}

impl ResponseHeader {
    /// This header is what the header block `b` says.
    pub open spec fn parsed_from(&self, b: Seq<u8>) -> bool {
        match parse_response_head(b) {
            Some(p) => {
                let h = self;
                h.version@ == p.0 && h.status_code == p.1 && h.reason_phrase@ == p.2 && h.wf() && h.fields() == p.3 && h.headers.is_some() == (p.3.len() > 0)
            },
            None => false,
        }
    }
}

/// What reading a response from the buffered bytes `buf` gives: a data timeout
/// without a complete header block, an error for a header that does not parse
/// or a malformed chunk size, `Ok(None)` when the body is not all there yet,
/// else the response and the number of bytes it took.
pub open spec fn response_read(buf: Seq<u8>, r: Result<Option<(Response, usize)>, TcpIpError>) -> bool {
    match first_occurrence(buf, head_end()) {
        None => r == Err::<Option<(Response, usize)>, TcpIpError>(TcpIpError::DataTimeout),
        Some(e) => {
            let head = buf.subrange(0, e);
            let rest = buf.subrange(e + 4, buf.len() as int);
            match parse_response_head(head) {
                None => r matches Err(TcpIpError::Other(_)),
                Some(p) => match body_type_of(p.3) {
                    None => r matches Ok(Some((q, n))) && q.header.parsed_from(head) && q.body is None
                        && n == e + 4,
                    Some(t) => match body_scan(t, rest) {
                        BodyScan::Malformed => r matches Err(TcpIpError::Other(_)),
                        BodyScan::Partial => r matches Ok(None),
                        BodyScan::Complete(b, k) => r matches Ok(Some((q, n))) && q.header.parsed_from(head)
                            && n == e + 4 + k && (q.body matches Some(v) && v@ == b),
                    },
                },
            }
        },
    }
}

impl Response {
    /// Reads a whole response, header and body, from the start of the buffered bytes.
    pub fn from_buffer(buf: &[u8]) -> (r: Result<Option<(Response, usize)>, TcpIpError>)
        ensures
            response_read(buf@, r),
    {
        let e = match find_head_end(buf) {
            Ok(e) => e,
            Err(err) => {
                return Err(err);
            },
        };
        let total = buf.len();
        assert(e + 4 <= total);
        let head = vstd::slice::slice_subrange(buf, 0, e);
        let header = match ResponseHeader::from_bytes(head) {
            Ok(h) => h,
            Err(_) => {
                return Err(TcpIpError::new("Failed to parse response header"));
            },
        };
        proof {
            if header.headers.is_none() {
                assert(!has_name(Seq::<Field>::empty(), "Content-Length"@));
                assert(!has_name(Seq::<Field>::empty(), "Transfer-Encoding"@));
            }
        }
        match header.body_type() {
            None => Ok(Some((Response { header, body: None }, e + 4))),
            Some(t) => match read_body_at(buf, e + 4, t) {
                Ok(Some((body, k))) => Ok(Some((Response { header, body: Some(body) }, e + 4 + k))),
                Ok(None) => Ok(None),
                Err(_) => Err(TcpIpError::new("Invalid chunk size")),
            },
        }
    }
}

/// Builds a response field by field.
#[derive(Debug, Clone)]
pub struct ResponseBuilder {
    pub version: String,
    pub status_code: Option<u16>,
    pub reason_phrase: Option<String>,
    pub headers: Option<HeaderMap>,
    pub body: Option<Vec<u8>>,
}

/// The reason phrase a built response carries: the one given, else the
/// standard one of its status code.
pub open spec fn chosen_reason(given: Option<String>, code: u16) -> Option<Seq<char>> {
    match given {
        Some(p) => Some(p@),
        None => standard_reason(code),
    }
}

impl ResponseBuilder {
    pub open spec fn wf(&self) -> bool {
        opt_wf(self.headers)
    }

    /// An empty builder for version `1.1`.
    pub fn new() -> (r: Self)
        ensures
            r.version@ == "1.1"@,
            r.status_code is None,
            r.reason_phrase is None,
            r.headers is None,
            r.body is None,
    {
        ResponseBuilder {
            version: "1.1".to_owned(),
            status_code: None,
            reason_phrase: None,
            headers: None,
            body: None,
        }
    }

    pub fn version(self, version: &str) -> (r: Self)
        ensures
            r.version@ == version@,
            r.status_code == self.status_code && r.reason_phrase == self.reason_phrase
                && r.headers == self.headers && r.body == self.body,
    {
        ResponseBuilder { version: version.to_owned(), ..self }
    }

    pub fn status_code(self, status_code: u16) -> (r: Self)
        ensures
            r == (ResponseBuilder { status_code: Some(status_code), ..self }),
    {
        ResponseBuilder { status_code: Some(status_code), ..self }
    }

    pub fn reason_phrase(self, reason_phrase: &str) -> (r: Self)
        ensures
            r.reason_phrase matches Some(p) && p@ == reason_phrase@,
            r.version == self.version && r.status_code == self.status_code && r.headers
                == self.headers && r.body == self.body,
    {
        ResponseBuilder { reason_phrase: Some(reason_phrase.to_owned()), ..self }
    }

    /// Sets the field `key: value`.
    pub fn header(self, key: &str, value: &str) -> (r: Self)
        requires
            self.wf(),
        ensures
            r.wf(),
            r.headers matches Some(m) && m@ == inserted(fields_of(self.headers), key@, value@),
            r.version == self.version && r.status_code == self.status_code && r.reason_phrase
                == self.reason_phrase && r.body == self.body,
    {
        let headers = with_field(self.headers, key, value);
        ResponseBuilder { headers, ..self }
    }

    /// Sets the body, and `Content-Length` to its length.
    pub fn body(self, body: Vec<u8>) -> (r: Self)
        requires
            self.wf(),
        ensures
            r.wf(),
            r.body == Some(body),
            r.headers matches Some(m) && m@ == inserted(
                fields_of(self.headers),
                "Content-Length"@,
                dec_chars(body@.len()),
            ),
            r.version == self.version && r.status_code == self.status_code && r.reason_phrase
                == self.reason_phrase,
    {
        let len = decimal_string(body.len() as u64);
        let with_length = self.header("Content-Length", len.as_str());
        ResponseBuilder { body: Some(body), ..with_length }
    }

    /// The response; fails without a status code, or without a reason phrase
    /// when the status code has no standard one.
    pub fn build(self) -> (r: Result<Response, TcpIpError>)
        ensures
            r is Ok == (self.status_code matches Some(c) && chosen_reason(self.reason_phrase, c) is Some),
            r matches Ok(q) ==> (self.status_code == Some(q.header.status_code)
                && chosen_reason(self.reason_phrase, q.header.status_code) == Some(q.header.reason_phrase@)
                && q.header.version == self.version && q.header.headers == self.headers
                && q.body == self.body),
    {
        let status_code = match self.status_code {
            Some(c) => c,
            None => {
                return Err(TcpIpError::new("Missing status_code"));
            },
        };
        let reason_phrase = match self.reason_phrase {
            Some(p) => p,
            None => match reason_for(status_code) {
                Some(p) => p.to_owned(),
                None => {
                    return Err(TcpIpError::new("Unknown status code"));
                },
            },
        };
        let header = ResponseHeader { version: self.version, status_code, reason_phrase, headers: self.headers };
        Ok(Response { header, body: self.body })
    }
}

/// The status code of a status line is written in its shortest form, with
/// no leading zeros.
pub open spec fn plain_status_code(l: Seq<u8>) -> bool {
    let a = first_occurrence(l, sp())->0;
    let rest = l.subrange(a + 1, l.len() as int);
    let code = rest.subrange(0, first_occurrence(rest, sp())->0);
    encode_utf8(dec_chars(dec_value(decode_utf8(code)) as nat)) == code
}

/// A status line is written back as the bytes it was read from.
proof fn lemma_status_line_bytes(l: Seq<u8>)
    requires
        status_line(l) is Some,
        plain_status_code(l),
    ensures
        ({
            let (v, c, p) = status_line(l)->0;
            http_prefix() + encode_utf8(v) + sp() + encode_utf8(dec_chars(c as nat)) + sp()
                + encode_utf8(p) == l
        }),
{
    lemma_first_from_props(l, sp(), 0);
    let a = first_occurrence(l, sp())->0;
    let rest = l.subrange(a + 1, l.len() as int);
    lemma_first_from_props(rest, sp(), 0);
    let b = first_occurrence(rest, sp())->0;
    let t = l.subrange(0, a);
    let code = rest.subrange(0, b);
    let reason = rest.subrange(b + 1, rest.len() as int);
    let vb = t.subrange(5, t.len() as int);
    decode_utf8_encode_utf8(vb);
    decode_utf8_encode_utf8(reason);
    assert(l.subrange(a, a + 1) == sp());
    assert(rest.subrange(b, b + 1) == sp());
    assert(l =~= t + sp() + rest);
    assert(rest =~= code + sp() + reason);
    assert(t =~= http_prefix() + vb);
    let (v, c, p) = status_line(l)->0;
    crate::text::lemma_dec_value_nonneg(decode_utf8(code));
    assert(c as nat == dec_value(decode_utf8(code)) as nat);
    assert(http_prefix() + encode_utf8(v) + sp() + encode_utf8(dec_chars(c as nat)) + sp()
        + encode_utf8(p) =~= l);
}

/// A well-formed response header block, parsed and written again, gives back
/// the same bytes.
pub proof fn lemma_response_round_trip(b: Seq<u8>)
    requires
        is_head_block(b),
        status_line(split_lines(b)[0]) is Some,
        plain_status_code(split_lines(b)[0]),
    ensures
        parse_response_head(b) matches Some((v, c, p, fs)) && response_head_bytes(v, c, p, fs) == b,
{
    let ls = split_lines(b);
    lemma_head_block(b);
    lemma_status_line_bytes(ls[0]);
    let (v, c, p, fs) = parse_response_head(b)->0;
    assert(response_head_bytes(v, c, p, fs) =~= b);
}

impl Response {
    /// The kind of message, as the log names it.
    pub fn item_name(&self) -> (r: &'static str)
        ensures
            r@ == "Response"@,
    {
        "Response"
    }

    /// The log entry of this response, under the proxy's label.
    pub fn pretty_text(&self, label: &str) -> (r: String)
        ensures
            r@ == log_entry("Response"@, label@, self.header.spec_bytes(), self.body),
    {
        let head = self.header.to_bytes();
        render_log_entry(self.item_name(), label, head.as_slice(), &self.body)
    }
}

impl ResponseHeader {
    /// The header block as text; fails when it is not valid UTF-8.
    pub fn as_string(&self) -> (r: Result<String, TcpIpError>)
        ensures
            r is Ok == valid_utf8(self.spec_bytes()),
            r matches Ok(s) ==> s@ == decode_utf8(self.spec_bytes()),
    {
        let bytes = self.to_bytes();
        match utf8_string(bytes.as_slice()) {
            Some(s) => Ok(s),
            None => Err(TcpIpError::new("Response header is not valid UTF-8")),
        }
    }
}

impl Response {
    /// The whole response as text; fails when it is not valid UTF-8.
    pub fn as_string(&self) -> (r: Result<String, TcpIpError>)
        ensures
            r is Ok == valid_utf8(self.header.spec_bytes() + body_bytes(self.body)),
            r matches Ok(s) ==> s@ == decode_utf8(self.header.spec_bytes() + body_bytes(self.body)),
    {
        let bytes = self.to_bytes();
        match utf8_string(bytes.as_slice()) {
            Some(s) => Ok(s),
            None => Err(TcpIpError::new("Response is not valid UTF-8")),
        }
    }
}

} // verus!
