use vstd::prelude::*;
use vstd::string::*;
use vstd::utf8::*;

use crate::body_type::{body_scan, crlf, BodyScan, BodyType};
use crate::error::TcpIpError;
use crate::http_item::{find_head_end, head_end, log_entry, read_body_at, render_log_entry};
use crate::header_item::{
    body_type_of, body_type_of_headers, bytes_eq, fields_bytes, fields_of, head_lines, hop_names,
    http_prefix, is_head_block, lemma_head_block, opt_wf, parse_version, push_bytes, sp,
    split_lines, strip_hop_by_hop_headers, version_of, with_field, without_names, write_headers,
};
use crate::header_map::{fields_of_lines, has_name, inserted, Field, HeaderMap};
use crate::text::{dec_chars, decimal_string, utf8_string};
use crate::util::{
    copy_range, find_from, first_occurrence, lemma_first_from_props, lemma_first_from_shift,
    lines_view,
};

verus! {

/// The request methods that the proxy knows.
#[derive(Debug, Clone, Copy, PartialEq, Eq, Structural)]
pub enum RequestMethod {
    Get,
    Head,
    Post,
    Put,
    Delete,
    Trace,
    Options,
    Connect,
    Patch,
}

/// The name of a method as it stands in a request line.
pub open spec fn method_text(m: RequestMethod) -> Seq<char> {
    match m {
        RequestMethod::Get => "GET"@,
        RequestMethod::Head => "HEAD"@,
        RequestMethod::Post => "POST"@,
        RequestMethod::Put => "PUT"@,
        RequestMethod::Delete => "DELETE"@,
        RequestMethod::Trace => "TRACE"@,
        RequestMethod::Options => "OPTIONS"@,
        RequestMethod::Connect => "CONNECT"@,
        RequestMethod::Patch => "PATCH"@,
    }
}

/// The method whose name is spelled by `tok`.
pub open spec fn method_of(tok: Seq<u8>) -> Option<RequestMethod> {
    if tok == encode_utf8("GET"@) {
        Some(RequestMethod::Get)
    } else if tok == encode_utf8("HEAD"@) {
        Some(RequestMethod::Head)
    } else if tok == encode_utf8("POST"@) {
        Some(RequestMethod::Post)
    } else if tok == encode_utf8("PUT"@) {
        Some(RequestMethod::Put)
    } else if tok == encode_utf8("DELETE"@) {
        Some(RequestMethod::Delete)
    } else if tok == encode_utf8("TRACE"@) {
        Some(RequestMethod::Trace)
    } else if tok == encode_utf8("OPTIONS"@) {
        Some(RequestMethod::Options)
    } else if tok == encode_utf8("CONNECT"@) {
        Some(RequestMethod::Connect)
    } else if tok == encode_utf8("PATCH"@) {
        Some(RequestMethod::Patch)
    } else {
        None
    }
}

impl RequestMethod {
    /// The method's name.
    pub fn name(&self) -> (r: &'static str)
        ensures
            r@ == method_text(*self),
    {
        match self {
            RequestMethod::Get => "GET",
            RequestMethod::Head => "HEAD",
            RequestMethod::Post => "POST",
            RequestMethod::Put => "PUT",
            RequestMethod::Delete => "DELETE",
            RequestMethod::Trace => "TRACE",
            RequestMethod::Options => "OPTIONS",
            RequestMethod::Connect => "CONNECT",
            RequestMethod::Patch => "PATCH",
        }
    }

    /// The method named by `tok`, spelled in capitals.
    pub fn from_name(tok: &[u8]) -> (r: Option<Self>)
        ensures
            r == method_of(tok@),
    {
        if bytes_eq(tok, "GET".as_bytes()) {
            Some(RequestMethod::Get)
        } else if bytes_eq(tok, "HEAD".as_bytes()) {
            Some(RequestMethod::Head)
        } else if bytes_eq(tok, "POST".as_bytes()) {
            Some(RequestMethod::Post)
        } else if bytes_eq(tok, "PUT".as_bytes()) {
            Some(RequestMethod::Put)
        } else if bytes_eq(tok, "DELETE".as_bytes()) {
            Some(RequestMethod::Delete)
        } else if bytes_eq(tok, "TRACE".as_bytes()) {
            Some(RequestMethod::Trace)
        } else if bytes_eq(tok, "OPTIONS".as_bytes()) {
            Some(RequestMethod::Options)
        } else if bytes_eq(tok, "CONNECT".as_bytes()) {
            Some(RequestMethod::Connect)
        } else if bytes_eq(tok, "PATCH".as_bytes()) {
            Some(RequestMethod::Patch)
        } else {
            None
        }
    }
}

/// A request line: method, space, URI, space, `HTTP/` and the version.
pub open spec fn request_line(l: Seq<u8>) -> Option<(RequestMethod, Seq<char>, Seq<char>)> {
    match first_occurrence(l, sp()) {
        Some(a) if 0 <= a < l.len() => {
            let rest = l.subrange(a + 1, l.len() as int);
            match first_occurrence(rest, sp()) {
                Some(b) if 0 <= b < rest.len() => {
                    let uri = rest.subrange(0, b);
                    match (method_of(l.subrange(0, a)), version_of(rest.subrange(b + 1, rest.len() as int))) {
                        (Some(m), Some(v)) => if uri.len() > 0 && valid_utf8(uri) {
                            Some((m, decode_utf8(uri), v))
                        } else {
                            None
                        },
                        _ => None,
                    }
                },
                _ => None,
            }
        },
        _ => None,
    }
}

/// What a request header block says: its request line and its fields.
pub open spec fn parse_request_head(b: Seq<u8>) -> Option<(RequestMethod, Seq<char>, Seq<char>, Seq<Field>)> {
    if !valid_utf8(b) {
        None
    } else {
        let ls = split_lines(b);
        match request_line(ls[0]) {
            Some((m, u, v)) => Some((m, u, v, fields_of_lines(ls.drop_first()))),
            None => None,
        }
    }
}

/// The bytes of a request header block.
pub open spec fn request_head_bytes(m: RequestMethod, uri: Seq<char>, version: Seq<char>, fields: Seq<Field>) -> Seq<u8> {
    encode_utf8(method_text(m)) + sp() + encode_utf8(uri) + sp() + http_prefix() + encode_utf8(version)
        + crlf() + fields_bytes(fields) + crlf()
}

/// The first line and the fields of a request.
#[derive(Debug, Clone)]
pub struct RequestHeader {
    pub method: RequestMethod,
    pub uri: String,
    /// The protocol version as written after `HTTP/`, such as `1.1`.
    pub version: String,
    pub headers: Option<HeaderMap>,
}

impl RequestHeader {
    pub open spec fn wf(&self) -> bool {
        opt_wf(self.headers)
    }

    pub open spec fn fields(&self) -> Seq<Field> {
        fields_of(self.headers)
    }

    /// The bytes this header is written as.
    pub open spec fn spec_bytes(&self) -> Seq<u8> {
        request_head_bytes(self.method, self.uri@, self.version@, self.fields())
    }

    pub fn new(method: RequestMethod, uri: &str, version: &str, headers: Option<HeaderMap>) -> (r: Self)
        ensures
            r.method == method,
            r.uri@ == uri@,
            r.version@ == version@,
            r.headers == headers,
    {
        RequestHeader { method, uri: uri.to_owned(), version: version.to_owned(), headers }
    }

    /// Parses a request header block: the request line, then one field per
    /// line; lines without `": "` are skipped.
    pub fn from_bytes(bytes: &[u8]) -> (r: Result<Self, TcpIpError>)
        ensures
            match parse_request_head(bytes@) {
                None => r is Err,
                Some((m, u, v, fs)) => (r matches Ok(h) && h.method == m && h.uri@ == u
                    && h.version@ == v && h.wf() && h.fields() == fs
                    && h.headers.is_some() == (fs.len() > 0)),
            },
    {
        if utf8_string(bytes).is_none() {
            return Err(TcpIpError::new("Header is not valid UTF-8"));
        }
        let mut lines = head_lines(bytes);
        let ghost ls = split_lines(bytes@);
        proof {
            crate::header_item::lemma_join_split(bytes@);
        }
        let first = lines.remove(0);
        assert(first@ == ls[0]);
        assert(lines_view(lines@) =~= ls.drop_first());
        let (method, uri, version) = match parse_request_line(first.as_slice()) {
            Some(t) => t,
            None => {
                return Err(TcpIpError::new("Failed to read HTTP Request line"));
            },
        };
        let headers = HeaderMap::from_header_lines(&lines);
        Ok(RequestHeader { method, uri, version, headers })
    }

    /// Writes the request line, each field, and the blank line that ends the block.
    pub fn to_bytes(&self) -> (r: Vec<u8>)
        ensures
            r@ == self.spec_bytes(),
    {
        let mut out: Vec<u8> = Vec::new();
        push_bytes(&mut out, self.method.name().as_bytes());
        push_bytes(&mut out, &[32u8]);
        push_bytes(&mut out, self.uri.as_str().as_bytes());
        push_bytes(&mut out, &[32u8, 72u8, 84u8, 84u8, 80u8, 47u8]);
        push_bytes(&mut out, self.version.as_str().as_bytes());
        push_bytes(&mut out, &[13u8, 10u8]);
        write_headers(&self.headers, &mut out);
        push_bytes(&mut out, &[13u8, 10u8]);
        assert(out@ =~= self.spec_bytes());
        out
    }

    /// How the request's body is framed, if it has one.
    pub fn body_type(&self) -> (r: Option<BodyType>)
        requires
            self.wf(),
        ensures
            self.headers.is_none() ==> r is None,
            self.headers.is_some() ==> r == body_type_of(self.fields()),
    {
        body_type_of_headers(&self.headers)
    }

    /// Removes the fields that concern one link only.
    pub fn strip_hop_by_hop(&mut self)
        requires
            old(self).wf(),
        ensures
            final(self).wf(),
            final(self).method == old(self).method,
            final(self).uri == old(self).uri,
            final(self).version == old(self).version,
            final(self).headers.is_some() == old(self).headers.is_some(),
            final(self).fields() == if old(self).headers.is_some() {
                without_names(old(self).fields(), hop_names())
            } else {
                Seq::empty()
            },
    {
        strip_hop_by_hop_headers(&mut self.headers);
    }
}

/// Parses a request line.
fn parse_request_line(l: &[u8]) -> (r: Option<(RequestMethod, String, String)>)
    ensures
        match (r, request_line(l@)) {
            (Some((m, u, v)), Some((m2, u2, v2))) => m == m2 && u@ == u2 && v@ == v2,
            (None, None) => true,
            _ => false,
        },
{
    let space: [u8; 1] = [32u8];
    let space_slice: &[u8] = &space;
    assert(space_slice@ =~= sp());
    let len = l.len();
    proof {
        lemma_first_from_props(l@, sp(), 0);
    }
    if len == 0 {
        return None;
    }
    let a = match find_from(l, space_slice, 0) {
        Some(a) => a,
        None => {
            return None;
        },
    };
    let ghost rest = l@.subrange(a + 1, len as int);
    proof {
        lemma_first_from_shift(l@, sp(), a + 1, 0);
        lemma_first_from_props(rest, sp(), 0);
    }
    if a + 1 >= len {
        return None;
    }
    let b = match find_from(l, space_slice, a + 1) {
        Some(b) => b,
        None => {
            return None;
        },
    };
    let ghost bb = b - (a + 1);
    let tok = copy_range(l, 0, a);
    let method = match RequestMethod::from_name(tok.as_slice()) {
        Some(m) => m,
        None => {
            return None;
        },
    };
    assert(l@.subrange(b + 1, len as int) =~= rest.subrange(bb + 1, rest.len() as int));
    let version = match parse_version(l, b + 1, len) {
        Some(v) => v,
        None => {
            return None;
        },
    };
    let uri_bytes = copy_range(l, a + 1, b);
    assert(uri_bytes@ =~= rest.subrange(0, bb));
    if uri_bytes.len() == 0 {
        return None;
    }
    match utf8_string(uri_bytes.as_slice()) {
        Some(uri) => Some((method, uri, version)),
        None => None,
    }
}

/// A request: its header and the body, if it has one.
#[derive(Debug, Clone)]
pub struct Request {
    pub header: RequestHeader,
    pub body: Option<Vec<u8>>,
}

/// The body bytes, none when absent.
pub open spec fn body_bytes(body: Option<Vec<u8>>) -> Seq<u8> {
    match body {
        Some(b) => b@,
        None => Seq::empty(),
    }
}

impl Request {
    pub fn new(header: RequestHeader, body: Option<Vec<u8>>) -> (r: Self)
        ensures
            r.header == header,
            r.body == body,
    {
        Request { header, body }
    }

    /// The header bytes, then the body bytes.
    pub fn to_bytes(&self) -> (r: Vec<u8>)
        ensures
            r@ == self.header.spec_bytes() + body_bytes(self.body),
    {
        let mut out = self.header.to_bytes();
        match &self.body {
            Some(b) => push_bytes(&mut out, b.as_slice()),
            None => {},
        }
        assert(out@ =~= self.header.spec_bytes() + body_bytes(self.body));
        out
    }
}

impl RequestHeader {
    /// This header is what the header block `b` says.
    pub open spec fn parsed_from(&self, b: Seq<u8>) -> bool {
        match parse_request_head(b) {
            Some(p) => {
                let h = self;
                h.method == p.0 && h.uri@ == p.1 && h.version@ == p.2 && h.wf() && h.fields() == p.3 && h.headers.is_some() == (p.3.len() > 0)
            },
            None => false,
        }
    }
}

/// What reading a request from the buffered bytes `buf` gives: a data timeout
/// without a complete header block, an error for a header that does not parse
/// or a malformed chunk size, `Ok(None)` when the body is not all there yet,
/// else the request and the number of bytes it took.
pub open spec fn request_read(buf: Seq<u8>, r: Result<Option<(Request, usize)>, TcpIpError>) -> bool {
    match first_occurrence(buf, head_end()) {
        None => r == Err::<Option<(Request, usize)>, TcpIpError>(TcpIpError::DataTimeout),
        Some(e) => {
            let head = buf.subrange(0, e);
            let rest = buf.subrange(e + 4, buf.len() as int);
            match parse_request_head(head) {
                None => r matches Err(TcpIpError::Other(_)),
                Some(p) => match body_type_of(p.3) {
                    None => r matches Ok(Some((q, n))) && q.header.parsed_from(head) && q.body is None
                        && n == e + 4,
                    Some(t) => match body_scan(t, rest) {
                        BodyScan::Malformed => r matches Err(TcpIpError::Other(_)),
                        BodyScan::Partial => r matches Ok(None),
                        BodyScan::Complete(b, k) => r matches Ok(Some((q, n))) && q.header.parsed_from(head)
                            && n == e + 4 + k && (q.body matches Some(v) && v@ == b),
                    },
                },
            }
        },
    }
}

impl Request {
    /// Reads a whole request, header and body, from the start of the buffered bytes.
    pub fn from_buffer(buf: &[u8]) -> (r: Result<Option<(Request, usize)>, TcpIpError>)
        ensures
            request_read(buf@, r),
    {
        let e = match find_head_end(buf) {
            Ok(e) => e,
            Err(err) => {
                return Err(err);
            },
        };
        let total = buf.len();
        assert(e + 4 <= total);
        let head = vstd::slice::slice_subrange(buf, 0, e);
        let header = match RequestHeader::from_bytes(head) {
            Ok(h) => h,
            Err(_) => {
                return Err(TcpIpError::new("Failed to parse request header"));
            },
        };
        proof {
            if header.headers.is_none() {
                assert(!has_name(Seq::<Field>::empty(), "Content-Length"@));
                assert(!has_name(Seq::<Field>::empty(), "Transfer-Encoding"@));
            }
        }
        match header.body_type() {
            None => Ok(Some((Request { header, body: None }, e + 4))),
            Some(t) => match read_body_at(buf, e + 4, t) {
                Ok(Some((body, k))) => Ok(Some((Request { header, body: Some(body) }, e + 4 + k))),
                Ok(None) => Ok(None),
                Err(_) => Err(TcpIpError::new("Invalid chunk size")),
            },
        }
    }
}

/// Builds a request field by field.
#[derive(Debug, Clone)]
pub struct RequestBuilder {
    pub method: Option<RequestMethod>,
    pub uri: Option<String>,
    pub version: String,
    pub headers: Option<HeaderMap>,
    pub body: Option<Vec<u8>>,
}

impl RequestBuilder {
    pub open spec fn wf(&self) -> bool {
        opt_wf(self.headers)
    }

    /// An empty builder for version `1.1`.
    pub fn new() -> (r: Self)
        ensures
            r.method is None,
            r.uri is None,
            r.version@ == "1.1"@,
            r.headers is None,
            r.body is None,
    {
        RequestBuilder { method: None, uri: None, version: "1.1".to_owned(), headers: None, body: None }
    }

    pub fn method(self, method: RequestMethod) -> (r: Self)
        ensures
            r == (RequestBuilder { method: Some(method), ..self }),
    {
        RequestBuilder { method: Some(method), ..self }
    }

    pub fn uri(self, uri: &str) -> (r: Self)
        ensures
            r.uri matches Some(u) && u@ == uri@,
            r.method == self.method && r.version == self.version && r.headers == self.headers
                && r.body == self.body,
    {
        RequestBuilder { uri: Some(uri.to_owned()), ..self }
    }

    pub fn version(self, version: &str) -> (r: Self)
        ensures
            r.version@ == version@,
            r.method == self.method && r.uri == self.uri && r.headers == self.headers
                && r.body == self.body,
    {
        RequestBuilder { version: version.to_owned(), ..self }
    }

    /// Sets the field `key: value`.
    pub fn header(self, key: &str, value: &str) -> (r: Self)
        requires
            self.wf(),
        ensures
            r.wf(),
            r.headers matches Some(m) && m@ == inserted(fields_of(self.headers), key@, value@),
            r.method == self.method && r.uri == self.uri && r.version == self.version
                && r.body == self.body,
    {
        let headers = with_field(self.headers, key, value);
        RequestBuilder { headers, ..self }
    }

    /// Sets the body, and `Content-Length` to its length.
    pub fn body(self, body: Vec<u8>) -> (r: Self)
        requires
            self.wf(),
        ensures
            r.wf(),
            r.body == Some(body),
            r.headers matches Some(m) && m@ == inserted(
                fields_of(self.headers),
                "Content-Length"@,
                dec_chars(body@.len()),
            ),
            r.method == self.method && r.uri == self.uri && r.version == self.version,
    {
        let len = decimal_string(body.len() as u64);
        let with_length = self.header("Content-Length", len.as_str());
        RequestBuilder { body: Some(body), ..with_length }
    }

    /// The request, when a method and a URI were given.
    pub fn build(self) -> (r: Option<Request>)
        ensures
            r.is_some() == (self.method.is_some() && self.uri.is_some()),
            r matches Some(q) ==> (self.method == Some(q.header.method) && self.uri == Some(
                q.header.uri,
            ) && q.header.version == self.version && q.header.headers == self.headers && q.body
                == self.body),
    {
        let method = match self.method {
            Some(m) => m,
            None => {
                return None;
            },
        };
        let uri = match self.uri {
            Some(u) => u,
            None => {
                return None;
            },
        };
        let header = RequestHeader { method, uri, version: self.version, headers: self.headers };
        Some(Request { header, body: self.body })
    }
}

/// A request line is written back as the bytes it was read from.
proof fn lemma_request_line_bytes(l: Seq<u8>)
    requires
        request_line(l) is Some,
    ensures
        ({
            let (m, u, v) = request_line(l)->0;
            encode_utf8(method_text(m)) + sp() + encode_utf8(u) + sp() + http_prefix() + encode_utf8(v) == l
        }),
{
    lemma_first_from_props(l, sp(), 0);
    let a = first_occurrence(l, sp())->0;
    let rest = l.subrange(a + 1, l.len() as int);
    lemma_first_from_props(rest, sp(), 0);
    let b = first_occurrence(rest, sp())->0;
    let tok = l.subrange(0, a);
    let uri = rest.subrange(0, b);
    let t = rest.subrange(b + 1, rest.len() as int);
    let vb = t.subrange(5, t.len() as int);
    decode_utf8_encode_utf8(uri);
    decode_utf8_encode_utf8(vb);
    assert(l.subrange(a, a + 1) == sp());
    assert(rest.subrange(b, b + 1) == sp());
    assert(l =~= tok + sp() + rest);
    assert(rest =~= uri + sp() + t);
    assert(t =~= http_prefix() + vb);
    let (m, u, v) = request_line(l)->0;
    assert(encode_utf8(method_text(m)) == tok);
    assert(encode_utf8(method_text(m)) + sp() + encode_utf8(u) + sp() + http_prefix() + encode_utf8(v) =~= l);
}

/// A well-formed request header block, parsed and written again, gives back
/// the same bytes.
pub proof fn lemma_request_round_trip(b: Seq<u8>)
    requires
        is_head_block(b),
        request_line(split_lines(b)[0]) is Some,
    ensures
        parse_request_head(b) matches Some((m, u, v, fs)) && request_head_bytes(m, u, v, fs) == b,
{
    let ls = split_lines(b);
    lemma_head_block(b);
    lemma_request_line_bytes(ls[0]);
    let (m, u, v, fs) = parse_request_head(b)->0;
    assert(request_head_bytes(m, u, v, fs) =~= b);
}

impl Request {
    /// The kind of message, as the log names it.
    pub fn item_name(&self) -> (r: &'static str)
        ensures
            r@ == "Request"@,
    {
        "Request"
    }

    /// The log entry of this request, under the proxy's label.
    pub fn pretty_text(&self, label: &str) -> (r: String)
        ensures
            r@ == log_entry("Request"@, label@, self.header.spec_bytes(), self.body),
    {
        let head = self.header.to_bytes();
        render_log_entry(self.item_name(), label, head.as_slice(), &self.body)
    }
}

impl RequestHeader {
    /// The header block as text; fails when it is not valid UTF-8.
    pub fn as_string(&self) -> (r: Result<String, TcpIpError>)
        ensures
            r is Ok == valid_utf8(self.spec_bytes()),
            r matches Ok(s) ==> s@ == decode_utf8(self.spec_bytes()),
    {
        let bytes = self.to_bytes();
        match utf8_string(bytes.as_slice()) {
            Some(s) => Ok(s),
            None => Err(TcpIpError::new("Request header is not valid UTF-8")),
        }
    }
}

impl Request {
    /// The whole request as text; fails when it is not valid UTF-8.
    pub fn as_string(&self) -> (r: Result<String, TcpIpError>)
        ensures
            r is Ok == valid_utf8(self.header.spec_bytes() + body_bytes(self.body)),
            r matches Ok(s) ==> s@ == decode_utf8(self.header.spec_bytes() + body_bytes(self.body)),
    {
        let bytes = self.to_bytes();
        match utf8_string(bytes.as_slice()) {
            Some(s) => Ok(s),
            None => Err(TcpIpError::new("Request is not valid UTF-8")),
        }
    }
}

} // verus!
