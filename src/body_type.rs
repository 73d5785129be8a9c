use vstd::prelude::*;

use crate::error::TcpIpError;
use crate::util::{
    find_from, first_from, first_occurrence, lemma_first_from_props, lemma_first_from_shift,
};

verus! {

/// How a message body is framed on the wire.
#[derive(Debug, Clone, Copy, PartialEq, Eq, Structural)]
pub enum BodyType {
    /// Exactly this many bytes follow the header.
    Fixed(usize),
    /// Length-prefixed chunks follow, ended by a chunk of size zero.
    Chunked,
}

/// What a run of buffered bytes holds of a body.
pub enum BodyScan {
    /// A chunk size line that is not a hexadecimal number.
    Malformed,
    /// Not all of the body is there yet.
    Partial,
    /// The decoded body, and how many bytes its encoding took.
    Complete(Seq<u8>, int),
}

pub open spec fn crlf() -> Seq<u8> {
    seq![13u8, 10u8]
}

pub open spec fn hex_digit_value(b: u8) -> int {
    if 48 <= b <= 57 {
        b - 48
    } else if 97 <= b <= 102 {
        b - 87
    } else if 65 <= b <= 70 {
        b - 55
    } else {
        -1
    }
}

pub open spec fn all_hex_digits(s: Seq<u8>) -> bool {
    forall|i: int| 0 <= i < s.len() ==> hex_digit_value(#[trigger] s[i]) >= 0
}

/// The value of a run of hexadecimal digits.
pub open spec fn hex_value(s: Seq<u8>) -> int
    decreases s.len(),
{
    if s.len() == 0 {
        0
    } else {
        hex_value(s.drop_last()) * 16 + hex_digit_value(s.last())
    }
}

/// A chunk size line: some hexadecimal digits whose value fits in 64 bits.
pub open spec fn is_chunk_size(s: Seq<u8>) -> bool {
    s.len() > 0 && all_hex_digits(s) && hex_value(s) <= u64::MAX as int
}

/// Decodes chunked data: a size line in hexadecimal ended by CRLF, that many
/// bytes, two bytes that end the chunk; then the next chunk, until one of size zero.
pub open spec fn scan_chunks(data: Seq<u8>) -> BodyScan
    decreases data.len(),
{
    match first_occurrence(data, crlf()) {
        None => BodyScan::Partial,
        Some(p) => {
            let size_text = data.subrange(0, p);
            if !is_chunk_size(size_text) {
                BodyScan::Malformed
            } else {
                let size = hex_value(size_text);
                let end = p + 2 + size + 2;
                if !(0 < end <= data.len()) {
                    BodyScan::Partial
                } else if size == 0 {
                    BodyScan::Complete(Seq::empty(), end)
                } else {
                    match scan_chunks(data.subrange(end, data.len() as int)) {
                        BodyScan::Complete(b, n) => BodyScan::Complete(
                            data.subrange(p + 2, p + 2 + size) + b,
                            end + n,
                        ),
                        other => other,
                    }
                }
            }
        },
    }
}

/// `s`, with `acc` already decoded from the `pos` bytes before it.
pub open spec fn scan_after(acc: Seq<u8>, pos: int, s: BodyScan) -> BodyScan {
    match s {
        BodyScan::Complete(b, n) => BodyScan::Complete(acc + b, pos + n),
        other => other,
    }
}

/// The body that `data` begins with, framed as `t`.
pub open spec fn body_scan(t: BodyType, data: Seq<u8>) -> BodyScan {
    match t {
        BodyType::Fixed(n) => if n <= data.len() {
            BodyScan::Complete(data.subrange(0, n as int), n as int)
        } else {
            BodyScan::Partial
        },
        BodyType::Chunked => scan_chunks(data),
    }
}

/// `r` reports the scan `s`: an error for a malformed chunk size, `Ok(None)`
/// when more bytes are needed, else the body and the number of bytes it took.
pub open spec fn reports(s: BodyScan, r: Result<Option<(Vec<u8>, usize)>, TcpIpError>) -> bool {
    match s {
        BodyScan::Malformed => r is Err,
        BodyScan::Partial => r matches Ok(None),
        BodyScan::Complete(b, n) => r matches Ok(Some((v, k))) && v@ == b && k == n,
    }
}

proof fn lemma_hex_prefix(s: Seq<u8>, i: int)
    requires
        0 <= i <= s.len(),
        all_hex_digits(s),
    ensures
        0 <= hex_value(s.subrange(0, i)) <= hex_value(s),
    decreases s.len() - i,
{
    if i < s.len() {
        lemma_hex_prefix(s, i + 1);
        assert(s.subrange(0, i + 1).drop_last() =~= s.subrange(0, i));
    } else {
        assert(s.subrange(0, i) =~= s);
        lemma_hex_nonneg(s);
    }
}

proof fn lemma_hex_nonneg(s: Seq<u8>)
    requires
        all_hex_digits(s),
    ensures
        hex_value(s) >= 0,
    decreases s.len(),
{
    if s.len() > 0 {
        lemma_hex_nonneg(s.drop_last());
    }
}

fn hex_digit(b: u8) -> (r: Option<u64>)
    ensures
        hex_digit_value(b) >= 0 ==> r == Some(hex_digit_value(b) as u64),
        hex_digit_value(b) < 0 ==> r is None,
{
    if 48 <= b && b <= 57 {
        Some((b - 48) as u64)
    } else if 97 <= b && b <= 102 {
        Some((b - 87) as u64)
    } else if 65 <= b && b <= 70 {
        Some((b - 55) as u64)
    } else {
        None
    }
}

/// Reads the hexadecimal number held by `data[from..to]`.
fn parse_hex(data: &[u8], from: usize, to: usize) -> (r: Option<u64>)
    requires
        from <= to <= data@.len(),
    ensures
        r.is_some() == is_chunk_size(data@.subrange(from as int, to as int)),
        r matches Some(n) ==> n as int == hex_value(data@.subrange(from as int, to as int)),
{
    let ghost s = data@.subrange(from as int, to as int);
    if from == to {
        return None;
    }
    let mut v: u64 = 0;
    let mut i = from;
    while i < to
        invariant
            from <= i <= to,
            to <= data@.len(),
            s == data@.subrange(from as int, to as int),
            all_hex_digits(s.subrange(0, i - from)),
            v as int == hex_value(s.subrange(0, i - from)),
        decreases to - i,
    {
        let ghost k = i - from;
        assert(s.subrange(0, k + 1).drop_last() =~= s.subrange(0, k));
        assert(s[k] == data@[i as int]);
        let d = match hex_digit(data[i]) {
            Some(d) => d,
            None => {
                assert(!all_hex_digits(s));
                return None;
            },
        };
        let next = match v.checked_mul(16) {
            Some(m) => m.checked_add(d),
            None => None,
        };
        match next {
            Some(n) => {
                v = n;
            },
            None => {
                proof {
                    if all_hex_digits(s) {
                        lemma_hex_prefix(s, k + 1);
                    }
                }
                return None;
            },
        }
        i = i + 1;
        assert(all_hex_digits(s.subrange(0, i - from))) by {
            assert forall|t: int| 0 <= t < i - from implies hex_digit_value(
                #[trigger] s.subrange(0, i - from)[t],
            ) >= 0 by {
                if t < k {
                    assert(s.subrange(0, i - from)[t] == s.subrange(0, k)[t]);
                }
            }
        }
    }
    assert(s.subrange(0, to - from) =~= s);
    Some(v)
}

fn copy_into(out: &mut Vec<u8>, data: &[u8], from: usize, to: usize)
    requires
        from <= to <= data@.len(),
    ensures
        final(out)@ == old(out)@ + data@.subrange(from as int, to as int),
{
    let mut i = from;
    while i < to
        invariant
            from <= i <= to,
            to <= data@.len(),
            out@ == old(out)@ + data@.subrange(from as int, i as int),
        decreases to - i,
    {
        out.push(data[i]);
        i = i + 1;
        assert(out@ =~= old(out)@ + data@.subrange(from as int, i as int));
    }
}

impl BodyType {
    /// Decodes the body at the start of the buffered bytes `data`. Gives the
    /// body and the number of bytes it took, `Ok(None)` when `data` does not
    /// hold all of it yet, and an error for a chunk size that is not hexadecimal.
    pub fn read_body(&self, data: &[u8]) -> (r: Result<Option<(Vec<u8>, usize)>, TcpIpError>)
        ensures
            reports(body_scan(*self, data@), r),
            r matches Ok(Some((_, k))) ==> k <= data@.len(),
    {
        match *self {
            BodyType::Fixed(n) => {
                if n <= data.len() {
                    let mut body = Vec::new();
                    copy_into(&mut body, data, 0, n);
                    assert(body@ =~= data@.subrange(0, n as int));
                    Ok(Some((body, n)))
                } else {
                    Ok(None)
                }
            },
            BodyType::Chunked => read_chunked(data),
        }
    }
}

fn read_chunked(data: &[u8]) -> (r: Result<Option<(Vec<u8>, usize)>, TcpIpError>)
    ensures
        reports(scan_chunks(data@), r),
        r matches Ok(Some((_, k))) ==> k <= data@.len(),
{
    let sep: [u8; 2] = [13u8, 10u8];
    let sep_slice: &[u8] = &sep;
    assert(sep_slice@ =~= crlf());
    let mut body: Vec<u8> = Vec::new();
    let mut pos: usize = 0;
    let len = data.len();
    proof {
        assert(data@.subrange(0, len as int) =~= data@);
    }
    loop
        invariant
            pos <= len,
            len == data@.len(),
            sep_slice@ == crlf(),
            scan_chunks(data@) == scan_after(body@, pos as int, scan_chunks(data@.subrange(pos as int, len as int))),
        decreases len - pos,
    {
        let ghost rest = data@.subrange(pos as int, len as int);
        proof {
            lemma_first_from_shift(data@, crlf(), pos as int, 0);
            lemma_first_from_props(rest, crlf(), 0);
        }
        let found = if len - pos < 2 {
            proof {
                assert(first_from(rest, crlf(), 0) is None);
            }
            None
        } else {
            find_from(data, sep_slice, pos)
        };
        match found {
            None => {
                return Ok(None);
            },
            Some(p) => {
                let ghost q = p - pos;
                assert(rest.subrange(0, q) =~= data@.subrange(pos as int, p as int));
                let size = match parse_hex(data, pos, p) {
                    Some(s) => s,
                    None => {
                        return Err(TcpIpError::new("Invalid chunk size"));
                    },
                };
                let avail = len - (p + 2);
                if avail < 2 || size > (avail - 2) as u64 {
                    return Ok(None);
                }
                let size = size as usize;
                let start = p + 2;
                let end = start + size + 2;
                if size == 0 {
                    proof {
                        assert(body@ + Seq::<u8>::empty() =~= body@);
                    }
                    return Ok(Some((body, end)));
                }
                let ghost before = body@;
                copy_into(&mut body, data, start, start + size);
                proof {
                    let e = q + 2 + size + 2;
                    assert(rest.subrange(e, rest.len() as int) =~= data@.subrange(end as int, len as int));
                    assert(rest.subrange(q + 2, q + 2 + size) =~= data@.subrange(start as int, start + size));
                    assert(before + (data@.subrange(start as int, start + size)) =~= body@);
                    match scan_chunks(data@.subrange(end as int, len as int)) {
                        BodyScan::Complete(b, n) => {
                            assert(before + (data@.subrange(start as int, start + size) + b) =~= body@ + b);
                        },
                        _ => {},
                    }
                }
                pos = end;
            },
        }
    }
}

} // verus!
