use vstd::prelude::*;
use vstd::string::*;
use vstd::utf8::*;

use crate::body_type::{crlf, BodyType};
use crate::header_map::{
    colon_sp, fields_of_lines, has_name, inserted, line_field, name_index, names_unique, removed,
    value_of, Field, HeaderMap,
};
use crate::text::{
    dec_chars, dec_in_range, dec_value, eq_ignore_case, lemma_dec_chars_value, parse_decimal,
    same_name, utf8_string,
};
use crate::util::{
    copy_range, find_from, first_occurrence, lemma_first_from_props, lemma_first_from_shift,
    lines_view,
};

verus! {

/// The lines of `b`, split at each CRLF.
pub open spec fn split_lines(b: Seq<u8>) -> Seq<Seq<u8>>
    decreases b.len(),
{
    match first_occurrence(b, crlf()) {
        Some(p) => if 0 <= p && p + 2 <= b.len() {
            seq![b.subrange(0, p)] + split_lines(b.subrange(p + 2, b.len() as int))
        } else {
            seq![b]
        },
        None => seq![b],
    }
}

/// Lines put back together, with a CRLF between each two.
pub open spec fn join_lines(ls: Seq<Seq<u8>>) -> Seq<u8>
    decreases ls.len(),
{
    if ls.len() == 0 {
        Seq::empty()
    } else if ls.len() == 1 {
        ls[0]
    } else {
        ls[0] + crlf() + join_lines(ls.drop_first())
    }
}

/// Splitting at CRLF and joining again gives back the same bytes.
pub proof fn lemma_join_split(b: Seq<u8>)
    ensures
        join_lines(split_lines(b)) == b,
        split_lines(b).len() >= 1,
    decreases b.len(),
{
    lemma_first_from_props(b, crlf(), 0);
    match first_occurrence(b, crlf()) {
        Some(p) => {
            if 0 <= p && p + 2 <= b.len() {
                let rest = b.subrange(p + 2, b.len() as int);
                lemma_join_split(rest);
                let ls = split_lines(b);
                assert(ls.drop_first() =~= split_lines(rest));
                assert(b.subrange(p, p + 2) == crlf());
                assert(b =~= b.subrange(0, p) + crlf() + rest);
            }
        },
        None => {},
    }
}

/// The bytes of one header line, `name: value` and a CRLF.
pub open spec fn field_bytes(f: Field) -> Seq<u8> {
    encode_utf8(f.0) + seq![58u8, 32u8] + encode_utf8(f.1) + crlf()
}

/// The bytes of all header lines, in order.
pub open spec fn fields_bytes(m: Seq<Field>) -> Seq<u8>
    decreases m.len(),
{
    if m.len() == 0 {
        Seq::empty()
    } else {
        fields_bytes(m.drop_last()) + field_bytes(m.last())
    }
}

/// The header fields of an optional map.
pub open spec fn fields_of(h: Option<HeaderMap>) -> Seq<Field> {
    match h {
        Some(m) => m@,
        None => Seq::empty(),
    }
}

pub open spec fn opt_wf(h: Option<HeaderMap>) -> bool {
    match h {
        Some(m) => m.wf(),
        None => true,
    }
}

/// How the body of a message with these header fields is framed: by a
/// `Content-Length` that is a number, else by `Transfer-Encoding: chunked`
/// in any letter case, else there is no body.
pub open spec fn body_type_of(m: Seq<Field>) -> Option<BodyType> {
    match value_of(m, "Content-Length"@) {
        Some(v) if dec_in_range(v, usize::MAX as int) => Some(BodyType::Fixed(dec_value(v) as usize)),
        _ => match value_of(m, "Transfer-Encoding"@) {
            Some(v) if same_name(v, "chunked"@) => Some(BodyType::Chunked),
            _ => None,
        },
    }
}

/// A `Content-Length` that is a number gives a body of that length; else
/// `Transfer-Encoding: chunked`, in any letter case, gives a chunked body;
/// with neither field there is no body.
pub proof fn lemma_body_type_cases(m: Seq<Field>, n: usize)
    ensures
        value_of(m, "Content-Length"@) == Some(dec_chars(n as nat)) ==> body_type_of(m) == Some(
            BodyType::Fixed(n),
        ),
        !has_name(m, "Content-Length"@) && (value_of(m, "Transfer-Encoding"@) matches Some(v)
            && same_name(v, "chunked"@)) ==> body_type_of(m) == Some(BodyType::Chunked),
        !has_name(m, "Content-Length"@) && !has_name(m, "Transfer-Encoding"@) ==> body_type_of(m)
            is None,
{
    lemma_dec_chars_value(n as nat);
}

/// The header names that concern one link only, and are not passed on.
pub open spec fn hop_names() -> Seq<Seq<char>> {
    seq![
        "connection"@,
        "cache-control"@,
        "keep-alive"@,
        "proxy-authenticate"@,
        "proxy-authorization"@,
        "proxy-connection"@,
        "referer"@,
        "te"@,
        "trailer"@,
        "transfer-encoding"@,
        "upgrade"@,
    ]
}

/// The fields left after removing each of `names` in turn.
pub open spec fn without_names(m: Seq<Field>, names: Seq<Seq<char>>) -> Seq<Field>
    decreases names.len(),
{
    if names.len() == 0 {
        m
    } else {
        removed(without_names(m, names.drop_last()), names.last())
    }
}

/// `k` is one of `names`, letter case aside.
pub open spec fn listed(k: Seq<char>, names: Seq<Seq<char>>) -> bool {
    exists|j: int| 0 <= j < names.len() && same_name(k, #[trigger] names[j])
}

/// Removing names keeps exactly the fields whose names are not among them:
/// none of the removed names can be found any more, in any letter case, and
/// every other field is still there.
pub proof fn lemma_without_names(m: Seq<Field>, names: Seq<Seq<char>>)
    requires
        names_unique(m),
    ensures
        names_unique(without_names(m, names)),
        forall|k: Seq<char>| listed(k, names) ==> !#[trigger] has_name(without_names(m, names), k),
        forall|i: int| 0 <= i < without_names(m, names).len() ==> m.contains(
            #[trigger] without_names(m, names)[i],
        ) && !listed(without_names(m, names)[i].0, names),
        forall|i: int| 0 <= i < m.len() && !listed(#[trigger] m[i].0, names) ==> without_names(
            m,
            names,
        ).contains(m[i]),
    decreases names.len(),
{
    let r = without_names(m, names);
    if names.len() == 0 {
        assert forall|i: int| 0 <= i < m.len() implies r.contains(#[trigger] m[i]) by {
            assert(r[i] == m[i]);
        }
        assert forall|i: int| 0 <= i < r.len() implies m.contains(#[trigger] r[i]) by {
            assert(m[i] == r[i]);
        }
    } else {
        let prev = names.drop_last();
        let n = names.last();
        let w = without_names(m, prev);
        lemma_without_names(m, prev);
        assert(r == removed(w, n));
        assert forall|k: Seq<char>| listed(k, prev) implies listed(k, names) by {
            let j = choose|j: int| 0 <= j < prev.len() && same_name(k, #[trigger] prev[j]);
            assert(names[j] == prev[j]);
        }
        assert(same_name(n, names[names.len() - 1]));
        if has_name(w, n) {
            let x = name_index(w, n);
            assert(r == w.remove(x));
            assert forall|a: int, b: int|
                0 <= a < r.len() && 0 <= b < r.len() && a != b implies !same_name(
                #[trigger] r[a].0,
                #[trigger] r[b].0,
            ) by {
                let a0 = if a < x { a } else { a + 1 };
                let b0 = if b < x { b } else { b + 1 };
                assert(r[a] == w[a0]);
                assert(r[b] == w[b0]);
            }
            assert forall|i: int| 0 <= i < r.len() implies m.contains(#[trigger] r[i]) && !listed(
                r[i].0,
                names,
            ) by {
                let i0 = if i < x { i } else { i + 1 };
                assert(r[i] == w[i0]);
                assert(m.contains(w[i0]));
                assert(!same_name(w[i0].0, w[x].0));
                if listed(r[i].0, names) {
                    let j = choose|j: int| 0 <= j < names.len() && same_name(r[i].0, #[trigger] names[j]);
                    if j < names.len() - 1 {
                        assert(prev[j] == names[j]);
                        assert(listed(r[i].0, prev));
                    }
                }
            }
            assert forall|i: int| 0 <= i < m.len() && !listed(#[trigger] m[i].0, names) implies r.contains(m[i]) by {
                if !listed(m[i].0, prev) {
                    assert(w.contains(m[i]));
                    let y = choose|y: int| 0 <= y < w.len() && w[y] == m[i];
                    assert(!same_name(m[i].0, n));
                    assert(y != x);
                    let y1 = if y < x { y } else { y - 1 };
                    assert(r[y1] == w[y]);
                }
            }
        } else {
            assert(r == w);
            assert forall|i: int| 0 <= i < r.len() implies m.contains(#[trigger] r[i]) && !listed(
                r[i].0,
                names,
            ) by {
                assert(m.contains(w[i]));
                assert(!same_name(w[i].0, n));
                if listed(r[i].0, names) {
                    let j = choose|j: int| 0 <= j < names.len() && same_name(r[i].0, #[trigger] names[j]);
                    if j < names.len() - 1 {
                        assert(prev[j] == names[j]);
                        assert(listed(r[i].0, prev));
                    }
                }
            }
            assert forall|i: int| 0 <= i < m.len() && !listed(#[trigger] m[i].0, names) implies r.contains(m[i]) by {
                if !listed(m[i].0, prev) {
                    assert(w.contains(m[i]));
                }
            }
        }
        assert forall|k: Seq<char>| listed(k, names) implies !#[trigger] has_name(r, k) by {
            if has_name(r, k) {
                let i = choose|i: int| 0 <= i < r.len() && same_name(#[trigger] r[i].0, k);
                let j = choose|j: int| 0 <= j < names.len() && same_name(k, #[trigger] names[j]);
                assert(same_name(r[i].0, names[j]));
                assert(listed(r[i].0, names));
            }
        }
    }
}

/// Removing names from no fields leaves no fields.
pub proof fn lemma_without_names_empty(names: Seq<Seq<char>>)
    ensures
        without_names(Seq::<Field>::empty(), names) == Seq::<Field>::empty(),
    decreases names.len(),
{
    if names.len() > 0 {
        lemma_without_names_empty(names.drop_last());
    }
}

/// Appends `src` to `out`.
pub fn push_bytes(out: &mut Vec<u8>, src: &[u8])
    ensures
        final(out)@ == old(out)@ + src@,
{
    let mut i: usize = 0;
    while i < src.len()
        invariant
            i <= src@.len(),
            out@ == old(out)@ + src@.subrange(0, i as int),
        decreases src@.len() - i,
    {
        out.push(src[i]);
        i = i + 1;
        assert(out@ =~= old(out)@ + src@.subrange(0, i as int));
    }
    assert(src@.subrange(0, i as int) =~= src@);
}

/// Appends each header line, `name: value` and a CRLF, in order.
pub fn write_headers(headers: &Option<HeaderMap>, out: &mut Vec<u8>)
    ensures
        final(out)@ == old(out)@ + fields_bytes(fields_of(*headers)),
{
    match headers {
        Some(m) => {
            let mut i: usize = 0;
            while i < m.headers.len()
                invariant
                    i <= m@.len(),
                    out@ == old(out)@ + fields_bytes(m@.subrange(0, i as int)),
                decreases m@.len() - i,
            {
                let ghost before = out@;
                let name = &m.headers[i].0;
                let value = &m.headers[i].1;
                push_bytes(out, name.as_str().as_bytes());
                push_bytes(out, &[58u8, 32u8]);
                push_bytes(out, value.as_str().as_bytes());
                push_bytes(out, &[13u8, 10u8]);
                proof {
                    let f = m@[i as int];
                    assert(f == (name@, value@));
                    assert(m@.subrange(0, i + 1).drop_last() =~= m@.subrange(0, i as int));
                    assert(out@ =~= before + field_bytes(f));
                }
                i = i + 1;
            }
            assert(m@.subrange(0, i as int) =~= m@);
        },
        None => {
            assert(old(out)@ + fields_bytes(Seq::<Field>::empty()) =~= old(out)@);
        },
    }
}

/// Derives the body framing from a header's fields.
pub fn body_type_of_headers(headers: &Option<HeaderMap>) -> (r: Option<BodyType>)
    requires
        opt_wf(*headers),
    ensures
        headers.is_none() ==> r is None,
        headers.is_some() ==> r == body_type_of(fields_of(*headers)),
{
    match headers {
        Some(m) => {
            let cl = m.get("Content-Length");
            match cl {
                Some(v) => match parse_decimal(v) {
                    Some(n) => {
                        if n <= usize::MAX as u64 {
                            return Some(BodyType::Fixed(n as usize));
                        }
                    },
                    None => {},
                },
                None => {},
            }
            match m.get("Transfer-Encoding") {
                Some(v) => {
                    if eq_ignore_case(v, "chunked") {
                        Some(BodyType::Chunked)
                    } else {
                        None
                    }
                },
                None => None,
            }
        },
        None => None,
    }
}

/// Removes the hop-by-hop fields.
pub fn strip_hop_by_hop_headers(headers: &mut Option<HeaderMap>)
    requires
        opt_wf(*old(headers)),
    ensures
        opt_wf(*final(headers)),
        old(headers).is_none() ==> final(headers).is_none(),
        old(headers).is_some() ==> (*final(headers) matches Some(m) && m@ == without_names(
            fields_of(*old(headers)),
            hop_names(),
        )),
{
    match headers {
        Some(m) => {
            let names: [&str; 11] = [
                "connection",
                "cache-control",
                "keep-alive",
                "proxy-authenticate",
                "proxy-authorization",
                "proxy-connection",
                "referer",
                "te",
                "trailer",
                "transfer-encoding",
                "upgrade",
            ];
            let ghost start = m@;
            let mut i: usize = 0;
            while i < 11
                invariant
                    i <= 11,
                    m.wf(),
                    forall|j: int| 0 <= j < 11 ==> (#[trigger] names@[j])@ == hop_names()[j],
                    m@ == without_names(start, hop_names().subrange(0, i as int)),
                decreases 11 - i,
            {
                m.remove(names[i]);
                assert(hop_names().subrange(0, i + 1).drop_last() =~= hop_names().subrange(0, i as int));
                i = i + 1;
            }
            assert(hop_names().subrange(0, 11) =~= hop_names());
        },
        None => {},
    }
}

/// The lines of a header block, split at each CRLF.
pub fn head_lines(b: &[u8]) -> (r: Vec<Vec<u8>>)
    ensures
        lines_view(r@) == split_lines(b@),
{
    let sep: [u8; 2] = [13u8, 10u8];
    let sep_slice: &[u8] = &sep;
    assert(sep_slice@ =~= crlf());
    let mut lines: Vec<Vec<u8>> = Vec::new();
    let mut pos: usize = 0;
    let len = b.len();
    assert(b@.subrange(0, len as int) =~= b@);
    assert(lines_view(lines@) + split_lines(b@) =~= split_lines(b@));
    loop
        invariant
            pos <= len,
            len == b@.len(),
            sep_slice@ == crlf(),
            split_lines(b@) == lines_view(lines@) + split_lines(b@.subrange(pos as int, len as int)),
        decreases len - pos,
    {
        let ghost rest = b@.subrange(pos as int, len as int);
        proof {
            lemma_first_from_shift(b@, crlf(), pos as int, 0);
            lemma_first_from_props(rest, crlf(), 0);
        }
        let found = if len - pos < 2 {
            None
        } else {
            find_from(b, sep_slice, pos)
        };
        match found {
            None => {
                let last = copy_range(b, pos, len);
                let ghost before = lines_view(lines@);
                lines.push(last);
                assert(lines_view(lines@) =~= before + split_lines(rest));
                return lines;
            },
            Some(p) => {
                let line = copy_range(b, pos, p);
                let ghost before = lines_view(lines@);
                lines.push(line);
                proof {
                    let q = p - pos;
                    assert(rest.subrange(0, q) =~= line@);
                    assert(rest.subrange(q + 2, rest.len() as int) =~= b@.subrange(p + 2, len as int));
                    assert(lines_view(lines@) =~= before.push(line@));
                    assert(before + split_lines(rest) =~= lines_view(lines@) + split_lines(
                        b@.subrange(p + 2, len as int),
                    ));
                }
                pos = p + 2;
            },
        }
    }
}

/// Whether two byte runs are equal.
pub fn bytes_eq(a: &[u8], b: &[u8]) -> (r: bool)
    ensures
        r == (a@ == b@),
{
    if a.len() != b.len() {
        return false;
    }
    let mut i: usize = 0;
    while i < a.len()
        invariant
            i <= a@.len(),
            a@.len() == b@.len(),
            forall|j: int| 0 <= j < i ==> a@[j] == b@[j],
        decreases a@.len() - i,
    {
        if a[i] != b[i] {
            return false;
        }
        i = i + 1;
    }
    assert(a@ =~= b@);
    true
}

/// A single space.
pub open spec fn sp() -> Seq<u8> {
    seq![32u8]
}

/// The bytes `HTTP/`.
pub open spec fn http_prefix() -> Seq<u8> {
    seq![72u8, 84u8, 84u8, 80u8, 47u8]
}

pub open spec fn is_digit_byte(b: u8) -> bool {
    48 <= b <= 57
}

/// A protocol version: digits, optionally a dot and more digits.
pub open spec fn is_version(v: Seq<u8>) -> bool {
    &&& v.len() > 0
    &&& is_digit_byte(v[0])
    &&& is_digit_byte(v.last())
    &&& forall|i: int| 0 <= i < v.len() ==> is_digit_byte(#[trigger] v[i]) || v[i] == 46u8
    &&& forall|i: int, j: int| 0 <= i < j < v.len() && #[trigger] v[i] == 46u8 ==> #[trigger] v[j] != 46u8
}

/// The version written after `HTTP/` in `t`.
pub open spec fn version_of(t: Seq<u8>) -> Option<Seq<char>> {
    if t.len() > 5 && t.subrange(0, 5) == http_prefix() && is_version(t.subrange(5, t.len() as int))
        && valid_utf8(t.subrange(5, t.len() as int)) {
        Some(decode_utf8(t.subrange(5, t.len() as int)))
    } else {
        None
    }
}

/// Reads `HTTP/` and a version from `data[from..to]`.
pub fn parse_version(data: &[u8], from: usize, to: usize) -> (r: Option<String>)
    requires
        from <= to <= data@.len(),
    ensures
        match (r, version_of(data@.subrange(from as int, to as int))) {
            (Some(s), Some(v)) => s@ == v,
            (None, None) => true,
            _ => false,
        },
{
    let ghost t = data@.subrange(from as int, to as int);
    if to - from <= 5 {
        return None;
    }
    let head = copy_range(data, from, from + 5);
    assert(head@ =~= t.subrange(0, 5));
    if !bytes_eq(head.as_slice(), &[72u8, 84u8, 84u8, 80u8, 47u8]) {
        return None;
    }
    let start = from + 5;
    let ghost v = data@.subrange(start as int, to as int);
    assert(v =~= t.subrange(5, t.len() as int));
    if !is_digit(data[start]) || !is_digit(data[to - 1]) {
        return None;
    }
    let mut i = start;
    let mut seen_dot = false;
    while i < to
        invariant
            start <= i <= to,
            to <= data@.len(),
            v == data@.subrange(start as int, to as int),
            v == t.subrange(5, t.len() as int),
            t == data@.subrange(from as int, to as int),
            t.len() > 5,
            forall|k: int| 0 <= k < i - start ==> is_digit_byte(#[trigger] v[k]) || v[k] == 46u8,
            seen_dot == (exists|k: int| 0 <= k < i - start && #[trigger] v[k] == 46u8),
            forall|a: int, b: int| 0 <= a < b < i - start && #[trigger] v[a] == 46u8 ==> #[trigger] v[b] != 46u8,
        decreases to - i,
    {
        let c = data[i];
        assert(v[i - start] == c);
        if c == 46u8 {
            if seen_dot {
                proof {
                    let k = choose|k: int| 0 <= k < i - start && #[trigger] v[k] == 46u8;
                    assert(v[k] == 46u8 && v[i - start] == 46u8);
                    assert(!is_version(v));
                }
                return None;
            }
            seen_dot = true;
        } else if !is_digit(c) {
            assert(!(is_digit_byte(v[i - start]) || v[i - start] == 46u8));
            assert(!is_version(v));
            return None;
        }
        i = i + 1;
    }
    let body = copy_range(data, start, to);
    utf8_string(body.as_slice())
}

fn is_digit(b: u8) -> (r: bool)
    ensures
        r == is_digit_byte(b),
{
    48 <= b && b <= 57
}

/// The fields after setting `key: value` in an optional map, made when absent.
pub fn with_field(headers: Option<HeaderMap>, key: &str, value: &str) -> (r: Option<HeaderMap>)
    requires
        opt_wf(headers),
    ensures
        r matches Some(m) && m.wf() && m@ == inserted(fields_of(headers), key@, value@),
{
    let mut m = match headers {
        Some(m) => m,
        None => HeaderMap::new(),
    };
    m.insert(key, value);
    Some(m)
}

/// Each line holds a field, `name: value`, and no two names are the same.
pub open spec fn field_lines_ok(ls: Seq<Seq<u8>>) -> bool {
    &&& forall|i: int| 0 <= i < ls.len() ==> (#[trigger] line_field(ls[i])) is Some
    &&& names_unique(ls.map_values(|l: Seq<u8>| line_field(l)->0))
}

/// A well-formed header block: a first line, lines that each hold a field
/// with a name of its own, and the blank line that ends the block.
pub open spec fn is_head_block(b: Seq<u8>) -> bool {
    let ls = split_lines(b);
    &&& valid_utf8(b)
    &&& ls.len() >= 3
    &&& ls[ls.len() - 1].len() == 0
    &&& ls[ls.len() - 2].len() == 0
    &&& field_lines_ok(ls.subrange(1, ls.len() - 2))
}

/// Lines, each followed by a CRLF.
pub open spec fn lines_bytes(ls: Seq<Seq<u8>>) -> Seq<u8>
    decreases ls.len(),
{
    if ls.len() == 0 {
        Seq::empty()
    } else {
        ls[0] + crlf() + lines_bytes(ls.drop_first())
    }
}

proof fn lemma_lines_bytes_last(ls: Seq<Seq<u8>>)
    requires
        ls.len() > 0,
    ensures
        lines_bytes(ls) == lines_bytes(ls.drop_last()) + ls.last() + crlf(),
    decreases ls.len(),
{
    if ls.len() > 1 {
        lemma_lines_bytes_last(ls.drop_first());
        assert(ls.drop_first().drop_last() =~= ls.drop_last().drop_first());
        assert(ls.drop_first().last() == ls.last());
        assert(ls.drop_last()[0] == ls[0]);
        assert(lines_bytes(ls.drop_last()) == ls[0] + crlf() + lines_bytes(ls.drop_last().drop_first()));
        assert(lines_bytes(ls) == ls[0] + crlf() + lines_bytes(ls.drop_first()));
        let a = ls[0] + crlf();
        let m = lines_bytes(ls.drop_last().drop_first());
        let z = ls.last() + crlf();
        assert(lines_bytes(ls.drop_first()) =~= m + z);
        assert(a + (m + z) =~= ((a + m) + ls.last()) + crlf());
        assert(lines_bytes(ls) == a + (m + z));
        assert(lines_bytes(ls.drop_last()) == a + m);
    } else {
        assert(ls.drop_first() =~= Seq::<Seq<u8>>::empty());
        assert(ls.drop_last() =~= Seq::<Seq<u8>>::empty());
        assert(lines_bytes(ls.drop_first()) == Seq::<u8>::empty());
        assert(lines_bytes(ls.drop_last()) == Seq::<u8>::empty());
        assert(lines_bytes(ls) == ls[0] + crlf() + Seq::<u8>::empty());
        assert(lines_bytes(ls) =~= lines_bytes(ls.drop_last()) + ls.last() + crlf());
    }
}

proof fn lemma_join_blank_end(ls: Seq<Seq<u8>>)
    ensures
        join_lines(ls + seq![Seq::<u8>::empty(), Seq::<u8>::empty()]) == lines_bytes(ls) + crlf(),
    decreases ls.len(),
{
    let tail = seq![Seq::<u8>::empty(), Seq::<u8>::empty()];
    if ls.len() == 0 {
        assert(ls + tail =~= tail);
        assert(tail.drop_first() =~= seq![Seq::<u8>::empty()]);
        assert(join_lines(seq![Seq::<u8>::empty()]) == Seq::<u8>::empty());
        assert(join_lines(tail) == tail[0] + crlf() + join_lines(tail.drop_first()));
        assert(join_lines(tail) =~= lines_bytes(ls) + crlf());
    } else {
        lemma_join_blank_end(ls.drop_first());
        assert((ls + tail).drop_first() =~= ls.drop_first() + tail);
        assert(join_lines(ls + tail) =~= lines_bytes(ls) + crlf());
    }
}

proof fn lemma_field_line(l: Seq<u8>)
    requires
        line_field(l) is Some,
    ensures
        field_bytes(line_field(l)->0) == l + crlf(),
{
    lemma_first_from_props(l, colon_sp(), 0);
    let p = first_occurrence(l, colon_sp())->0;
    let name = l.subrange(0, p);
    let value = l.subrange(p + 2, l.len() as int);
    decode_utf8_encode_utf8(name);
    decode_utf8_encode_utf8(value);
    assert(l.subrange(p, p + 2) == colon_sp());
    assert(l =~= name + colon_sp() + value);
    assert(field_bytes(line_field(l)->0) =~= l + crlf());
}

proof fn lemma_fields_of_field_lines(ls: Seq<Seq<u8>>)
    requires
        field_lines_ok(ls),
    ensures
        fields_of_lines(ls) == ls.map_values(|l: Seq<u8>| line_field(l)->0),
        fields_bytes(fields_of_lines(ls)) == lines_bytes(ls),
    decreases ls.len(),
{
    let fs = ls.map_values(|l: Seq<u8>| line_field(l)->0);
    if ls.len() > 0 {
        let prev = ls.drop_last();
        let pfs = prev.map_values(|l: Seq<u8>| line_field(l)->0);
        assert(pfs =~= fs.drop_last());
        assert forall|i: int| 0 <= i < prev.len() implies (#[trigger] line_field(prev[i])) is Some by {
            assert(prev[i] == ls[i]);
        }
        assert(names_unique(pfs)) by {
            assert forall|a: int, b: int|
                0 <= a < pfs.len() && 0 <= b < pfs.len() && a != b implies !same_name(
                #[trigger] pfs[a].0,
                #[trigger] pfs[b].0,
            ) by {
                assert(pfs[a] == fs[a] && pfs[b] == fs[b]);
            }
        }
        lemma_fields_of_field_lines(prev);
        let f = line_field(ls.last())->0;
        assert(line_field(ls[ls.len() - 1]) is Some);
        assert(fs.last() == f);
        assert(!has_name(pfs, f.0)) by {
            if has_name(pfs, f.0) {
                let i = choose|i: int| 0 <= i < pfs.len() && same_name(#[trigger] pfs[i].0, f.0);
                assert(fs[i] == pfs[i]);
                assert(fs[ls.len() - 1] == f);
            }
        }
        assert(fields_of_lines(ls) =~= fs);
        lemma_field_line(ls.last());
        lemma_lines_bytes_last(ls);
        assert(fields_of_lines(ls).drop_last() =~= pfs);
    } else {
        assert(fields_of_lines(ls) =~= fs);
    }
}

/// A well-formed header block is its first line, the bytes of the fields that
/// it parses to, and a blank line.
pub proof fn lemma_head_block(b: Seq<u8>)
    requires
        is_head_block(b),
    ensures
        b == split_lines(b)[0] + crlf() + fields_bytes(fields_of_lines(split_lines(b).drop_first()))
            + crlf(),
{
    let ls = split_lines(b);
    let n = ls.len();
    let mid = ls.subrange(1, n - 2);
    let tail = seq![Seq::<u8>::empty(), Seq::<u8>::empty()];
    lemma_join_split(b);
    assert(ls[n - 1] =~= Seq::<u8>::empty());
    assert(ls[n - 2] =~= Seq::<u8>::empty());
    assert(ls.drop_first() =~= mid + tail);
    lemma_fields_of_field_lines(mid);
    lemma_join_blank_end(mid);
    assert(line_field(Seq::<u8>::empty()) is None) by {
        lemma_first_from_props(Seq::<u8>::empty(), colon_sp(), 0);
    }
    assert((mid + tail).drop_last().drop_last() =~= mid);
    assert((mid + tail).drop_last().last() =~= Seq::<u8>::empty());
    assert((mid + tail).last() =~= Seq::<u8>::empty());
    let x1 = (mid + tail).drop_last();
    assert(fields_of_lines(mid + tail) == fields_of_lines(x1));
    assert(fields_of_lines(x1) == fields_of_lines(x1.drop_last()));
    assert(fields_of_lines(mid + tail) == fields_of_lines(mid));
    assert(b == join_lines(ls));
    assert(join_lines(ls) == ls[0] + crlf() + join_lines(ls.drop_first()));
}

} // verus!
