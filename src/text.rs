use vstd::prelude::*;
use vstd::string::*;
use vstd::utf8::*;

verus! {

/// A byte with ASCII capitals turned into small letters.
pub open spec fn fold_byte(b: u8) -> u8 {
    if 65 <= b <= 90 {
        (b + 32) as u8
    } else {
        b
    }
}

/// The UTF-8 encoding of `s`, ASCII capitals turned into small letters.
pub open spec fn folded(s: Seq<char>) -> Seq<u8> {
    encode_utf8(s).map_values(|b: u8| fold_byte(b))
}

/// Two names are the same when they agree but for the case of ASCII letters.
pub open spec fn same_name(a: Seq<char>, b: Seq<char>) -> bool {
    folded(a) == folded(b)
}

fn fold(b: u8) -> (r: u8)
    ensures
        r == fold_byte(b),
{
    if 65 <= b && b <= 90 {
        b + 32
    } else {
        b
    }
}

/// Compares two texts without regard to the case of ASCII letters.
pub fn eq_ignore_case(a: &str, b: &str) -> (r: bool)
    ensures
        r == same_name(a@, b@),
{
    let x = a.as_bytes();
    let y = b.as_bytes();
    if x.len() != y.len() {
        assert(folded(a@).len() != folded(b@).len());
        return false;
    }
    let mut i: usize = 0;
    while i < x.len()
        invariant
            i <= x@.len(),
            x@.len() == y@.len(),
            x@ == encode_utf8(a@),
            y@ == encode_utf8(b@),
            forall|j: int| 0 <= j < i ==> fold_byte(#[trigger] x@[j]) == fold_byte(y@[j]),
        decreases x@.len() - i,
    {
        if fold(x[i]) != fold(y[i]) {
            assert(folded(a@)[i as int] != folded(b@)[i as int]);
            return false;
        }
        i = i + 1;
    }
    assert(folded(a@) =~= folded(b@));
    true
}

/// Relies on `String::from_utf8`: it succeeds exactly on valid UTF-8, and
/// the string then holds the decoded characters.
#[verifier::external_body]
pub(crate) fn utf8_string(b: &[u8]) -> (r: Option<String>)
    ensures
        r.is_some() == valid_utf8(b@),
        r matches Some(s) ==> s@ == decode_utf8(b@),
{
    String::from_utf8(b.to_vec()).ok()
}

pub open spec fn is_dec_digit(c: char) -> bool {
    '0' <= c && c <= '9'
}

pub open spec fn all_dec_digits(s: Seq<char>) -> bool {
    forall|i: int| 0 <= i < s.len() ==> is_dec_digit(#[trigger] s[i])
}

/// The value of a sequence of decimal digits.
pub open spec fn dec_value(s: Seq<char>) -> int
    decreases s.len(),
{
    if s.len() == 0 {
        0
    } else {
        dec_value(s.drop_last()) * 10 + (s.last() as int - '0' as int)
    }
}

/// `s` is a non-empty run of decimal digits whose value fits in `max`.
pub open spec fn dec_in_range(s: Seq<char>, max: int) -> bool {
    s.len() > 0 && all_dec_digits(s) && dec_value(s) <= max
}

proof fn lemma_dec_value_grows(s: Seq<char>, i: int)
    requires
        0 <= i <= s.len(),
        all_dec_digits(s),
    ensures
        0 <= dec_value(s.subrange(0, i)) <= dec_value(s),
    decreases s.len() - i,
{
    if i < s.len() {
        lemma_dec_value_grows(s, i + 1);
        assert(s.subrange(0, i + 1).drop_last() =~= s.subrange(0, i));
    } else {
        assert(s.subrange(0, i) =~= s);
        lemma_dec_value_nonneg(s);
    }
}

pub proof fn lemma_dec_value_nonneg(s: Seq<char>)
    requires
        all_dec_digits(s),
    ensures
        dec_value(s) >= 0,
    decreases s.len(),
{
    if s.len() > 0 {
        lemma_dec_value_nonneg(s.drop_last());
    }
}

/// Reads a decimal number: some digits, with nothing else around them.
pub fn parse_decimal(s: &str) -> (r: Option<u64>)
    ensures
        r.is_some() == dec_in_range(s@, u64::MAX as int),
        r matches Some(n) ==> n as int == dec_value(s@),
{
    let len = s.unicode_len();
    if len == 0 {
        return None;
    }
    let mut v: u64 = 0;
    let mut i: usize = 0;
    while i < len
        invariant
            len == s@.len(),
            i <= len,
            all_dec_digits(s@.subrange(0, i as int)),
            v as int == dec_value(s@.subrange(0, i as int)),
        decreases len - i,
    {
        let c = s.get_char(i);
        if c < '0' || c > '9' {
            assert(!all_dec_digits(s@));
            return None;
        }
        let d = (c as u32 - '0' as u32) as u64;
        assert(s@.subrange(0, i + 1).drop_last() =~= s@.subrange(0, i as int));
        match v.checked_mul(10) {
            Some(m) => match m.checked_add(d) {
                Some(n) => {
                    v = n;
                },
                None => {
                    proof {
                        digits_prefix_overflow(s@, i as int + 1);
                    }
                    return None;
                },
            },
            None => {
                proof {
                    digits_prefix_overflow(s@, i as int + 1);
                }
                return None;
            },
        }
        i = i + 1;
    }
    assert(s@.subrange(0, len as int) =~= s@);
    Some(v)
}

/// A prefix whose value is too large makes the whole value too large,
/// or the whole is not made of digits.
proof fn digits_prefix_overflow(s: Seq<char>, i: int)
    requires
        0 < i <= s.len(),
        all_dec_digits(s.subrange(0, i - 1)),
        is_dec_digit(s[i - 1]),
        dec_value(s.subrange(0, i)) > u64::MAX as int,
    ensures
        !dec_in_range(s, u64::MAX as int),
{
    if all_dec_digits(s) {
        lemma_dec_value_grows(s, i);
    }
}

/// The decimal digits of `n`, without leading zeros.
pub open spec fn dec_chars(n: nat) -> Seq<char>
    decreases n,
{
    if n < 10 {
        seq![digit_char(n)]
    } else {
        dec_chars(n / 10).push(digit_char(n % 10))
    }
}

pub open spec fn digit_char(d: nat) -> char {
    if d == 0 { '0' }
    else if d == 1 { '1' }
    else if d == 2 { '2' }
    else if d == 3 { '3' }
    else if d == 4 { '4' }
    else if d == 5 { '5' }
    else if d == 6 { '6' }
    else if d == 7 { '7' }
    else if d == 8 { '8' }
    else { '9' }
}

fn digit_str(d: u64) -> (r: &'static str)
    requires
        d < 10,
    ensures
        r@ == seq![digit_char(d as nat)],
{
    proof {
        reveal_strlit("0");
        reveal_strlit("1");
        reveal_strlit("2");
        reveal_strlit("3");
        reveal_strlit("4");
        reveal_strlit("5");
        reveal_strlit("6");
        reveal_strlit("7");
        reveal_strlit("8");
        reveal_strlit("9");
    }
    if d == 0 { "0" }
    else if d == 1 { "1" }
    else if d == 2 { "2" }
    else if d == 3 { "3" }
    else if d == 4 { "4" }
    else if d == 5 { "5" }
    else if d == 6 { "6" }
    else if d == 7 { "7" }
    else if d == 8 { "8" }
    else { "9" }
}

/// Appends the decimal form of `n` to `out`.
pub fn push_decimal(out: &mut String, n: u64)
    ensures
        final(out)@ == old(out)@ + dec_chars(n as nat),
    decreases n,
{
    if n < 10 {
        out.append(digit_str(n));
    } else {
        push_decimal(out, n / 10);
        out.append(digit_str(n % 10));
    }
}

/// The decimal form of `n`.
pub fn decimal_string(n: u64) -> (r: String)
    ensures
        r@ == dec_chars(n as nat),
{
    let mut s = String::new();
    push_decimal(&mut s, n);
    s
}

/// Decimal digits read back give the number they were written from.
pub proof fn lemma_dec_chars_value(n: nat)
    ensures
        dec_chars(n).len() > 0,
        all_dec_digits(dec_chars(n)),
        dec_value(dec_chars(n)) == n,
    decreases n,
{
    if n >= 10 {
        lemma_dec_chars_value(n / 10);
        lemma_digit_char(n % 10);
        assert(dec_chars(n).drop_last() =~= dec_chars(n / 10));
        assert forall|i: int| 0 <= i < dec_chars(n).len() implies is_dec_digit(
            #[trigger] dec_chars(n)[i],
        ) by {
            if i < dec_chars(n).len() - 1 {
                assert(dec_chars(n)[i] == dec_chars(n / 10)[i]);
            }
        }
        assert(dec_chars(n).last() == digit_char(n % 10));
        assert(dec_value(dec_chars(n)) == dec_value(dec_chars(n / 10)) * 10 + (n % 10));
        assert(n == (n / 10) * 10 + n % 10);
    } else {
        lemma_digit_char(n);
        assert(dec_chars(n).drop_last() =~= Seq::<char>::empty());
        assert(dec_value(dec_chars(n)) == dec_value(Seq::<char>::empty()) * 10 + (n as int));
    }
}

proof fn lemma_digit_char(d: nat)
    requires
        d < 10,
    ensures
        is_dec_digit(digit_char(d)),
        digit_char(d) as int - '0' as int == d,
{
}

} // verus!
