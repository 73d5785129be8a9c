use vstd::prelude::*;

verus! {

/// The byte contents of a list of lines.
pub open spec fn lines_view(v: Seq<Vec<u8>>) -> Seq<Seq<u8>> {
    v.map_values(|l: Vec<u8>| l@)
}

/// `pat` occurs in `s` starting at index `i`.
pub open spec fn occurs_at(s: Seq<u8>, pat: Seq<u8>, i: int) -> bool {
    0 <= i && i + pat.len() <= s.len() && s.subrange(i, i + pat.len()) == pat
}

/// The first index at or after `i` where `pat` occurs in `s`.
pub open spec fn first_from(s: Seq<u8>, pat: Seq<u8>, i: int) -> Option<int>
    decreases s.len() + 1 - i,
{
    if i < 0 || i + pat.len() > s.len() {
        None
    } else if occurs_at(s, pat, i) {
        Some(i)
    } else {
        first_from(s, pat, i + 1)
    }
}

/// The first index where the non-empty pattern `pat` occurs in `s`.
pub open spec fn first_occurrence(s: Seq<u8>, pat: Seq<u8>) -> Option<int> {
    if pat.len() == 0 {
        None
    } else {
        first_from(s, pat, 0)
    }
}

/// An executable index agrees with a mathematical one.
pub open spec fn same_index(r: Option<usize>, m: Option<int>) -> bool {
    match (r, m) {
        (Some(a), Some(b)) => a as int == b,
        (None, None) => true,
        _ => false,
    }
}

pub proof fn lemma_first_from_props(s: Seq<u8>, pat: Seq<u8>, i: int)
    requires
        0 <= i,
    ensures
        match first_from(s, pat, i) {
            Some(k) => i <= k && occurs_at(s, pat, k) && forall|j: int|
                i <= j < k ==> !occurs_at(s, pat, j),
            None => forall|j: int| i <= j ==> !occurs_at(s, pat, j),
        },
    decreases s.len() + 1 - i,
{
    if i + pat.len() > s.len() {
    } else if occurs_at(s, pat, i) {
    } else {
        lemma_first_from_props(s, pat, i + 1);
    }
}

/// Searching from `pos + i` finds what searching the tail from `pos` finds at `i`, shifted.
pub proof fn lemma_first_from_shift(s: Seq<u8>, pat: Seq<u8>, pos: int, i: int)
    requires
        0 <= pos <= s.len(),
        0 <= i,
    ensures
        same_shift(first_from(s, pat, pos + i), first_from(s.subrange(pos, s.len() as int), pat, i), pos),
    decreases s.len() - pos - i + 1,
{
    let sub = s.subrange(pos, s.len() as int);
    if pos + i + pat.len() > s.len() {
    } else {
        assert(sub.subrange(i, i + pat.len()) =~= s.subrange(pos + i, pos + i + pat.len()));
        if !occurs_at(s, pat, pos + i) {
            lemma_first_from_shift(s, pat, pos, i + 1);
        }
    }
}

pub open spec fn same_shift(a: Option<int>, b: Option<int>, d: int) -> bool {
    match (a, b) {
        (Some(x), Some(y)) => x == y + d,
        (None, None) => true,
        _ => false,
    }
}

/// Searches `main` from index `start` for the first occurrence of `end`.
pub fn find_from(main: &[u8], end: &[u8], start: usize) -> (r: Option<usize>)
    requires
        end@.len() > 0,
        start <= main@.len(),
    ensures
        same_index(r, first_from(main@, end@, start as int)),
{
    let len = end.len();
    let mut i = start;
    if main.len() < len {
        return None;
    }
    while i <= main.len() - len
        invariant
            start <= i,
            len == end@.len(),
            len <= main@.len(),
            first_from(main@, end@, start as int) == first_from(main@, end@, i as int),
        decreases main@.len() - i,
    {
        let mut j: usize = 0;
        let mut same = true;
        while j < len
            invariant
                i + len <= main@.len(),
                main@.len() == main.len(),
                len == end@.len(),
                j <= len,
                same == (forall|t: int| 0 <= t < j ==> main@[i + t] == end@[t]),
            decreases len - j,
        {
            if main[i + j] != end[j] {
                same = false;
            }
            j = j + 1;
        }
        assert(same == occurs_at(main@, end@, i as int)) by {
            if same {
                assert(main@.subrange(i as int, i + len) =~= end@);
            } else if occurs_at(main@, end@, i as int) {
                assert forall|t: int| 0 <= t < len implies main@[i + t] == end@[t] by {
                    assert(main@.subrange(i as int, i + len)[t] == main@[i + t]);
                }
            }
        }
        if same {
            return Some(i);
        }
        i = i + 1;
    }
    None
}

/// Returns the index of the first occurrence of `end` in `main`, or `None`
/// when `end` is empty or never occurs.
pub fn slice_find_to_end(main: &[u8], end: &[u8]) -> (r: Option<usize>)
    ensures
        same_index(r, first_occurrence(main@, end@)),
        match r {
            Some(k) => occurs_at(main@, end@, k as int) && forall|j: int|
                0 <= j < k ==> !occurs_at(main@, end@, j),
            None => end@.len() == 0 || forall|j: int| 0 <= j ==> !occurs_at(main@, end@, j),
        },
{
    proof {
        lemma_first_from_props(main@, end@, 0);
    }
    if end.len() == 0 {
        None
    } else {
        find_from(main, end, 0)
    }
}

/// Copies `data[from..to]`.
pub fn copy_range(data: &[u8], from: usize, to: usize) -> (r: Vec<u8>)
    requires
        from <= to <= data@.len(),
    ensures
        r@ == data@.subrange(from as int, to as int),
{
    let mut r: Vec<u8> = Vec::new();
    let mut i = from;
    while i < to
        invariant
            from <= i <= to,
            to <= data@.len(),
            r@ == data@.subrange(from as int, i as int),
        decreases to - i,
    {
        r.push(data[i]);
        i = i + 1;
        assert(r@ =~= data@.subrange(from as int, i as int));
    }
    r
}

} // verus!
