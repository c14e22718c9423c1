use vstd::prelude::*;

verus! {

/// Carriage return.
pub const CR: u8 = 13;

/// Line feed.
pub const LF: u8 = 10;

/// Space.
pub const SP: u8 = 32;

/// Horizontal tab.
pub const HTAB: u8 = 9;

/// Optional whitespace inside a header line: a space or a horizontal tab.
pub open spec fn is_ows(b: u8) -> bool {
    b == SP || b == HTAB
}

/// The first position in `from..to` at which `s` holds `x`, or -1 when there is none.
pub open spec fn find_byte(s: Seq<u8>, x: u8, from: int, to: int) -> int
    decreases to - from,
{
    if from >= to {
        -1
    } else if s[from] == x {
        from
    } else {
        find_byte(s, x, from + 1, to)
    }
}

/// The first position at or after `from` at which `s` holds CR LF, or -1 when there is none.
pub open spec fn find_crlf(s: Seq<u8>, from: int) -> int
    decreases s.len() - from,
{
    if from + 1 >= s.len() {
        -1
    } else if s[from] == CR && s[from + 1] == LF {
        from
    } else {
        find_crlf(s, from + 1)
    }
}

/// The position of the first byte in `from..to` that is not whitespace (`to` if all are).
pub open spec fn skip_ows(s: Seq<u8>, from: int, to: int) -> int
    decreases to - from,
{
    if from >= to || !is_ows(s[from]) {
        from
    } else {
        skip_ows(s, from + 1, to)
    }
}

/// The end of `from..to` once trailing whitespace is dropped.
pub open spec fn back_ows(s: Seq<u8>, from: int, to: int) -> int
    decreases to - from,
{
    if to <= from || !is_ows(s[to - 1]) {
        to
    } else {
        back_ows(s, from, to - 1)
    }
}

/// An `Option<usize>` position as an integer, -1 standing for `None`.
pub open spec fn pos_or_neg(r: Option<usize>) -> int {
    match r {
        Some(i) => i as int,
        None => -1,
    }
}

/// What `find_byte` returns: -1 when `x` is absent, else the first position of `x`.
pub proof fn lemma_find_byte(s: Seq<u8>, x: u8, from: int, to: int)
    requires
        0 <= from <= to <= s.len(),
    ensures
        find_byte(s, x, from, to) == -1 ==> forall|i: int| from <= i < to ==> s[i] != x,
        find_byte(s, x, from, to) != -1 ==> from <= find_byte(s, x, from, to) < to
            && s[find_byte(s, x, from, to)] == x,
        forall|i: int| from <= i < to && i < find_byte(s, x, from, to) ==> s[i] != x,
    decreases to - from,
{
    if from < to && s[from] != x {
        lemma_find_byte(s, x, from + 1, to);
    }
}

/// What `find_crlf` returns: -1, or a position at or after `from` holding CR LF.
pub proof fn lemma_find_crlf(s: Seq<u8>, from: int)
    requires
        0 <= from,
    ensures
        find_crlf(s, from) == -1 || (from <= find_crlf(s, from) && find_crlf(s, from) + 1 < s.len()
            && s[find_crlf(s, from)] == CR && s[find_crlf(s, from) + 1] == LF),
    decreases s.len() - from,
{
    if from + 1 < s.len() && !(s[from] == CR && s[from + 1] == LF) {
        lemma_find_crlf(s, from + 1);
    }
}

/// `skip_ows` stays within its range.
pub proof fn lemma_skip_ows(s: Seq<u8>, from: int, to: int)
    requires
        from <= to,
    ensures
        from <= skip_ows(s, from, to) <= to,
    decreases to - from,
{
    if from < to && is_ows(s[from]) {
        lemma_skip_ows(s, from + 1, to);
    }
}

/// `back_ows` stays within its range.
pub proof fn lemma_back_ows(s: Seq<u8>, from: int, to: int)
    requires
        from <= to,
    ensures
        from <= back_ows(s, from, to) <= to,
    decreases to - from,
{
    if from < to && is_ows(s[to - 1]) {
        lemma_back_ows(s, from, to - 1);
    }
}

/// `find_byte` stops at the first occurrence.
pub proof fn lemma_find_byte_first(s: Seq<u8>, x: u8, from: int, to: int, j: int)
    requires
        0 <= from <= j < to <= s.len(),
        s[j] == x,
        forall|i: int| from <= i < j ==> s[i] != x,
    ensures
        find_byte(s, x, from, to) == j,
    decreases j - from,
{
    if from < j {
        lemma_find_byte_first(s, x, from + 1, to, j);
    }
}

/// `find_byte` finds nothing in a range without `x`.
pub proof fn lemma_find_byte_none(s: Seq<u8>, x: u8, from: int, to: int)
    requires
        0 <= from <= to <= s.len(),
        forall|i: int| from <= i < to ==> s[i] != x,
    ensures
        find_byte(s, x, from, to) == -1,
    decreases to - from,
{
    if from < to {
        lemma_find_byte_none(s, x, from + 1, to);
    }
}

/// `find_crlf` stops at a CR LF that no earlier CR precedes.
pub proof fn lemma_find_crlf_first(s: Seq<u8>, from: int, j: int)
    requires
        0 <= from <= j,
        j + 1 < s.len(),
        s[j] == CR,
        s[j + 1] == LF,
        forall|i: int| from <= i < j ==> s[i] != CR,
    ensures
        find_crlf(s, from) == j,
    decreases j - from,
{
    if from < j {
        lemma_find_crlf_first(s, from + 1, j);
    }
}

/// `skip_ows` on a range of `s` that repeats `t` at offset `off`.
pub proof fn lemma_skip_ows_shift(s: Seq<u8>, t: Seq<u8>, off: int, from: int, to: int)
    requires
        0 <= from <= to <= t.len(),
        forall|i: int| 0 <= i < t.len() ==> s[off + i] == t[i],
    ensures
        skip_ows(s, off + from, off + to) == off + skip_ows(t, from, to),
    decreases to - from,
{
    if from < to && is_ows(t[from]) {
        lemma_skip_ows_shift(s, t, off, from + 1, to);
    }
}

/// `back_ows` on a range of `s` that repeats `t` at offset `off`.
pub proof fn lemma_back_ows_shift(s: Seq<u8>, t: Seq<u8>, off: int, from: int, to: int)
    requires
        0 <= from <= to <= t.len(),
        forall|i: int| 0 <= i < t.len() ==> s[off + i] == t[i],
    ensures
        back_ows(s, off + from, off + to) == off + back_ows(t, from, to),
    decreases to - from,
{
    if from < to && is_ows(t[to - 1]) {
        lemma_back_ows_shift(s, t, off, from, to - 1);
    }
}

/// True when `buf[start..end]` holds exactly the bytes of `lit`.
pub fn slice_is(buf: &[u8], start: usize, end: usize, lit: &[u8]) -> (r: bool)
    requires
        start <= end <= buf@.len(),
    ensures
        r == (buf@.subrange(start as int, end as int) == lit@),
{
    if end - start != lit.len() {
        return false;
    }
    let mut i: usize = 0;
    while i < lit.len()
        invariant
            end - start == lit@.len(),
            start <= end <= buf@.len(),
            i <= lit@.len(),
            forall|j: int| 0 <= j < i ==> buf@[start + j] == lit@[j],
        decreases lit@.len() - i,
    {
        if buf[start + i] != lit[i] {
            assert(buf@.subrange(start as int, end as int)[i as int] != lit@[i as int]);
            return false;
        }
        i = i + 1;
    }
    assert(buf@.subrange(start as int, end as int) =~= lit@);
    true
}

/// The first position in `from..to` at which `buf` holds `x`.
pub fn find_byte_in(buf: &[u8], x: u8, from: usize, to: usize) -> (r: Option<usize>)
    requires
        from <= to <= buf@.len(),
    ensures
        pos_or_neg(r) == find_byte(buf@, x, from as int, to as int),
{
    let mut i = from;
    while i < to
        invariant
            from <= i <= to <= buf@.len(),
            find_byte(buf@, x, from as int, to as int) == find_byte(buf@, x, i as int, to as int),
        decreases to - i,
    {
        if buf[i] == x {
            return Some(i);
        }
        i = i + 1;
    }
    None
}

/// The first position at or after `from` at which `buf` holds CR LF.
pub fn find_crlf_in(buf: &[u8], from: usize) -> (r: Option<usize>)
    ensures
        pos_or_neg(r) == find_crlf(buf@, from as int),
{
    let mut i = from;
    while i < buf.len() && i + 1 < buf.len()
        invariant
            from <= i,
            find_crlf(buf@, from as int) == find_crlf(buf@, i as int),
        decreases buf@.len() - i,
    {
        if buf[i] == CR && buf[i + 1] == LF {
            return Some(i);
        }
        i = i + 1;
    }
    None
}

/// The position of the first byte in `from..to` that is not whitespace.
pub fn skip_ows_in(buf: &[u8], from: usize, to: usize) -> (r: usize)
    requires
        from <= to <= buf@.len(),
    ensures
        r == skip_ows(buf@, from as int, to as int),
{
    let mut i = from;
    while i < to && (buf[i] == SP || buf[i] == HTAB)
        invariant
            from <= i <= to <= buf@.len(),
            skip_ows(buf@, from as int, to as int) == skip_ows(buf@, i as int, to as int),
        decreases to - i,
    {
        i = i + 1;
    }
    i
}

/// The end of `from..to` once trailing whitespace is dropped.
pub fn back_ows_in(buf: &[u8], from: usize, to: usize) -> (r: usize)
    requires
        from <= to <= buf@.len(),
    ensures
        r == back_ows(buf@, from as int, to as int),
{
    let mut j = to;
    while j > from && (buf[j - 1] == SP || buf[j - 1] == HTAB)
        invariant
            from <= j <= to <= buf@.len(),
            back_ows(buf@, from as int, to as int) == back_ows(buf@, from as int, j as int),
        decreases j - from,
    {
        j = j - 1;
    }
    j
}

} // verus!
