//! Byte-level building blocks shared by the parser, the router and the
//! response writer: whitespace, ASCII case folding, searching, and decimal
//! numbers.
use vstd::prelude::*;

verus! {

/// ASCII whitespace as Rust's `char::is_whitespace` sees it below 128:
/// space, tab, line feed, vertical tab, form feed, carriage return.
pub open spec fn is_ws(b: u8) -> bool {
    b == 32 || (9 <= b && b <= 13)
}

pub fn is_ws_byte(b: u8) -> (r: bool)
    ensures
        r == is_ws(b),
{
    b == 32 || (9 <= b && b <= 13)
}

/// ASCII lower-casing of one byte; other bytes are unchanged.
pub open spec fn lower(b: u8) -> u8 {
    if 65 <= b && b <= 90 {
        (b + 32) as u8
    } else {
        b
    }
}

/// Equality of two byte strings up to ASCII case.
pub open spec fn eq_ignore_case(a: Seq<u8>, b: Seq<u8>) -> bool {
    a.len() == b.len() && forall|i: int| 0 <= i < a.len() ==> lower(#[trigger] a[i]) == lower(b[i])
}

pub open spec fn starts_with(s: Seq<u8>, p: Seq<u8>) -> bool {
    p.len() <= s.len() && s.subrange(0, p.len() as int) == p
}

/// `needle` occurs in `hay` at position `i`.
pub open spec fn occurs_at(hay: Seq<u8>, needle: Seq<u8>, i: int) -> bool {
    0 <= i && i + needle.len() <= hay.len() && hay.subrange(i, i + needle.len()) == needle
}

pub open spec fn contains(hay: Seq<u8>, needle: Seq<u8>) -> bool {
    exists|i: int| occurs_at(hay, needle, i)
}

/// The first index at or after `i` that holds `b`, or the length of `s`.
pub open spec fn find_from(s: Seq<u8>, b: u8, i: int) -> int
    decreases s.len() - i,
{
    if i < 0 || i >= s.len() {
        s.len() as int
    } else if s[i] == b {
        i
    } else {
        find_from(s, b, i + 1)
    }
}

/// `s` without its trailing whitespace.
pub open spec fn trim_end(s: Seq<u8>) -> Seq<u8>
    decreases s.len(),
{
    if s.len() > 0 && is_ws(s.last()) {
        trim_end(s.drop_last())
    } else {
        s
    }
}

/// The first index at or after `i` that holds no whitespace, or the length.
pub open spec fn skip_ws(s: Seq<u8>, i: int) -> int
    decreases s.len() - i,
{
    if i < 0 || i >= s.len() {
        s.len() as int
    } else if is_ws(s[i]) {
        skip_ws(s, i + 1)
    } else {
        i
    }
}

/// The first index at or after `i` that holds whitespace, or the length.
pub open spec fn token_end(s: Seq<u8>, i: int) -> int
    decreases s.len() - i,
{
    if i < 0 || i >= s.len() {
        s.len() as int
    } else if is_ws(s[i]) {
        i
    } else {
        token_end(s, i + 1)
    }
}

/// Decimal digits of `n`, most significant first, without leading zeros.
pub open spec fn decimal(n: nat) -> Seq<u8>
    decreases n,
{
    if n < 10 {
        seq![(48 + n) as u8]
    } else {
        decimal(n / 10).push((48 + n % 10) as u8)
    }
}

pub open spec fn is_digit(b: u8) -> bool {
    48 <= b && b <= 57
}

/// The number that a non-empty run of decimal digits stands for.
pub open spec fn digits_value(s: Seq<u8>) -> nat
    decreases s.len(),
{
    if s.len() == 0 {
        0
    } else {
        digits_value(s.drop_last()) * 10 + (s.last() - 48) as nat
    }
}

/// `s` without one leading `+`, if it has one.
pub open spec fn unsigned_part(s: Seq<u8>) -> Seq<u8> {
    if s.len() > 0 && s[0] == 43 {
        s.drop_first()
    } else {
        s
    }
}

/// What `usize::from_str` accepts: an optional `+`, then one or more digits
/// whose value fits in a `usize`.
pub open spec fn parse_usize(s: Seq<u8>) -> Option<nat> {
    let d = unsigned_part(s);
    if d.len() > 0 && (forall|i: int| 0 <= i < d.len() ==> is_digit(#[trigger] d[i]))
        && digits_value(d) <= usize::MAX {
        Some(digits_value(d))
    } else {
        None
    }
}

pub fn lower_byte(b: u8) -> (r: u8)
    ensures
        r == lower(b),
{
    if 65 <= b && b <= 90 {
        b + 32
    } else {
        b
    }
}

pub fn bytes_eq_ignore_case(a: &[u8], b: &[u8]) -> (r: bool)
    ensures
        r == eq_ignore_case(a@, b@),
{
    if a.len() != b.len() {
        return false;
    }
    let mut i: usize = 0;
    while i < a.len()
        invariant
            a@.len() == b@.len(),
            i <= a@.len(),
            forall|k: int| 0 <= k < i ==> lower(#[trigger] a@[k]) == lower(b@[k]),
        decreases a@.len() - i,
    {
        if lower_byte(a[i]) != lower_byte(b[i]) {
            return false;
        }
        i = i + 1;
    }
    true
}

pub fn bytes_eq(a: &[u8], b: &[u8]) -> (r: bool)
    ensures
        r == (a@ == b@),
{
    if a.len() != b.len() {
        return false;
    }
    let mut i: usize = 0;
    while i < a.len()
        invariant
            a@.len() == b@.len(),
            i <= a@.len(),
            forall|k: int| 0 <= k < i ==> a@[k] == b@[k],
        decreases a@.len() - i,
    {
        if a[i] != b[i] {
            return false;
        }
        i = i + 1;
    }
    assert(a@ =~= b@);
    true
}

/// Whether `needle` occurs in `hay` at position `at`.
pub fn matches_at(hay: &[u8], needle: &[u8], at: usize) -> (r: bool)
    ensures
        r == occurs_at(hay@, needle@, at as int),
{
    let n = hay.len();
    if at > n || needle.len() > n - at {
        return false;
    }
    let mut i: usize = 0;
    while i < needle.len()
        invariant
            n == hay@.len(),
            at + needle@.len() <= hay@.len(),
            i <= needle@.len(),
            forall|k: int| 0 <= k < i ==> hay@[at + k] == needle@[k],
        decreases needle@.len() - i,
    {
        if hay[at + i] != needle[i] {
            assert(hay@.subrange(at as int, at + needle@.len())[i as int] != needle@[i as int]);
            return false;
        }
        i = i + 1;
    }
    assert(hay@.subrange(at as int, at + needle@.len()) =~= needle@);
    true
}

pub fn has_prefix(s: &[u8], p: &[u8]) -> (r: bool)
    ensures
        r == starts_with(s@, p@),
{
    matches_at(s, p, 0)
}

pub fn contains_bytes(hay: &[u8], needle: &[u8]) -> (r: bool)
    ensures
        r == contains(hay@, needle@),
{
    if needle.len() > hay.len() {
        return false;
    }
    let last = hay.len() - needle.len();
    let mut i: usize = 0;
    loop
        invariant
            needle@.len() <= hay@.len(),
            last == hay@.len() - needle@.len(),
            i <= last,
            forall|k: int| 0 <= k < i ==> !occurs_at(hay@, needle@, k),
        decreases last - i,
    {
        if matches_at(hay, needle, i) {
            return true;
        }
        if i == last {
            proof { lemma_no_occurrence(hay@, needle@); }
            return false;
        }
        i = i + 1;
    }
}

proof fn lemma_no_occurrence(hay: Seq<u8>, needle: Seq<u8>)
    requires
        needle.len() <= hay.len(),
        forall|k: int| 0 <= k < hay.len() - needle.len() + 1 ==> !occurs_at(hay, needle, k),
    ensures
        !contains(hay, needle),
{
}

/// A copy of `s[from..to]`.
pub fn copy_range(s: &[u8], from: usize, to: usize) -> (r: Vec<u8>)
    requires
        from <= to <= s@.len(),
    ensures
        r@ == s@.subrange(from as int, to as int),
{
    let mut r: Vec<u8> = Vec::new();
    let mut i: usize = from;
    while i < to
        invariant
            from <= i <= to <= s@.len(),
            r@ == s@.subrange(from as int, i as int),
        decreases to - i,
    {
        r.push(s[i]);
        assert(r@ =~= s@.subrange(from as int, i + 1));
        i = i + 1;
    }
    r
}

/// Appends `s` to `out`.
pub fn append(out: &mut Vec<u8>, s: &[u8])
    ensures
        final(out)@ == old(out)@ + s@,
{
    let ghost start = out@;
    let mut i: usize = 0;
    while i < s.len()
        invariant
            i <= s@.len(),
            out@ == start + s@.subrange(0, i as int),
        decreases s@.len() - i,
    {
        out.push(s[i]);
        assert(out@ =~= start + s@.subrange(0, i + 1));
        i = i + 1;
    }
    assert(s@.subrange(0, s@.len() as int) =~= s@);
}

pub fn find_byte(s: &[u8], b: u8, from: usize) -> (r: usize)
    requires
        from <= s@.len(),
    ensures
        r as int == find_from(s@, b, from as int),
        from <= r <= s@.len(),
{
    let mut i: usize = from;
    while i < s.len()
        invariant
            from <= i <= s@.len(),
            find_from(s@, b, from as int) == find_from(s@, b, i as int),
        decreases s@.len() - i,
    {
        if s[i] == b {
            return i;
        }
        i = i + 1;
    }
    i
}

pub fn trim_end_len(s: &[u8]) -> (r: usize)
    ensures
        r <= s@.len(),
        s@.subrange(0, r as int) == trim_end(s@),
{
    let mut n: usize = s.len();
    assert(s@.subrange(0, n as int) =~= s@);
    while n > 0 && is_ws_byte(s[n - 1])
        invariant
            n <= s@.len(),
            trim_end(s@.subrange(0, n as int)) == trim_end(s@),
        decreases n,
    {
        assert(s@.subrange(0, n as int).drop_last() =~= s@.subrange(0, n - 1));
        n = n - 1;
    }
    n
}

pub fn skip_whitespace(s: &[u8], from: usize) -> (r: usize)
    requires
        from <= s@.len(),
    ensures
        r as int == skip_ws(s@, from as int),
        from <= r <= s@.len(),
{
    let mut i: usize = from;
    while i < s.len() && is_ws_byte(s[i])
        invariant
            from <= i <= s@.len(),
            skip_ws(s@, from as int) == skip_ws(s@, i as int),
        decreases s@.len() - i,
    {
        i = i + 1;
    }
    i
}

pub fn end_of_token(s: &[u8], from: usize) -> (r: usize)
    requires
        from <= s@.len(),
    ensures
        r as int == token_end(s@, from as int),
        from <= r <= s@.len(),
{
    let mut i: usize = from;
    while i < s.len() && !is_ws_byte(s[i])
        invariant
            from <= i <= s@.len(),
            token_end(s@, from as int) == token_end(s@, i as int),
        decreases s@.len() - i,
    {
        i = i + 1;
    }
    i
}

/// The decimal digits of `n`.
pub fn decimal_bytes(n: usize) -> (r: Vec<u8>)
    ensures
        r@ == decimal(n as nat),
    decreases n,
{
    if n < 10 {
        let d: u8 = (48 + n) as u8;
        let mut r: Vec<u8> = Vec::new();
        r.push(d);
        assert(r@ =~= seq![(48 + n) as u8]);
        r
    } else {
        let mut r = decimal_bytes(n / 10);
        let d: u8 = (48 + n % 10) as u8;
        r.push(d);
        r
    }
}

/// Parses a byte string as `usize::from_str` would.
pub fn parse_usize_bytes(s: &[u8]) -> (r: Option<usize>)
    ensures
        r matches Some(v) ==> parse_usize(s@) == Some(v as nat),
        r is None ==> parse_usize(s@) is None,
{
    let start: usize = if s.len() > 0 && s[0] == 43 { 1 } else { 0 };
    let ghost d = unsigned_part(s@);
    assert(d =~= s@.subrange(start as int, s@.len() as int));
    if start >= s.len() {
        return None;
    }
    let mut value: usize = 0;
    let mut i: usize = start;
    while i < s.len()
        invariant
            start <= i <= s@.len(),
            d == s@.subrange(start as int, s@.len() as int),
            d == unsigned_part(s@),
            forall|k: int| start <= k < i ==> is_digit(#[trigger] s@[k]),
            value as nat == digits_value(s@.subrange(start as int, i as int)),
        decreases s@.len() - i,
    {
        let c = s[i];
        if !(48 <= c && c <= 57) {
            proof {
                assert(!is_digit(d[i - start]));
                lemma_not_digit(s@, i - start);
            }
            return None;
        }
        let ghost prefix = s@.subrange(start as int, i + 1);
        assert(prefix.drop_last() =~= s@.subrange(start as int, i as int));
        match value.checked_mul(10) {
            Some(m) => match m.checked_add((c - 48) as usize) {
                Some(v) => {
                    value = v;
                },
                None => {
                    proof { overflow_means_none(s@, d, start as int, i as int, value as nat); }
                    return None;
                },
            },
            None => {
                proof { overflow_means_none(s@, d, start as int, i as int, value as nat); }
                return None;
            },
        }
        i = i + 1;
    }
    assert(s@.subrange(start as int, i as int) =~= d);
    assert forall|k: int| 0 <= k < d.len() implies is_digit(#[trigger] d[k]) by {
        assert(d[k] == s@[start + k]);
    }
    Some(value)
}

proof fn lemma_not_digit(s: Seq<u8>, k: int)
    requires
        0 <= k < unsigned_part(s).len(),
        !is_digit(unsigned_part(s)[k]),
    ensures
        parse_usize(s) is None,
{
}

proof fn lemma_too_large(s: Seq<u8>)
    requires
        digits_value(unsigned_part(s)) > usize::MAX,
    ensures
        parse_usize(s) is None,
{
}

proof fn overflow_means_none(s: Seq<u8>, d: Seq<u8>, start: int, i: int, value: nat)
    requires
        0 <= start <= i < s.len(),
        d == s.subrange(start, s.len() as int),
        d == unsigned_part(s),
        is_digit(s[i]),
        value == digits_value(s.subrange(start, i)),
        value * 10 + (s[i] - 48) > usize::MAX,
    ensures
        digits_value(d) > usize::MAX,
{
    let p = s.subrange(start, i + 1);
    assert(p.drop_last() =~= s.subrange(start, i));
    assert(d.subrange(0, i + 1 - start) =~= p);
    lemma_digits_monotone(d, i + 1 - start);
    lemma_too_large(s);
}

/// A longer run of digits never stands for a smaller number.
proof fn lemma_digits_monotone(d: Seq<u8>, n: int)
    requires
        0 <= n <= d.len(),
    ensures
        digits_value(d.subrange(0, n)) <= digits_value(d),
    decreases d.len() - n,
{
    if n < d.len() {
        lemma_digits_monotone(d, n + 1);
        assert(d.subrange(0, n + 1).drop_last() =~= d.subrange(0, n));
    } else {
        assert(d.subrange(0, n) =~= d);
    }
}

} // verus!
