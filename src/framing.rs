//! The framing header: the declared length of a request, read from its
//! buffered bytes.
//!
//! The bytes are scanned as text. Every token searched for is ASCII, and in
//! UTF-8 an ASCII byte never occurs inside a multi-byte character, so a scan of
//! the bytes finds the same lines and the same header as a scan of the text.
use vstd::prelude::*;

verus! {

/// Why a framing header could not be used.
#[derive(Clone, Copy, Debug, PartialEq, Eq, Structural)]
pub enum FramingError {
    /// The header is present but its value is not a base-10 `usize`.
    InvalidLength,
}

/// Whether the token `HTTP` starts at index `i` of `s`.
pub open spec fn marker_at(s: Seq<u8>, i: int) -> bool {
    &&& 0 <= i
    &&& i + 4 <= s.len()
    &&& s[i] == 72u8
    &&& s[i + 1] == 84u8
    &&& s[i + 2] == 84u8
    &&& s[i + 3] == 80u8
}

/// Whether the request marker `HTTP` occurs in `s`.
pub open spec fn has_marker(s: Seq<u8>) -> bool {
    exists|i: int| marker_at(s, i)
}

/// The header name with its separator, lower case: `content-length: `.
pub open spec fn header_prefix() -> Seq<u8> {
    seq![99u8, 111u8, 110u8, 116u8, 101u8, 110u8, 116u8, 45u8, 108u8, 101u8, 110u8, 103u8, 116u8, 104u8, 58u8, 32u8]
}

/// ASCII lower case of one byte.
pub open spec fn ascii_lower(b: u8) -> u8 {
    if 65u8 <= b && b <= 90u8 {
        (b + 32) as u8
    } else {
        b
    }
}

/// Whether the lower-case form of line `l` starts with the header prefix.
pub open spec fn starts_with_header(l: Seq<u8>) -> bool {
    &&& l.len() >= 16
    &&& forall|k: int| 0 <= k < 16 ==> ascii_lower(#[trigger] l[k]) == header_prefix()[k]
}

/// The line held in `s[start..end]`, which a `\n` at `end` ends; it loses one
/// `\r` before that `\n`.
pub open spec fn line_of(s: Seq<u8>, start: int, end: int) -> Seq<u8> {
    if end > start && s[end - 1] == 13u8 {
        s.subrange(start, end - 1)
    } else {
        s.subrange(start, end)
    }
}

/// The header value of that line, if the line is the header.
pub open spec fn line_value(s: Seq<u8>, start: int, end: int) -> Option<Seq<u8>> {
    let l = line_of(s, start, end);
    if starts_with_header(l) {
        Some(l.subrange(16, l.len() as int))
    } else {
        None
    }
}

/// The value of the first header line of `s`, scanning from index `i` within
/// the line that starts at `start`. Only a line ended by `\n` counts: a line
/// that a read has cut short is not yet a header.
pub open spec fn header_value_from(s: Seq<u8>, start: int, i: int) -> Option<Seq<u8>>
    decreases s.len() - i,
{
    if i >= s.len() {
        None
    } else if s[i] == 10u8 {
        match line_value(s, start, i) {
            Some(v) => Some(v),
            None => header_value_from(s, i + 1, i + 1),
        }
    } else {
        header_value_from(s, start, i + 1)
    }
}

/// The value of the first header line of `s`.
pub open spec fn header_value(s: Seq<u8>) -> Option<Seq<u8>> {
    header_value_from(s, 0, 0)
}

/// Whether `b` is an ASCII decimal digit.
pub open spec fn is_digit(b: u8) -> bool {
    48u8 <= b && b <= 57u8
}

/// The number that a run of decimal digits spells.
pub open spec fn digits_value(d: Seq<u8>) -> int
    decreases d.len(),
{
    if d.len() == 0 {
        0
    } else {
        digits_value(d.drop_last()) * 10 + (d.last() - 48)
    }
}

/// The digits of a number text, after an optional leading `+`.
pub open spec fn unsigned_digits(v: Seq<u8>) -> Seq<u8> {
    if v.len() > 0 && v[0] == 43u8 {
        v.subrange(1, v.len() as int)
    } else {
        v
    }
}

/// `v` read as a base-10 `usize`: an optional `+`, then at least one digit and
/// nothing else, with a value that fits.
pub open spec fn parse_usize(v: Seq<u8>) -> Option<usize> {
    let d = unsigned_digits(v);
    if d.len() > 0 && (forall|k: int| 0 <= k < d.len() ==> is_digit(#[trigger] d[k]))
        && digits_value(d) <= usize::MAX {
        Some(digits_value(d) as usize)
    } else {
        None
    }
}

/// The body length that the buffered bytes `s` declare: none without the
/// marker or without the header, the header's value when it parses, else an
/// error.
pub open spec fn declared_length(s: Seq<u8>) -> Result<Option<usize>, FramingError> {
    if !has_marker(s) {
        Ok(None)
    } else {
        match header_value(s) {
            None => Ok(None),
            Some(v) => match parse_usize(v) {
                Some(n) => Ok(Some(n)),
                None => Err(FramingError::InvalidLength),
            },
        }
    }
}

/// Where the body of `s` starts, scanning from index `i` within the line that
/// starts at `start`: just after the first blank line, if one has arrived.
pub open spec fn body_start_from(s: Seq<u8>, start: int, i: int) -> Option<int>
    decreases s.len() - i,
{
    if i >= s.len() {
        None
    } else if s[i] == 10u8 {
        if line_of(s, start, i).len() == 0 {
            Some(i + 1)
        } else {
            body_start_from(s, i + 1, i + 1)
        }
    } else {
        body_start_from(s, start, i + 1)
    }
}

/// How many bytes of body `s` holds: those after the first blank line, none
/// before that line has arrived.
pub open spec fn body_len(s: Seq<u8>) -> int {
    match body_start_from(s, 0, 0) {
        Some(b) => s.len() - b,
        None => 0,
    }
}

/// Whether the request marker `HTTP` occurs in `buf`.
pub fn contains_marker(buf: &[u8]) -> (r: bool)
    ensures
        r == has_marker(buf@),
{
    let len = buf.len();
    if len < 4 {
        return false;
    }
    let mut i: usize = 0;
    while i < len - 3
        invariant
            len == buf@.len(),
            4 <= len,
            i <= len - 3,
            forall|j: int| 0 <= j < i ==> !marker_at(buf@, j),
        decreases len - i,
    {
        if buf[i] == 72u8 && buf[i + 1] == 84u8 && buf[i + 2] == 84u8 && buf[i + 3] == 80u8 {
            assert(marker_at(buf@, i as int));
            return true;
        }
        i = i + 1;
    }
    assert forall|j: int| !marker_at(buf@, j) by {
        if 0 <= j < i {
        }
    }
    false
}

/// ASCII lower case of one byte.
pub fn to_ascii_lower(b: u8) -> (r: u8)
    ensures
        r == ascii_lower(b),
{
    if 65u8 <= b && b <= 90u8 {
        b + 32
    } else {
        b
    }
}

/// Where the header value of line `buf[start..end]` lies, if that line is the
/// header.
fn line_value_range(buf: &[u8], start: usize, end: usize) -> (r: Option<
    (usize, usize),
>)
    requires
        start <= end <= buf@.len(),
    ensures
        match r {
            Some((a, b)) => start <= a <= b <= end && line_value(
                buf@,
                start as int,
                end as int,
            ) == Some(buf@.subrange(a as int, b as int)),
            None => line_value(buf@, start as int, end as int).is_none(),
        },
{
    let stop = if end > start && buf[end - 1] == 13u8 {
        end - 1
    } else {
        end
    };
    let ghost l = line_of(buf@, start as int, end as int);
    assert(l == buf@.subrange(start as int, stop as int));
    if stop - start < 16 {
        assert(!starts_with_header(l));
        return None;
    }
    let prefix: [u8; 16] = [
        99u8, 111u8, 110u8, 116u8, 101u8, 110u8, 116u8, 45u8, 108u8, 101u8, 110u8, 103u8,
        116u8, 104u8, 58u8, 32u8,
    ];
    assert(prefix@ =~= header_prefix());
    let mut k: usize = 0;
    while k < 16
        invariant
            start + 16 <= stop <= buf@.len(),
            l == buf@.subrange(start as int, stop as int),
            l == line_of(buf@, start as int, end as int),
            prefix@ == header_prefix(),
            k <= 16,
            forall|j: int| 0 <= j < k ==> ascii_lower(#[trigger] l[j]) == header_prefix()[j],
        decreases 16 - k,
    {
        if to_ascii_lower(buf[start + k]) != prefix[k] {
            assert(ascii_lower(l[k as int]) != header_prefix()[k as int]);
            return None;
        }
        k = k + 1;
    }
    assert(starts_with_header(l));
    assert(l.subrange(16, l.len() as int) =~= buf@.subrange(start + 16, stop as int));
    Some((start + 16, stop))
}

/// Where the value of the first header line of `buf` lies, if there is one.
fn header_value_range(buf: &[u8]) -> (r: Option<(usize, usize)>)
    ensures
        match r {
            Some((a, b)) => a <= b <= buf@.len() && header_value(buf@) == Some(
                buf@.subrange(a as int, b as int),
            ),
            None => header_value(buf@).is_none(),
        },
{
    let len = buf.len();
    let mut start: usize = 0;
    let mut i: usize = 0;
    while i < len
        invariant
            len == buf@.len(),
            start <= i <= len,
            header_value(buf@) == header_value_from(buf@, start as int, i as int),
        decreases len - i,
    {
        if buf[i] == 10u8 {
            let found = line_value_range(buf, start, i);
            if found.is_some() {
                return found;
            }
            start = i + 1;
        }
        i = i + 1;
    }
    None
}

/// How many bytes of body `buf` holds.
pub fn body_length(buf: &[u8]) -> (r: usize)
    ensures
        r == body_len(buf@),
{
    let len = buf.len();
    let mut start: usize = 0;
    let mut i: usize = 0;
    while i < len
        invariant
            len == buf@.len(),
            start <= i <= len,
            body_start_from(buf@, 0, 0) == body_start_from(buf@, start as int, i as int),
        decreases len - i,
    {
        if buf[i] == 10u8 {
            let blank = i == start || (i == start + 1 && buf[start] == 13u8);
            assert(blank == (line_of(buf@, start as int, i as int).len() == 0));
            if blank {
                return len - (i + 1);
            }
            start = i + 1;
        }
        i = i + 1;
    }
    0
}

proof fn lemma_digits_push(d: Seq<u8>, k: int)
    requires
        0 <= k < d.len(),
    ensures
        digits_value(d.subrange(0, k + 1)) == digits_value(d.subrange(0, k)) * 10 + (d[k] - 48),
{
    assert(d.subrange(0, k + 1).drop_last() =~= d.subrange(0, k));
}

proof fn lemma_digits_prefix_le(d: Seq<u8>, k: int)
    requires
        0 <= k <= d.len(),
        forall|j: int| 0 <= j < d.len() ==> is_digit(#[trigger] d[j]),
    ensures
        0 <= digits_value(d.subrange(0, k)) <= digits_value(d),
    decreases d.len() - k,
{
    if k < d.len() {
        lemma_digits_push(d, k);
        lemma_digits_prefix_le(d, k + 1);
    } else {
        assert(d.subrange(0, k) =~= d);
    }
    lemma_digits_nonneg(d.subrange(0, k));
}

proof fn lemma_digits_nonneg(d: Seq<u8>)
    requires
        forall|j: int| 0 <= j < d.len() ==> is_digit(#[trigger] d[j]),
    ensures
        digits_value(d) >= 0,
    decreases d.len(),
{
    if d.len() > 0 {
        lemma_digits_nonneg(d.drop_last());
    }
}

/// Reads `buf[a..b]` as a base-10 `usize`, as `str::parse::<usize>` does.
pub fn parse_decimal(buf: &[u8], a: usize, b: usize) -> (r: Option<usize>)
    requires
        a <= b <= buf@.len(),
    ensures
        r == parse_usize(buf@.subrange(a as int, b as int)),
{
    let ghost v = buf@.subrange(a as int, b as int);
    let from = if a < b && buf[a] == 43u8 {
        a + 1
    } else {
        a
    };
    let ghost d = unsigned_digits(v);
    assert(d =~= buf@.subrange(from as int, b as int));
    if from == b {
        assert(d.len() == 0);
        return None;
    }
    let mut value: usize = 0;
    let mut i: usize = from;
    while i < b
        invariant
            a <= from <= i <= b <= buf@.len(),
            d == buf@.subrange(from as int, b as int),
            d == unsigned_digits(buf@.subrange(a as int, b as int)),
            forall|j: int| 0 <= j < i - from ==> is_digit(#[trigger] d[j]),
            value == digits_value(d.subrange(0, i - from)),
        decreases b - i,
    {
        let c = buf[i];
        let ghost k = i - from;
        if c < 48u8 || c > 57u8 {
            assert(!is_digit(d[k]));
            return None;
        }
        proof {
            lemma_digits_push(d, k);
        }
        let digit = (c - 48u8) as usize;
        if value > (usize::MAX - digit) / 10 {
            proof {
                let rest = d.subrange(0, k + 1);
                assert(digits_value(rest) > usize::MAX);
                if forall|j: int| 0 <= j < d.len() ==> is_digit(#[trigger] d[j]) {
                    lemma_digits_prefix_le(d, k + 1);
                }
            }
            return None;
        }
        value = value * 10 + digit;
        i = i + 1;
    }
    assert(d.subrange(0, d.len() as int) =~= d);
    Some(value)
}

/// The body length that the buffered bytes `buf` declare in their framing
/// header, if they declare one.
pub fn content_length_of(buf: &[u8]) -> (r: Result<Option<usize>, FramingError>)
    ensures
        r == declared_length(buf@),
{
    if !contains_marker(buf) {
        return Ok(None);
    }
    match header_value_range(buf) {
        None => Ok(None),
        Some((a, b)) => match parse_decimal(buf, a, b) {
            Some(n) => Ok(Some(n)),
            None => Err(FramingError::InvalidLength),
        },
    }
}

proof fn lemma_header_value_prefix(s: Seq<u8>, b: Seq<u8>, start: int, i: int)
    requires
        b.len() <= s.len(),
        b == s.subrange(0, b.len() as int),
        0 <= start <= i,
        header_value_from(b, start, i) is Some,
    ensures
        header_value_from(s, start, i) == header_value_from(b, start, i),
    decreases b.len() - i,
{
    if i < b.len() {
        assert(s[i] == b[i]);
        if b[i] == 10u8 {
            assert(s.subrange(start, i) =~= b.subrange(start, i));
            if i > start {
                assert(s[i - 1] == b[i - 1]);
            }
            assert(line_of(s, start, i) == line_of(b, start, i));
            if line_value(b, start, i) is None {
                lemma_header_value_prefix(s, b, i + 1, i + 1);
            }
        } else {
            lemma_header_value_prefix(s, b, start, i + 1);
        }
    }
}

/// Bytes that already hold the marker and a complete header line declare
/// what every longer run of bytes beginning with them declares: later bytes
/// never change a length once its line has ended.
pub proof fn lemma_declared_length_settled(s: Seq<u8>, m: int)
    requires
        0 <= m <= s.len(),
        has_marker(s.subrange(0, m)),
        header_value(s.subrange(0, m)) is Some,
    ensures
        declared_length(s.subrange(0, m)) == declared_length(s),
{
    let b = s.subrange(0, m);
    lemma_header_value_prefix(s, b, 0, 0);
    let w = choose|i: int| marker_at(b, i);
    assert(marker_at(s, w));
}

} // verus!
