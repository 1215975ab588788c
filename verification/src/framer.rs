//! Request framing: deciding from the bytes received so far how long the
//! request claims to be.
//!
//! The framer is a heuristic, not an HTTP parser. It looks for the marker
//! `HTTP` anywhere in the text and, if the marker is there, for the first line
//! that begins with `content-length: ` in any letter case. The rest of that
//! line is read as a decimal number.
//!
//! Everything here is stated over `Seq<u8>`. The text handed in is UTF-8, in
//! which the bytes of an ASCII character never occur inside the encoding of
//! another character, so that a search over bytes finds what a search over
//! characters finds.

use vstd::prelude::*;
use vstd::string::StringSliceAdditionalSpecFns;
use vstd::utf8::valid_utf8;

verus! {

/// The byte that ends a line.
pub const LINE_FEED: u8 = 0x0a;

/// The byte that may stand before a line feed and then belongs to the line ending.
pub const CARRIAGE_RETURN: u8 = 0x0d;

/// The sign that a number may start with.
pub const PLUS_SIGN: u8 = 0x2b;

/// The bytes `HTTP`: a request is only searched for a length if it holds them.
pub const MARKER: [u8; 4] = [0x48, 0x54, 0x54, 0x50];

/// The bytes `content-length: `, in lower case, the colon and one space included.
pub const HEADER_PREFIX: [u8; 16] = [
    0x63, 0x6f, 0x6e, 0x74, 0x65, 0x6e, 0x74, 0x2d,
    0x6c, 0x65, 0x6e, 0x67, 0x74, 0x68, 0x3a, 0x20,
];

/// What the framer found in a text.
#[derive(Clone, Copy, Debug, PartialEq, Eq, Structural)]
pub enum Framing {
    /// No length header was recognised; the expected length stays as it is.
    Absent,
    /// The first length header gives this many bytes.
    Length(usize),
    /// The first length header does not hold a number that fits the machine.
    Malformed,
}

/// `b` with an ASCII capital letter replaced by its small letter.
pub open spec fn fold_ascii(b: u8) -> u8 {
    if 0x41 <= b <= 0x5a {
        (b + 0x20) as u8
    } else {
        b
    }
}

/// Whether `pat` stands in `text` at index `at`.
pub open spec fn occurs_at(text: Seq<u8>, pat: Seq<u8>, at: int) -> bool {
    &&& 0 <= at
    &&& at + pat.len() <= text.len()
    &&& text.subrange(at, at + pat.len()) == pat
}

/// Whether the marker stands somewhere in `text`.
pub open spec fn has_marker(text: Seq<u8>) -> bool {
    exists|at: int| occurs_at(text, MARKER@, at)
}

/// The index of the first line feed at or after `from`, or the length of
/// `text` if there is none.
pub open spec fn line_stop(text: Seq<u8>, from: int) -> int
    decreases text.len() - from,
{
    if from >= text.len() {
        text.len() as int
    } else if text[from] == LINE_FEED {
        from
    } else {
        line_stop(text, from + 1)
    }
}

/// Whether a line begins at index `at`: at the start of the text or right
/// after a line feed, and before the end of the text.
pub open spec fn is_line_start(text: Seq<u8>, at: int) -> bool {
    &&& 0 <= at < text.len()
    &&& (at == 0 || text[at - 1] == LINE_FEED)
}

/// Where the content of the line that begins at `start` ends. The line feed
/// is no part of the content, and neither is a carriage return right before
/// it. A carriage return at the very end of the text, with no line feed
/// after it, stays in the line.
pub open spec fn line_content_end(text: Seq<u8>, start: int) -> int {
    let stop = line_stop(text, start);
    if stop < text.len() && start < stop && text[stop - 1] == CARRIAGE_RETURN {
        stop - 1
    } else {
        stop
    }
}

/// The content of the line that begins at `start`.
pub open spec fn line_at(text: Seq<u8>, start: int) -> Seq<u8> {
    text.subrange(start, line_content_end(text, start))
}

/// Whether `line` begins with the header prefix, letter case aside.
pub open spec fn is_header_line(line: Seq<u8>) -> bool {
    &&& line.len() >= HEADER_PREFIX@.len()
    &&& forall|j: int|
        0 <= j < HEADER_PREFIX@.len() ==> fold_ascii(#[trigger] line[j]) == HEADER_PREFIX@[j]
}

/// Whether a length header begins at index `at` of `text`.
pub open spec fn header_at(text: Seq<u8>, at: int) -> bool {
    is_line_start(text, at) && is_header_line(line_at(text, at))
}

/// Whether the first length header of `text` begins at index `at`.
pub open spec fn is_first_header(text: Seq<u8>, at: int) -> bool {
    &&& header_at(text, at)
    &&& forall|other: int| #[trigger] header_at(text, other) ==> at <= other
}

/// Where the first length header of `text` begins, if it has one.
pub open spec fn first_header(text: Seq<u8>) -> Option<int> {
    if exists|at: int| is_first_header(text, at) {
        Some(choose|at: int| is_first_header(text, at))
    } else {
        None
    }
}

/// What follows the prefix in a header line.
pub open spec fn header_value(line: Seq<u8>) -> Seq<u8> {
    line.subrange(HEADER_PREFIX@.len() as int, line.len() as int)
}

pub open spec fn is_digit(b: u8) -> bool {
    0x30 <= b <= 0x39
}

/// The number that one decimal digit stands for.
pub open spec fn digit_value(b: u8) -> nat {
    if is_digit(b) {
        (b - 0x30) as nat
    } else {
        0
    }
}

/// The number that a run of decimal digits stands for, the first digit
/// weighing most. The empty run stands for zero.
pub open spec fn decimal_value(digits: Seq<u8>) -> nat
    decreases digits.len(),
{
    if digits.len() == 0 {
        0
    } else {
        decimal_value(digits.drop_last()) * 10 + digit_value(digits.last())
    }
}

/// `value` without the plus sign that it may start with.
pub open spec fn unsigned_part(value: Seq<u8>) -> Seq<u8> {
    if value.len() > 0 && value[0] == PLUS_SIGN {
        value.subrange(1, value.len() as int)
    } else {
        value
    }
}

/// Whether `value` is written as a number: an optional plus sign, then one
/// decimal digit or more, and nothing else.
pub open spec fn is_number(value: Seq<u8>) -> bool {
    let digits = unsigned_part(value);
    &&& digits.len() > 0
    &&& forall|j: int| 0 <= j < digits.len() ==> is_digit(#[trigger] digits[j])
}

/// The length that `value` gives: its number, if it is written as one and
/// fits in a `usize`.
pub open spec fn parse_length(value: Seq<u8>) -> Option<usize> {
    if is_number(value) && decimal_value(unsigned_part(value)) <= usize::MAX {
        Some(decimal_value(unsigned_part(value)) as usize)
    } else {
        None
    }
}

/// What the framer finds in a text that is known to be UTF-8.
pub open spec fn frame_text(text: Seq<u8>) -> Framing {
    if !has_marker(text) {
        Framing::Absent
    } else {
        match first_header(text) {
            None => Framing::Absent,
            Some(at) => match parse_length(header_value(line_at(text, at))) {
                Some(n) => Framing::Length(n),
                None => Framing::Malformed,
            },
        }
    }
}

/// What the framer finds in arbitrary bytes: bytes that are not UTF-8 are
/// not searched at all.
pub open spec fn frame(bytes: Seq<u8>) -> Framing {
    if valid_utf8(bytes) {
        frame_text(bytes)
    } else {
        Framing::Absent
    }
}

/// From `from` up to `line_stop` there is no line feed, and `line_stop` is
/// either a line feed or the end of the text.
pub proof fn lemma_line_stop(text: Seq<u8>, from: int)
    requires
        0 <= from <= text.len(),
    ensures
        from <= line_stop(text, from) <= text.len(),
        forall|j: int| from <= j < line_stop(text, from) ==> text[j] != LINE_FEED,
        line_stop(text, from) < text.len() ==> text[line_stop(text, from)] == LINE_FEED,
    decreases text.len() - from,
{
    if from < text.len() && text[from] != LINE_FEED {
        lemma_line_stop(text, from + 1);
    }
}

/// A run of digits is worth at least as much as any run it starts with.
pub proof fn lemma_decimal_prefix(digits: Seq<u8>, k: int)
    requires
        0 <= k <= digits.len(),
    ensures
        decimal_value(digits.take(k)) <= decimal_value(digits),
    decreases digits.len(),
{
    if k == digits.len() {
        assert(digits.take(k) =~= digits);
    } else {
        lemma_decimal_prefix(digits.drop_last(), k);
        assert(digits.drop_last().take(k) =~= digits.take(k));
    }
}

/// One more digit: ten times the run before it, plus the digit.
pub proof fn lemma_decimal_step(digits: Seq<u8>, k: int)
    requires
        0 <= k < digits.len(),
    ensures
        decimal_value(digits.take(k + 1)) == decimal_value(digits.take(k)) * 10 + digit_value(
            digits[k],
        ),
{
    assert(digits.take(k + 1).drop_last() =~= digits.take(k));
}

fn fold_byte(b: u8) -> (folded: u8)
    ensures
        folded == fold_ascii(b),
{
    if 0x41 <= b && b <= 0x5a {
        b + 0x20
    } else {
        b
    }
}

fn marker_at(data: &[u8], at: usize) -> (found: bool)
    requires
        at + 4 <= data.len(),
    ensures
        found == occurs_at(data@, MARKER@, at as int),
{
    let mut j: usize = 0;
    while j < 4
        invariant
            j <= 4,
            at + 4 <= data.len(),
            forall|k: int| 0 <= k < j ==> data[at + k] == MARKER[k],
        decreases 4 - j,
    {
        if data[at + j] != MARKER[j] {
            assert(data@.subrange(at as int, at + 4)[j as int] == data[at + j]);
            return false;
        }
        j += 1;
    }
    assert(data@.subrange(at as int, at + 4) =~= MARKER@);
    true
}

fn contains_marker(data: &[u8]) -> (found: bool)
    ensures
        found == has_marker(data@),
{
    let n = data.len();
    if n < 4 {
        return false;
    }
    let mut at: usize = 0;
    while at <= n - 4
        invariant
            n == data.len(),
            n >= 4,
            at <= n - 3,
            forall|k: int| 0 <= k < at ==> !occurs_at(data@, MARKER@, k),
        decreases n - at,
    {
        if marker_at(data, at) {
            return true;
        }
        at += 1;
    }
    false
}

fn line_stop_from(data: &[u8], start: usize) -> (stop: usize)
    requires
        start <= data.len(),
    ensures
        stop == line_stop(data@, start as int),
        start <= stop <= data.len(),
{
    let mut j: usize = start;
    while j < data.len() && data[j] != LINE_FEED
        invariant
            start <= j <= data.len(),
            line_stop(data@, j as int) == line_stop(data@, start as int),
        decreases data.len() - j,
    {
        j += 1;
    }
    j
}

fn content_end_from(data: &[u8], start: usize) -> (end: usize)
    requires
        start <= data.len(),
    ensures
        end == line_content_end(data@, start as int),
        start <= end <= data.len(),
{
    let stop = line_stop_from(data, start);
    if stop < data.len() && start < stop && data[stop - 1] == CARRIAGE_RETURN {
        stop - 1
    } else {
        stop
    }
}

fn header_line_at(data: &[u8], start: usize, end: usize) -> (found: bool)
    requires
        start <= end <= data.len(),
    ensures
        found == is_header_line(data@.subrange(start as int, end as int)),
{
    let ghost line = data@.subrange(start as int, end as int);
    if end - start < 16 {
        return false;
    }
    let mut j: usize = 0;
    while j < 16
        invariant
            j <= 16,
            start + 16 <= end <= data.len(),
            line == data@.subrange(start as int, end as int),
            forall|k: int| 0 <= k < j ==> fold_ascii(#[trigger] line[k]) == HEADER_PREFIX[k],
        decreases 16 - j,
    {
        if fold_byte(data[start + j]) != HEADER_PREFIX[j] {
            assert(fold_ascii(line[j as int]) != HEADER_PREFIX[j as int]);
            return false;
        }
        assert(line[j as int] == data[start + j]);
        j += 1;
    }
    true
}

fn find_header(data: &[u8]) -> (found: Option<usize>)
    ensures
        match found {
            Some(at) => first_header(data@) == Some(at as int),
            None => first_header(data@) is None,
        },
{
    let n = data.len();
    let mut start: usize = 0;
    while start < n
        invariant
            n == data.len(),
            start <= n,
            start == 0 || data[start - 1] == LINE_FEED,
            forall|t: int| 0 <= t < start ==> !header_at(data@, t),
        decreases n - start,
    {
        let end = content_end_from(data, start);
        if header_line_at(data, start, end) {
            assert(is_first_header(data@, start as int));
            return Some(start);
        }
        let stop = line_stop_from(data, start);
        proof {
            lemma_line_stop(data@, start as int);
            assert forall|t: int| start < t <= stop implies !header_at(data@, t) by {
                assert(data[t - 1] != LINE_FEED);
            }
        }
        if stop >= n {
            return None;
        }
        start = stop + 1;
    }
    None
}

/// Reads `data[from..to]` as a length.
fn parse_digits(data: &[u8], from: usize, to: usize) -> (length: Option<usize>)
    requires
        from <= to <= data.len(),
    ensures
        length == parse_length(data@.subrange(from as int, to as int)),
{
    let ghost value = data@.subrange(from as int, to as int);
    let first: usize = if from < to && data[from] == PLUS_SIGN {
        from + 1
    } else {
        from
    };
    let ghost digits = unsigned_part(value);
    assert(digits =~= data@.subrange(first as int, to as int));
    if first == to {
        return None;
    }
    let mut acc: usize = 0;
    let mut j: usize = first;
    while j < to
        invariant
            from <= first <= j <= to <= data.len(),
            first < to,
            digits == unsigned_part(data@.subrange(from as int, to as int)),
            digits == data@.subrange(first as int, to as int),
            forall|k: int| 0 <= k < j - first ==> is_digit(#[trigger] digits[k]),
            acc == decimal_value(digits.take(j - first)),
        decreases to - j,
    {
        let b = data[j];
        assert(digits[j - first] == b);
        if !(0x30 <= b && b <= 0x39) {
            return None;
        }
        proof {
            lemma_decimal_step(digits, j - first);
            lemma_decimal_prefix(digits, j - first + 1);
        }
        let scaled = match acc.checked_mul(10) {
            Some(scaled) => scaled,
            None => {
                return None;
            },
        };
        acc = match scaled.checked_add((b - 0x30) as usize) {
            Some(sum) => sum,
            None => {
                return None;
            },
        };
        j += 1;
    }
    assert(digits.take(to - first) =~= digits);
    Some(acc)
}

/// Searches `data` for the length that the request claims.
///
/// The result is `Absent` when the marker `HTTP` or a line that begins with
/// `content-length: ` is missing. Otherwise the first such line decides: it
/// gives the length, or it is malformed, whatever lines follow it.
pub fn parse_content_length(data: &str) -> (framing: Framing)
    ensures
        framing == frame_text(data.spec_bytes()),
{
    let bytes = data.as_bytes();
    if !contains_marker(bytes) {
        return Framing::Absent;
    }
    match find_header(bytes) {
        None => Framing::Absent,
        Some(start) => {
            let end = content_end_from(bytes, start);
            assert(is_first_header(bytes@, start as int));
            assert(header_value(line_at(bytes@, start as int)) =~= bytes@.subrange(
                start + 16,
                end as int,
            ));
            match parse_digits(bytes, start + 16, end) {
                Some(n) => Framing::Length(n),
                None => Framing::Malformed,
            }
        },
    }
}

/// `std::str::from_utf8`: the bytes as text, which succeeds exactly when
/// they are well-formed UTF-8. The text then has the same bytes.
#[verifier::external_body]
fn text_of(bytes: &[u8]) -> (text: Option<&str>)
    ensures
        text is Some <==> valid_utf8(bytes@),
        text matches Some(t) ==> t.spec_bytes() == bytes@,
{
    std::str::from_utf8(bytes).ok()
}

/// Searches arbitrary bytes for the length that the request claims. Bytes
/// that are not UTF-8 are tolerated: they are not searched, and nothing is
/// found in them.
pub fn frame_bytes(bytes: &[u8]) -> (framing: Framing)
    ensures
        framing == frame(bytes@),
{
    match text_of(bytes) {
        Some(text) => parse_content_length(text),
        None => Framing::Absent,
    }
}

} // verus!
