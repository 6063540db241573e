//! Framing of a raw HTTP/1.1 response: head and body, status line, header lines.
use vstd::prelude::*;
use vstd::utf8::valid_utf8;
use crate::message::{fields_view, HeaderField, Malformation, ParseError, ParsedResponse};
use crate::scan::{
    copy_range, find_byte, index_of, skip_word, skip_ws, trim, trimmed_range, word_end, ws_end,
};

verus! {

/// `\r\n\r\n` starts at `i`.
pub open spec fn sep_at(s: Seq<u8>, i: int) -> bool {
    0 <= i && i + 4 <= s.len() && s[i] == 13 && s[i + 1] == 10 && s[i + 2] == 13 && s[i + 3]
        == 10
}

/// The first index at or after `i` where `\r\n\r\n` starts, or -1.
pub open spec fn separator_from(s: Seq<u8>, i: int) -> int
    decreases s.len() - i,
{
    if i < 0 || i + 4 > s.len() {
        -1
    } else if sep_at(s, i) {
        i
    } else {
        separator_from(s, i + 1)
    }
}

pub open spec fn separator(s: Seq<u8>) -> int {
    separator_from(s, 0)
}

/// End of the text of the line that starts at `i`: the line feed that ends it
/// is left out, and a carriage return just before that line feed too.
pub open spec fn line_text_end(s: Seq<u8>, i: int) -> int {
    let e = index_of(s, 10, i);
    if e < s.len() && e > i && s[e - 1] == 13 {
        e - 1
    } else {
        e
    }
}

pub open spec fn line_at(s: Seq<u8>, i: int) -> Seq<u8> {
    s.subrange(i, line_text_end(s, i))
}

/// Start of the line after the one that starts at `i`.
pub open spec fn next_line(s: Seq<u8>, i: int) -> int {
    index_of(s, 10, i) + 1
}

/// A header line splits at its first colon into a trimmed name and a trimmed
/// value; a line with no colon gives no header.
pub open spec fn header_of_line(l: Seq<u8>) -> Option<(Seq<u8>, Seq<u8>)> {
    let c = index_of(l, 58, 0);
    if c < l.len() {
        Some((trim(l.subrange(0, c)), trim(l.subrange(c + 1, l.len() as int))))
    } else {
        None
    }
}

/// The headers of the lines of `s` from the line that starts at `i` on.
pub open spec fn headers_from(s: Seq<u8>, i: int) -> Seq<(Seq<u8>, Seq<u8>)>
    decreases s.len() - i,
{
    if 0 <= i < s.len() {
        let n = next_line(s, i);
        let rest = if i < n <= s.len() {
            headers_from(s, n)
        } else {
            seq![]
        };
        match header_of_line(line_at(s, i)) {
            Some(h) => seq![h] + rest,
            None => rest,
        }
    } else {
        seq![]
    }
}

pub open spec fn is_digit(b: u8) -> bool {
    48 <= b <= 57
}

pub open spec fn all_digits(t: Seq<u8>) -> bool {
    forall|i: int| 0 <= i < t.len() ==> is_digit(#[trigger] t[i])
}

/// The number that a string of decimal digits denotes.
pub open spec fn digits_value(t: Seq<u8>) -> nat
    decreases t.len(),
{
    if t.len() == 0 {
        0
    } else {
        digits_value(t.drop_last()) * 10 + (t.last() - 48) as nat
    }
}

/// The unsigned 16-bit number that `t` spells: an optional `+`, then one or
/// more decimal digits, with a value that fits.
pub open spec fn decimal_u16(t: Seq<u8>) -> Option<u16> {
    let d = if t.len() > 0 && t[0] == 43 {
        t.subrange(1, t.len() as int)
    } else {
        t
    };
    if d.len() > 0 && all_digits(d) && digits_value(d) <= 65535 {
        Some(digits_value(d) as u16)
    } else {
        None
    }
}

/// The second whitespace-separated token of a line, if there is one.
pub open spec fn second_token(l: Seq<u8>) -> Option<Seq<u8>> {
    let a = ws_end(l, 0);
    let b = word_end(l, a);
    let c = ws_end(l, b);
    if c < l.len() {
        Some(l.subrange(c, word_end(l, c)))
    } else {
        None
    }
}

/// The code a status line carries, if its second token is a number.
pub open spec fn status_of_line(l: Seq<u8>) -> Option<u16> {
    match second_token(l) {
        Some(t) => decimal_u16(t),
        None => None,
    }
}

/// A response is framed when it has a blank-line separator after a non-empty head.
pub open spec fn framed(raw: Seq<u8>) -> bool {
    separator(raw) > 0
}

pub open spec fn head_of(raw: Seq<u8>) -> Seq<u8> {
    raw.subrange(0, separator(raw))
}

pub open spec fn body_of(raw: Seq<u8>) -> Seq<u8> {
    raw.subrange(separator(raw) + 4, raw.len() as int)
}

pub open spec fn response_status(raw: Seq<u8>) -> Option<u16> {
    status_of_line(line_at(head_of(raw), 0))
}

pub open spec fn response_headers(raw: Seq<u8>) -> Seq<(Seq<u8>, Seq<u8>)> {
    headers_from(head_of(raw), next_line(head_of(raw), 0))
}

/// A status code a response may carry.
pub open spec fn valid_status(c: u16) -> bool {
    100 <= c && c <= 599
}

/// The status of a framed response: the code of its status line when that is
/// a valid status, else 500.
pub open spec fn status_or_default(raw: Seq<u8>) -> u16 {
    match response_status(raw) {
        Some(c) => if valid_status(c) {
            c
        } else {
            500u16
        },
        None => 500u16,
    }
}

/// How a response that is not framed is wrong.
pub open spec fn malformation(raw: Seq<u8>) -> Malformation {
    if separator(raw) == 0 {
        Malformation::EmptyHead
    } else {
        Malformation::MissingSeparator
    }
}

/// What parsing `raw` gives, once the bytes are known to be text.
pub open spec fn parsed_as(raw: Seq<u8>, p: ParsedResponse) -> bool {
    &&& p.status == status_or_default(raw)
    &&& p.status_defaulted == !(response_status(raw) matches Some(c) && valid_status(c))
    &&& fields_view(p.headers@) == response_headers(raw)
    &&& p.body@ == body_of(raw)
}

pub proof fn lemma_separator_from_bounds(s: Seq<u8>, i: int)
    requires
        0 <= i,
    ensures
        separator_from(s, i) == -1 || (i <= separator_from(s, i) && sep_at(s, separator_from(s, i))),
    decreases s.len() - i,
{
    if i + 4 <= s.len() && !sep_at(s, i) {
        lemma_separator_from_bounds(s, i + 1);
    }
}

/// Returns `separator(s)`, or `None` when it is -1.
pub fn find_separator(s: &[u8]) -> (r: Option<usize>)
    ensures
        match r {
            Some(k) => k as int == separator(s@),
            None => separator(s@) == -1,
        },
{
    let mut i: usize = 0;
    while i < s.len() && s.len() - i >= 4
        invariant
            0 <= i <= s@.len(),
            separator_from(s@, i as int) == separator(s@),
        decreases s@.len() - i,
    {
        if s[i] == 13 && s[i + 1] == 10 && s[i + 2] == 13 && s[i + 3] == 10 {
            return Some(i);
        }
        i = i + 1;
    }
    None
}

proof fn lemma_digits_value_prefix(t: Seq<u8>, k: int)
    requires
        0 <= k <= t.len(),
        all_digits(t),
    ensures
        digits_value(t.subrange(0, k)) <= digits_value(t),
    decreases t.len() - k,
{
    if k < t.len() {
        lemma_digits_value_prefix(t, k + 1);
        let p = t.subrange(0, k + 1);
        assert(p.drop_last() =~= t.subrange(0, k));
        assert(is_digit(t[k]));
    } else {
        assert(t.subrange(0, k) =~= t);
    }
}

/// Reads `t` as `decimal_u16` does.
pub fn parse_decimal_u16(t: &[u8]) -> (r: Option<u16>)
    ensures
        r == decimal_u16(t@),
{
    let start: usize = if t.len() > 0 && t[0] == 43 { 1 } else { 0 };
    let ghost d = if t@.len() > 0 && t@[0] == 43 {
        t@.subrange(1, t@.len() as int)
    } else {
        t@
    };
    assert(d =~= t@.subrange(start as int, t@.len() as int));
    if start >= t.len() {
        return None;
    }
    let mut value: u32 = 0;
    let mut i: usize = start;
    while i < t.len()
        invariant
            start <= i <= t@.len(),
            d == t@.subrange(start as int, t@.len() as int),
            d == (if t@.len() > 0 && t@[0] == 43 {
                t@.subrange(1, t@.len() as int)
            } else {
                t@
            }),
            all_digits(d.subrange(0, i - start)),
            value as nat == digits_value(d.subrange(0, i - start)),
            value <= 65535,
        decreases t@.len() - i,
    {
        let b = t[i];
        let ghost p = d.subrange(0, i - start + 1);
        assert(p.drop_last() =~= d.subrange(0, i - start));
        assert(p.last() == b);
        assert(d[(i - start) as int] == b);
        if b < 48 || b > 57 {
            assert(!is_digit(d[(i - start) as int]));
            return None;
        }
        let next: u32 = value * 10 + (b - 48) as u32;
        assert(digits_value(p) == digits_value(p.drop_last()) * 10 + (p.last() - 48) as nat);
        assert(digits_value(p) == next as nat);
        if next > 65535 {
            proof {
                if all_digits(d) {
                    lemma_digits_value_prefix(d, i - start + 1);
                }
            }
            return None;
        }
        value = next;
        i = i + 1;
    }
    assert(d.subrange(0, i - start) =~= d);
    Some(value as u16)
}

/// Returns `status_of_line(l)`.
pub fn parse_status_line(l: &[u8]) -> (r: Option<u16>)
    ensures
        r == status_of_line(l@),
{
    let a = skip_ws(l, 0);
    let b = skip_word(l, a);
    let c = skip_ws(l, b);
    if c < l.len() {
        let d = skip_word(l, c);
        let tok = copy_range(l, c, d);
        parse_decimal_u16(tok.as_slice())
    } else {
        None
    }
}

/// Returns `header_of_line(l)` as a header field.
pub fn parse_header_line(l: &[u8]) -> (r: Option<HeaderField>)
    ensures
        match r {
            Some(f) => header_of_line(l@) == Some(f@),
            None => header_of_line(l@) is None,
        },
{
    let c = find_byte(l, 58, 0);
    if c < l.len() {
        let name = trimmed_range(l, 0, c);
        let value = trimmed_range(l, c + 1, l.len());
        Some(HeaderField { name, value })
    } else {
        None
    }
}

/// Returns `line_text_end(s, i)`, with the index of the line feed that ends
/// the line (or `s.len()`).
fn line_bounds(s: &[u8], i: usize) -> (r: (usize, usize))
    requires
        i <= s@.len(),
    ensures
        r.0 as int == line_text_end(s@, i as int),
        r.1 as int == index_of(s@, 10, i as int),
        i <= r.0 <= r.1 <= s@.len(),
{
    let e = find_byte(s, 10, i);
    if e < s.len() && e > i && s[e - 1] == 13 {
        (e - 1, e)
    } else {
        (e, e)
    }
}

/// The header fields of the lines of `head` after the first.
fn parse_header_lines(head: &[u8]) -> (r: Vec<HeaderField>)
    ensures
        fields_view(r@) == headers_from(head@, next_line(head@, 0)),
{
    let mut out: Vec<HeaderField> = Vec::new();
    let (_t0, e0) = line_bounds(head, 0);
    if e0 >= head.len() {
        return out;
    }
    let mut i: usize = e0 + 1;
    while i < head.len()
        invariant
            0 < i <= head@.len(),
            fields_view(out@) + headers_from(head@, i as int) == headers_from(
                head@,
                next_line(head@, 0),
            ),
        decreases head@.len() - i,
    {
        let (t, e) = line_bounds(head, i);
        let line = copy_range(head, i, t);
        let parsed = parse_header_line(line.as_slice());
        let ghost before = out@;
        match parsed {
            Some(f) => {
                out.push(f);
                assert(fields_view(out@) =~= fields_view(before) + seq![f@]);
            },
            None => {},
        }
        let ghost rest = headers_from(head@, next_line(head@, i as int));
        assert(headers_from(head@, i as int) == match header_of_line(line_at(head@, i as int)) {
            Some(h) => seq![h] + rest,
            None => rest,
        });
        if e >= head.len() {
            assert(rest == Seq::<(Seq<u8>, Seq<u8>)>::empty());
            assert(fields_view(out@) =~= fields_view(out@) + rest);
            return out;
        }
        i = e + 1;
    }
    out
}

/// Splits `raw` into head and body and reads the head, without looking at
/// whether the bytes are text.
pub fn parse_message(raw: &[u8]) -> (r: Result<ParsedResponse, ParseError>)
    ensures
        match r {
            Ok(p) => framed(raw@) && parsed_as(raw@, p),
            Err(e) => !framed(raw@) && e == ParseError::MalformedResponse(malformation(raw@)),
        },
{
    proof {
        lemma_separator_from_bounds(raw@, 0);
    }
    let k = match find_separator(raw) {
        Some(k) => k,
        None => {
            return Err(ParseError::MalformedResponse(Malformation::MissingSeparator));
        },
    };
    if k == 0 {
        return Err(ParseError::MalformedResponse(Malformation::EmptyHead));
    }
    let n = raw.len();
    assert(sep_at(raw@, k as int));
    assert(k as int + 4 <= n as int);
    let head = copy_range(raw, 0, k);
    let body = copy_range(raw, k + 4, n);
    let (t0, _e0) = line_bounds(head.as_slice(), 0);
    let status_line = copy_range(head.as_slice(), 0, t0);
    let code = parse_status_line(status_line.as_slice());
    let headers = parse_header_lines(head.as_slice());
    let (status, status_defaulted) = match code {
        Some(c) => if 100 <= c && c <= 599 {
            (c, false)
        } else {
            (500u16, true)
        },
        None => (500u16, true),
    };
    Ok(ParsedResponse { status, status_defaulted, headers, body })
}

/// Relies on `std::str::from_utf8`: it returns `Ok` exactly when the bytes are
/// well-formed UTF-8.
#[verifier::external_body]
fn is_utf8(b: &[u8]) -> (r: bool)
    ensures
        r == valid_utf8(b@),
{
    std::str::from_utf8(b).is_ok()
}

/// Parses a complete backend response: it must be UTF-8 text, with a
/// non-empty head ended by a blank line.
pub fn parse_response(raw: &[u8]) -> (r: Result<ParsedResponse, ParseError>)
    ensures
        match r {
            Ok(p) => valid_utf8(raw@) && framed(raw@) && parsed_as(raw@, p),
            Err(e) => if !valid_utf8(raw@) {
                e == ParseError::EncodingError
            } else {
                !framed(raw@) && e == ParseError::MalformedResponse(malformation(raw@))
            },
        },
{
    if !is_utf8(raw) {
        return Err(ParseError::EncodingError);
    }
    parse_message(raw)
}

} // verus!
