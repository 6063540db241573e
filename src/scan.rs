//! Byte classes and scanning helpers shared by the request builder and the
//! response parser. The parser works on bytes: whitespace is ASCII whitespace.
use vstd::prelude::*;

verus! {

/// ASCII whitespace: tab, line feed, vertical tab, form feed, carriage return, space.
pub open spec fn is_ws(b: u8) -> bool {
    b == 9 || b == 10 || b == 11 || b == 12 || b == 13 || b == 32
}

/// The three-byte UTF-8 encodings of whitespace: U+1680, U+2000 to U+200A,
/// U+2028, U+2029, U+202F, U+205F and U+3000.
pub open spec fn is_ws3(a: u8, b: u8, c: u8) -> bool {
    ||| (a == 0xe1 && b == 0x9a && c == 0x80)
    ||| (a == 0xe2 && b == 0x80 && ((0x80 <= c && c <= 0x8a) || c == 0xa8 || c == 0xa9 || c
        == 0xaf))
    ||| (a == 0xe2 && b == 0x81 && c == 0x9f)
    ||| (a == 0xe3 && b == 0x80 && c == 0x80)
}

/// The two-byte UTF-8 encodings of whitespace: U+0085 and U+00A0.
pub open spec fn is_ws2(a: u8, b: u8) -> bool {
    a == 0xc2 && (b == 0x85 || b == 0xa0)
}

/// The length in bytes of the whitespace character that starts at `i`, or 0.
/// Whitespace is what Unicode calls `White_Space`, in its UTF-8 encoding.
pub open spec fn ws_len(s: Seq<u8>, i: int) -> int {
    if 0 <= i < s.len() && is_ws(s[i]) {
        1
    } else if 0 <= i && i + 2 <= s.len() && is_ws2(s[i], s[i + 1]) {
        2
    } else if 0 <= i && i + 3 <= s.len() && is_ws3(s[i], s[i + 1], s[i + 2]) {
        3
    } else {
        0
    }
}

/// The length in bytes of the whitespace character that ends at `j` and
/// starts no earlier than `lo`, or 0.
pub open spec fn ws_len_back(s: Seq<u8>, lo: int, j: int) -> int {
    if 0 <= lo && lo < j && j <= s.len() && is_ws(s[j - 1]) {
        1
    } else if 0 <= lo && lo <= j - 2 && j <= s.len() && is_ws2(s[j - 2], s[j - 1]) {
        2
    } else if 0 <= lo && lo <= j - 3 && j <= s.len() && is_ws3(s[j - 3], s[j - 2], s[j - 1]) {
        3
    } else {
        0
    }
}

/// A byte that may stand in a forwarded header value: visible ASCII or tab.
pub open spec fn is_visible(b: u8) -> bool {
    (32 <= b && b < 127) || b == 9
}

pub open spec fn all_visible(s: Seq<u8>) -> bool {
    forall|i: int| 0 <= i < s.len() ==> is_visible(#[trigger] s[i])
}

/// Index of the first byte at or after `i` that does not start whitespace
/// (or `s.len()`).
pub open spec fn ws_end(s: Seq<u8>, i: int) -> int
    decreases s.len() - i,
{
    if ws_len(s, i) > 0 {
        ws_end(s, i + ws_len(s, i))
    } else {
        i
    }
}

/// Index of the first whitespace at or after `i` (or `s.len()`).
pub open spec fn word_end(s: Seq<u8>, i: int) -> int
    decreases s.len() - i,
{
    if 0 <= i < s.len() && ws_len(s, i) == 0 {
        word_end(s, i + 1)
    } else {
        i
    }
}

/// Index of the first occurrence of `b` at or after `i` (or `s.len()`).
pub open spec fn index_of(s: Seq<u8>, b: u8, i: int) -> int
    decreases s.len() - i,
{
    if 0 <= i < s.len() && s[i] != b {
        index_of(s, b, i + 1)
    } else {
        i
    }
}

/// Going back from `j`, no further than `lo`, the index just past the last
/// byte that does not end whitespace.
pub open spec fn ws_start_back(s: Seq<u8>, lo: int, j: int) -> int
    decreases j - lo,
{
    if ws_len_back(s, lo, j) > 0 {
        ws_start_back(s, lo, j - ws_len_back(s, lo, j))
    } else {
        j
    }
}

/// `s` without leading and trailing whitespace.
pub open spec fn trim(s: Seq<u8>) -> Seq<u8> {
    let a = ws_end(s, 0);
    s.subrange(a, ws_start_back(s, a, s.len() as int))
}

/// Returns `ws_len(s, i)`.
pub fn ws_len_at(s: &[u8], i: usize) -> (r: usize)
    ensures
        r as int == ws_len(s@, i as int),
        r > 0 ==> i + r <= s@.len(),
{
    let n = s.len();
    if i < n && (s[i] == 9 || s[i] == 10 || s[i] == 11 || s[i] == 12 || s[i] == 13 || s[i]
        == 32) {
        1
    } else if i < n && n - i >= 2 && s[i] == 0xc2 && (s[i + 1] == 0x85 || s[i + 1] == 0xa0) {
        2
    } else if i < n && n - i >= 3 && is_ws3_bytes(s[i], s[i + 1], s[i + 2]) {
        3
    } else {
        0
    }
}

fn is_ws3_bytes(a: u8, b: u8, c: u8) -> (r: bool)
    ensures
        r == is_ws3(a, b, c),
{
    (a == 0xe1 && b == 0x9a && c == 0x80) || (a == 0xe2 && b == 0x80 && ((0x80 <= c && c <= 0x8a)
        || c == 0xa8 || c == 0xa9 || c == 0xaf)) || (a == 0xe2 && b == 0x81 && c == 0x9f) || (a
        == 0xe3 && b == 0x80 && c == 0x80)
}

/// Returns `ws_len_back(s, lo, j)`.
pub fn ws_len_before(s: &[u8], lo: usize, j: usize) -> (r: usize)
    requires
        lo <= j <= s@.len(),
    ensures
        r as int == ws_len_back(s@, lo as int, j as int),
        r <= j - lo,
{
    if lo < j && (s[j - 1] == 9 || s[j - 1] == 10 || s[j - 1] == 11 || s[j - 1] == 12 || s[j
        - 1] == 13 || s[j - 1] == 32) {
        1
    } else if j - lo >= 2 && s[j - 2] == 0xc2 && (s[j - 1] == 0x85 || s[j - 1] == 0xa0) {
        2
    } else if j - lo >= 3 && is_ws3_bytes(s[j - 3], s[j - 2], s[j - 1]) {
        3
    } else {
        0
    }
}

/// Returns `ws_end(s, i)`.
pub fn skip_ws(s: &[u8], i: usize) -> (r: usize)
    requires
        i <= s@.len(),
    ensures
        r as int == ws_end(s@, i as int),
        i <= r <= s@.len(),
{
    let n = s.len();
    let mut k: usize = i;
    loop
        invariant
            n == s@.len(),
            i <= k <= s@.len(),
            ws_end(s@, k as int) == ws_end(s@, i as int),
        decreases s@.len() - k,
    {
        let w = ws_len_at(s, k);
        if w == 0 {
            return k;
        }
        k = k + w;
    }
}

/// Returns `word_end(s, i)`.
pub fn skip_word(s: &[u8], i: usize) -> (r: usize)
    requires
        i <= s@.len(),
    ensures
        r as int == word_end(s@, i as int),
        i <= r <= s@.len(),
{
    let mut k: usize = i;
    while k < s.len() && ws_len_at(s, k) == 0
        invariant
            i <= k <= s@.len(),
            word_end(s@, k as int) == word_end(s@, i as int),
        decreases s@.len() - k,
    {
        k = k + 1;
    }
    k
}

/// Returns `index_of(s, b, i)`.
pub fn find_byte(s: &[u8], b: u8, i: usize) -> (r: usize)
    requires
        i <= s@.len(),
    ensures
        r as int == index_of(s@, b, i as int),
        i <= r <= s@.len(),
{
    let mut k: usize = i;
    while k < s.len() && s[k] != b
        invariant
            i <= k <= s@.len(),
            index_of(s@, b, k as int) == index_of(s@, b, i as int),
        decreases s@.len() - k,
    {
        k = k + 1;
    }
    k
}

/// Copies `s[lo..hi]` into a new vector.
pub fn copy_range(s: &[u8], lo: usize, hi: usize) -> (r: Vec<u8>)
    requires
        lo <= hi <= s@.len(),
    ensures
        r@ == s@.subrange(lo as int, hi as int),
{
    let mut out: Vec<u8> = Vec::new();
    let mut k: usize = lo;
    while k < hi
        invariant
            lo <= k <= hi <= s@.len(),
            out@ == s@.subrange(lo as int, k as int),
        decreases hi - k,
    {
        out.push(s[k]);
        k = k + 1;
    }
    out
}

/// Returns `trim(s[lo..hi])` as a new vector.
pub fn trimmed_range(s: &[u8], lo: usize, hi: usize) -> (r: Vec<u8>)
    requires
        lo <= hi <= s@.len(),
    ensures
        r@ == trim(s@.subrange(lo as int, hi as int)),
{
    let t = copy_range(s, lo, hi);
    let t = t.as_slice();
    let a = skip_ws(t, 0);
    let mut z: usize = t.len();
    while ws_len_before(t, a, z) > 0
        invariant
            a <= z <= t@.len(),
            a as int == ws_end(t@, 0),
            ws_start_back(t@, a as int, z as int) == ws_start_back(
                t@,
                a as int,
                t@.len() as int,
            ),
        decreases z - a,
    {
        z = z - ws_len_before(t, a, z);
    }
    copy_range(t, a, z)
}

} // verus!
