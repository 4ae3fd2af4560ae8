//! Parsing of the XML deck response.
//!
//! The wire format is a fixed schema: a `CARDS` root wrapping one `DECK`
//! element, which wraps zero or more `CARD` elements; each card carries a
//! numeric `CARDID` and a numeric `SEASON` child, and may carry further child
//! elements (such as a category), which are skipped.  A deck element without
//! card children — self-closing or empty — parses to the absent card list,
//! kept distinct from an empty one.
//!
//! The grammar is stated once as spec functions over the byte sequence
//! (`spec_doc` is the entry point), and the executable parser is proved to
//! return exactly what the grammar says, so malformed input is rejected if
//! and only if `spec_doc` rejects it.

use vstd::prelude::*;
use vstd::string::*;

use crate::deck::{Card, Cards, Deck};

verus! {

/// The error for a response body that does not match the deck schema.
#[derive(Debug, PartialEq, Eq, Structural, Clone, Copy)]
pub enum ParseError {
    Malformed,
}

impl ParseError {
    /// The diagnostic shown to the user for this error.
    pub fn message(&self) -> (r: String)
        ensures
            r@ == "could not parse the deck response"@,
    {
        String::from_str("could not parse the deck response")
    }
}

// ---------------------------------------------------------------------------
// Bytes of interest, by their ASCII codes
// ---------------------------------------------------------------------------

pub const LT: u8 = 60;  // <
pub const GT: u8 = 62;  // >
pub const SLASH: u8 = 47;  // /
pub const QMARK: u8 = 63;  // ?
pub const SPACE: u8 = 32;
pub const TAB: u8 = 9;
pub const CR: u8 = 13;
pub const LF: u8 = 10;
pub const DIGIT0: u8 = 48;  // 0
pub const DIGIT9: u8 = 57;  // 9
pub const UC_A: u8 = 65;
pub const UC_C: u8 = 67;
pub const UC_D: u8 = 68;
pub const UC_E: u8 = 69;
pub const UC_I: u8 = 73;
pub const UC_K: u8 = 75;
pub const UC_N: u8 = 78;
pub const UC_O: u8 = 79;
pub const UC_R: u8 = 82;
pub const UC_S: u8 = 83;

// ---------------------------------------------------------------------------
// Character classes
// ---------------------------------------------------------------------------

pub open spec fn spec_is_ws(b: u8) -> bool {
    b == SPACE || b == TAB || b == CR || b == LF
}

pub open spec fn spec_is_digit(b: u8) -> bool {
    DIGIT0 <= b <= DIGIT9
}

/// A byte that may stand in an element name: anything but the markup
/// delimiters and whitespace.
pub open spec fn spec_is_name(b: u8) -> bool {
    b != LT && b != GT && b != SLASH && !spec_is_ws(b)
}

fn is_ws(b: u8) -> (r: bool)
    ensures
        r == spec_is_ws(b),
{
    b == SPACE || b == TAB || b == CR || b == LF
}

fn is_name(b: u8) -> (r: bool)
    ensures
        r == spec_is_name(b),
{
    b != LT && b != GT && b != SLASH && !is_ws(b)
}

// ---------------------------------------------------------------------------
// Scanners
// ---------------------------------------------------------------------------

/// The first position at or after `i` that does not hold whitespace.
pub open spec fn spec_skip_ws(s: Seq<u8>, i: int) -> int
    decreases s.len() - i,
{
    if 0 <= i < s.len() && spec_is_ws(s[i]) {
        spec_skip_ws(s, i + 1)
    } else {
        i
    }
}

fn skip_ws(s: &Vec<u8>, i: usize) -> (r: usize)
    requires
        i <= s.len(),
    ensures
        r as int == spec_skip_ws(s@, i as int),
        i <= r <= s.len(),
{
    let mut cur = i;
    while cur < s.len() && is_ws(s[cur])
        invariant
            i <= cur <= s.len(),
            spec_skip_ws(s@, i as int) == spec_skip_ws(s@, cur as int),
        decreases s.len() - cur,
    {
        cur = cur + 1;
    }
    cur
}

/// The first position at or after `i` that does not hold a name byte.
pub open spec fn spec_name_end(s: Seq<u8>, i: int) -> int
    decreases s.len() - i,
{
    if 0 <= i < s.len() && spec_is_name(s[i]) {
        spec_name_end(s, i + 1)
    } else {
        i
    }
}

fn name_end(s: &Vec<u8>, i: usize) -> (r: usize)
    requires
        i <= s.len(),
    ensures
        r as int == spec_name_end(s@, i as int),
        i <= r <= s.len(),
{
    let mut cur = i;
    while cur < s.len() && is_name(s[cur])
        invariant
            i <= cur <= s.len(),
            spec_name_end(s@, i as int) == spec_name_end(s@, cur as int),
        decreases s.len() - cur,
    {
        cur = cur + 1;
    }
    cur
}

/// The first position at or after `i` that holds `<`, or the end of input.
pub open spec fn spec_content_end(s: Seq<u8>, i: int) -> int
    decreases s.len() - i,
{
    if 0 <= i < s.len() && s[i] != LT {
        spec_content_end(s, i + 1)
    } else {
        i
    }
}

fn content_end(s: &Vec<u8>, i: usize) -> (r: usize)
    requires
        i <= s.len(),
    ensures
        r as int == spec_content_end(s@, i as int),
        i <= r <= s.len(),
{
    let mut cur = i;
    while cur < s.len() && s[cur] != LT
        invariant
            i <= cur <= s.len(),
            spec_content_end(s@, i as int) == spec_content_end(s@, cur as int),
        decreases s.len() - cur,
    {
        cur = cur + 1;
    }
    cur
}

/// The position just after the first `?>` at or after `i`, if there is one.
pub open spec fn spec_pro_end(s: Seq<u8>, i: int) -> Option<int>
    decreases s.len() - i,
{
    if 0 <= i && i + 2 <= s.len() {
        if s[i] == QMARK && s[i + 1] == GT {
            Some(i + 2)
        } else {
            spec_pro_end(s, i + 1)
        }
    } else {
        None
    }
}

fn pro_end(s: &Vec<u8>, i: usize) -> (r: Option<usize>)
    requires
        i <= s.len(),
    ensures
        match r {
            Some(p) => spec_pro_end(s@, i as int) == Some(p as int) && p <= s.len(),
            None => spec_pro_end(s@, i as int) is None,
        },
{
    let mut cur = i;
    while s.len() - cur >= 2
        invariant
            i <= cur <= s.len(),
            spec_pro_end(s@, i as int) == spec_pro_end(s@, cur as int),
        decreases s.len() - cur,
    {
        if s[cur] == QMARK && s[cur + 1] == GT {
            return Some(cur + 2);
        }
        cur = cur + 1;
    }
    None
}

// ---------------------------------------------------------------------------
// The fixed tags of the schema
// ---------------------------------------------------------------------------

/// `<CARDS>` stands at `i`.
pub open spec fn spec_open_cards(s: Seq<u8>, i: int) -> bool {
    &&& 0 <= i
    &&& i + 7 <= s.len()
    &&& s[i] == LT
    &&& s[i + 1] == UC_C
    &&& s[i + 2] == UC_A
    &&& s[i + 3] == UC_R
    &&& s[i + 4] == UC_D
    &&& s[i + 5] == UC_S
    &&& s[i + 6] == GT
}

/// `</CARDS>` stands at `i`.
pub open spec fn spec_close_cards(s: Seq<u8>, i: int) -> bool {
    &&& 0 <= i
    &&& i + 8 <= s.len()
    &&& s[i] == LT
    &&& s[i + 1] == SLASH
    &&& s[i + 2] == UC_C
    &&& s[i + 3] == UC_A
    &&& s[i + 4] == UC_R
    &&& s[i + 5] == UC_D
    &&& s[i + 6] == UC_S
    &&& s[i + 7] == GT
}

/// `<DECK>` stands at `i`.
pub open spec fn spec_open_deck(s: Seq<u8>, i: int) -> bool {
    &&& 0 <= i
    &&& i + 6 <= s.len()
    &&& s[i] == LT
    &&& s[i + 1] == UC_D
    &&& s[i + 2] == UC_E
    &&& s[i + 3] == UC_C
    &&& s[i + 4] == UC_K
    &&& s[i + 5] == GT
}

/// `<DECK/>` stands at `i`.
pub open spec fn spec_empty_deck(s: Seq<u8>, i: int) -> bool {
    &&& 0 <= i
    &&& i + 7 <= s.len()
    &&& s[i] == LT
    &&& s[i + 1] == UC_D
    &&& s[i + 2] == UC_E
    &&& s[i + 3] == UC_C
    &&& s[i + 4] == UC_K
    &&& s[i + 5] == SLASH
    &&& s[i + 6] == GT
}

/// `</DECK>` stands at `i`.
pub open spec fn spec_close_deck(s: Seq<u8>, i: int) -> bool {
    &&& 0 <= i
    &&& i + 7 <= s.len()
    &&& s[i] == LT
    &&& s[i + 1] == SLASH
    &&& s[i + 2] == UC_D
    &&& s[i + 3] == UC_E
    &&& s[i + 4] == UC_C
    &&& s[i + 5] == UC_K
    &&& s[i + 6] == GT
}

/// `<CARD>` stands at `i`.
pub open spec fn spec_open_card(s: Seq<u8>, i: int) -> bool {
    &&& 0 <= i
    &&& i + 6 <= s.len()
    &&& s[i] == LT
    &&& s[i + 1] == UC_C
    &&& s[i + 2] == UC_A
    &&& s[i + 3] == UC_R
    &&& s[i + 4] == UC_D
    &&& s[i + 5] == GT
}

/// `</CARD>` stands at `i`.
pub open spec fn spec_close_card(s: Seq<u8>, i: int) -> bool {
    &&& 0 <= i
    &&& i + 7 <= s.len()
    &&& s[i] == LT
    &&& s[i + 1] == SLASH
    &&& s[i + 2] == UC_C
    &&& s[i + 3] == UC_A
    &&& s[i + 4] == UC_R
    &&& s[i + 5] == UC_D
    &&& s[i + 6] == GT
}

/// `<CARDID>` stands at `i`.
pub open spec fn spec_open_cardid(s: Seq<u8>, i: int) -> bool {
    &&& 0 <= i
    &&& i + 8 <= s.len()
    &&& s[i] == LT
    &&& s[i + 1] == UC_C
    &&& s[i + 2] == UC_A
    &&& s[i + 3] == UC_R
    &&& s[i + 4] == UC_D
    &&& s[i + 5] == UC_I
    &&& s[i + 6] == UC_D
    &&& s[i + 7] == GT
}

/// `</CARDID>` stands at `i`.
pub open spec fn spec_close_cardid(s: Seq<u8>, i: int) -> bool {
    &&& 0 <= i
    &&& i + 9 <= s.len()
    &&& s[i] == LT
    &&& s[i + 1] == SLASH
    &&& s[i + 2] == UC_C
    &&& s[i + 3] == UC_A
    &&& s[i + 4] == UC_R
    &&& s[i + 5] == UC_D
    &&& s[i + 6] == UC_I
    &&& s[i + 7] == UC_D
    &&& s[i + 8] == GT
}

/// `<SEASON>` stands at `i`.
pub open spec fn spec_open_season(s: Seq<u8>, i: int) -> bool {
    &&& 0 <= i
    &&& i + 8 <= s.len()
    &&& s[i] == LT
    &&& s[i + 1] == UC_S
    &&& s[i + 2] == UC_E
    &&& s[i + 3] == UC_A
    &&& s[i + 4] == UC_S
    &&& s[i + 5] == UC_O
    &&& s[i + 6] == UC_N
    &&& s[i + 7] == GT
}

/// `</SEASON>` stands at `i`.
pub open spec fn spec_close_season(s: Seq<u8>, i: int) -> bool {
    &&& 0 <= i
    &&& i + 9 <= s.len()
    &&& s[i] == LT
    &&& s[i + 1] == SLASH
    &&& s[i + 2] == UC_S
    &&& s[i + 3] == UC_E
    &&& s[i + 4] == UC_A
    &&& s[i + 5] == UC_S
    &&& s[i + 6] == UC_O
    &&& s[i + 7] == UC_N
    &&& s[i + 8] == GT
}

fn open_cards(s: &Vec<u8>, i: usize) -> (r: bool)
    requires
        i <= s.len(),
    ensures
        r == spec_open_cards(s@, i as int),
{
    s.len() - i >= 7 && s[i] == LT && s[i + 1] == UC_C && s[i + 2] == UC_A && s[i + 3] == UC_R
        && s[i + 4] == UC_D && s[i + 5] == UC_S && s[i + 6] == GT
}

fn close_cards(s: &Vec<u8>, i: usize) -> (r: bool)
    requires
        i <= s.len(),
    ensures
        r == spec_close_cards(s@, i as int),
{
    s.len() - i >= 8 && s[i] == LT && s[i + 1] == SLASH && s[i + 2] == UC_C && s[i + 3] == UC_A
        && s[i + 4] == UC_R && s[i + 5] == UC_D && s[i + 6] == UC_S && s[i + 7] == GT
}

fn open_deck(s: &Vec<u8>, i: usize) -> (r: bool)
    requires
        i <= s.len(),
    ensures
        r == spec_open_deck(s@, i as int),
{
    s.len() - i >= 6 && s[i] == LT && s[i + 1] == UC_D && s[i + 2] == UC_E && s[i + 3] == UC_C
        && s[i + 4] == UC_K && s[i + 5] == GT
}

fn empty_deck(s: &Vec<u8>, i: usize) -> (r: bool)
    requires
        i <= s.len(),
    ensures
        r == spec_empty_deck(s@, i as int),
{
    s.len() - i >= 7 && s[i] == LT && s[i + 1] == UC_D && s[i + 2] == UC_E && s[i + 3] == UC_C
        && s[i + 4] == UC_K && s[i + 5] == SLASH && s[i + 6] == GT
}

fn close_deck(s: &Vec<u8>, i: usize) -> (r: bool)
    requires
        i <= s.len(),
    ensures
        r == spec_close_deck(s@, i as int),
{
    s.len() - i >= 7 && s[i] == LT && s[i + 1] == SLASH && s[i + 2] == UC_D && s[i + 3] == UC_E
        && s[i + 4] == UC_C && s[i + 5] == UC_K && s[i + 6] == GT
}

fn open_card(s: &Vec<u8>, i: usize) -> (r: bool)
    requires
        i <= s.len(),
    ensures
        r == spec_open_card(s@, i as int),
{
    s.len() - i >= 6 && s[i] == LT && s[i + 1] == UC_C && s[i + 2] == UC_A && s[i + 3] == UC_R
        && s[i + 4] == UC_D && s[i + 5] == GT
}

fn close_card(s: &Vec<u8>, i: usize) -> (r: bool)
    requires
        i <= s.len(),
    ensures
        r == spec_close_card(s@, i as int),
{
    s.len() - i >= 7 && s[i] == LT && s[i + 1] == SLASH && s[i + 2] == UC_C && s[i + 3] == UC_A
        && s[i + 4] == UC_R && s[i + 5] == UC_D && s[i + 6] == GT
}

fn open_cardid(s: &Vec<u8>, i: usize) -> (r: bool)
    requires
        i <= s.len(),
    ensures
        r == spec_open_cardid(s@, i as int),
{
    s.len() - i >= 8 && s[i] == LT && s[i + 1] == UC_C && s[i + 2] == UC_A && s[i + 3] == UC_R
        && s[i + 4] == UC_D && s[i + 5] == UC_I && s[i + 6] == UC_D && s[i + 7] == GT
}

fn close_cardid(s: &Vec<u8>, i: usize) -> (r: bool)
    requires
        i <= s.len(),
    ensures
        r == spec_close_cardid(s@, i as int),
{
    s.len() - i >= 9 && s[i] == LT && s[i + 1] == SLASH && s[i + 2] == UC_C && s[i + 3] == UC_A
        && s[i + 4] == UC_R && s[i + 5] == UC_D && s[i + 6] == UC_I && s[i + 7] == UC_D && s[i
        + 8] == GT
}

fn open_season(s: &Vec<u8>, i: usize) -> (r: bool)
    requires
        i <= s.len(),
    ensures
        r == spec_open_season(s@, i as int),
{
    s.len() - i >= 8 && s[i] == LT && s[i + 1] == UC_S && s[i + 2] == UC_E && s[i + 3] == UC_A
        && s[i + 4] == UC_S && s[i + 5] == UC_O && s[i + 6] == UC_N && s[i + 7] == GT
}

fn close_season(s: &Vec<u8>, i: usize) -> (r: bool)
    requires
        i <= s.len(),
    ensures
        r == spec_close_season(s@, i as int),
{
    s.len() - i >= 9 && s[i] == LT && s[i + 1] == SLASH && s[i + 2] == UC_S && s[i + 3] == UC_E
        && s[i + 4] == UC_A && s[i + 5] == UC_S && s[i + 6] == UC_O && s[i + 7] == UC_N && s[i
        + 8] == GT
}

// ---------------------------------------------------------------------------
// Numerals
// ---------------------------------------------------------------------------

/// Every byte in `[i, j)` is a decimal digit.
pub open spec fn spec_all_digits(s: Seq<u8>, i: int, j: int) -> bool {
    forall|k: int| i <= k < j ==> spec_is_digit(#[trigger] s[k])
}

/// The value of the digit run in `[i, j)`, most significant digit first.
pub open spec fn spec_digits_val(s: Seq<u8>, i: int, j: int) -> int
    decreases j - i,
{
    if i < j {
        spec_digits_val(s, i, j - 1) * 10 + (s[j - 1] as int - DIGIT0 as int)
    } else {
        0
    }
}

/// The number denoted by the bytes in `[i, j)`: defined when the run is a
/// nonempty sequence of digits whose value does not exceed `max`.
pub open spec fn spec_num(s: Seq<u8>, i: int, j: int, max: int) -> Option<int> {
    if i < j && spec_all_digits(s, i, j) && 0 <= spec_digits_val(s, i, j) <= max {
        Some(spec_digits_val(s, i, j))
    } else {
        None
    }
}

/// A longer digit run denotes at least as large a number as its prefix,
/// provided the prefix value is non-negative.
proof fn lemma_digits_val_mono(s: Seq<u8>, i: int, m: int, j: int)
    requires
        i <= m <= j,
        forall|k: int| m <= k < j ==> spec_is_digit(#[trigger] s[k]),
        spec_digits_val(s, i, m) >= 0,
    ensures
        spec_digits_val(s, i, j) >= spec_digits_val(s, i, m),
    decreases j - m,
{
    if m < j {
        assert(spec_digits_val(s, i, m + 1) == spec_digits_val(s, i, m) * 10 + (s[m] as int
            - DIGIT0 as int));
        lemma_digits_val_mono(s, i, m + 1, j);
    }
}

/// Reads the number in `[i, j)`, rejecting runs that are empty, hold a
/// non-digit, or denote a value above `max`.
fn parse_num(s: &Vec<u8>, i: usize, j: usize, max: u64) -> (r: Option<u64>)
    requires
        i <= j <= s.len(),
        max <= 0xffff_ffff,
    ensures
        match r {
            Some(v) => spec_num(s@, i as int, j as int, max as int) == Some(v as int),
            None => spec_num(s@, i as int, j as int, max as int) is None,
        },
{
    if i == j {
        return None;
    }
    let mut acc: u64 = 0;
    let mut k = i;
    while k < j
        invariant
            i <= k <= j <= s.len(),
            max <= 0xffff_ffff,
            spec_all_digits(s@, i as int, k as int),
            acc as int == spec_digits_val(s@, i as int, k as int),
            acc <= max,
        decreases j - k,
    {
        let b = s[k];
        if !(DIGIT0 <= b && b <= DIGIT9) {
            assert(!spec_is_digit(s@[k as int]));
            return None;
        }
        let next = acc * 10 + ((b - DIGIT0) as u64);
        if next > max {
            proof {
                if spec_all_digits(s@, i as int, j as int) {
                    lemma_digits_val_mono(s@, i as int, k as int + 1, j as int);
                }
            }
            return None;
        }
        acc = next;
        k = k + 1;
    }
    Some(acc)
}

// ---------------------------------------------------------------------------
// Skipping a child element that the schema does not model
// ---------------------------------------------------------------------------

/// The position after a child element starting at `i`: either self-closing
/// (`<NAME/>`) or `<NAME>text</NAME>` with matching names and no nested
/// markup in the text.  `None` when the bytes at `i` are not of that shape.
pub open spec fn spec_skip_child(s: Seq<u8>, i: int) -> Option<int> {
    if !(0 <= i && i < s.len() && s[i] == LT) {
        None
    } else {
        let n0 = i + 1;
        let n1 = spec_name_end(s, n0);
        if n1 <= n0 {
            None
        } else if n1 + 2 <= s.len() && s[n1] == SLASH && s[n1 + 1] == GT {
            Some(n1 + 2)
        } else if n1 < s.len() && s[n1] == GT {
            let c1 = spec_content_end(s, n1 + 1);
            if c1 + 2 <= s.len() && s[c1] == LT && s[c1 + 1] == SLASH {
                let m0 = c1 + 2;
                let m1 = spec_name_end(s, m0);
                if s.subrange(n0, n1) == s.subrange(m0, m1) && m1 < s.len() && s[m1] == GT {
                    Some(m1 + 1)
                } else {
                    None
                }
            } else {
                None
            }
        } else {
            None
        }
    }
}

/// Compares the byte ranges `[a0, a1)` and `[b0, b1)`.
fn ranges_eq(s: &Vec<u8>, a0: usize, a1: usize, b0: usize, b1: usize) -> (r: bool)
    requires
        a0 <= a1 <= s.len(),
        b0 <= b1 <= s.len(),
    ensures
        r == (s@.subrange(a0 as int, a1 as int) == s@.subrange(b0 as int, b1 as int)),
{
    let ghost ra = s@.subrange(a0 as int, a1 as int);
    let ghost rb = s@.subrange(b0 as int, b1 as int);
    if a1 - a0 != b1 - b0 {
        assert(ra.len() != rb.len());
        return false;
    }
    let n = a1 - a0;
    let mut k: usize = 0;
    while k < n
        invariant
            a0 <= a1 <= s.len(),
            b0 <= b1 <= s.len(),
            k <= n == a1 - a0 == b1 - b0,
            ra == s@.subrange(a0 as int, a1 as int),
            rb == s@.subrange(b0 as int, b1 as int),
            forall|t: int| 0 <= t < k ==> ra[t] == rb[t],
        decreases n - k,
    {
        if s[a0 + k] != s[b0 + k] {
            assert(ra[k as int] != rb[k as int]);
            return false;
        }
        k = k + 1;
    }
    proof {
        assert(ra =~= rb);
    }
    true
}

/// Skips one unmodeled child element, mirroring `spec_skip_child`.
fn skip_child(s: &Vec<u8>, i: usize) -> (r: Option<usize>)
    requires
        i <= s.len(),
    ensures
        match r {
            Some(p) => spec_skip_child(s@, i as int) == Some(p as int) && p <= s.len(),
            None => spec_skip_child(s@, i as int) is None,
        },
{
    if !(i < s.len() && s[i] == LT) {
        return None;
    }
    let n0 = i + 1;
    let n1 = name_end(s, n0);
    if n1 <= n0 {
        return None;
    }
    if s.len() - n1 >= 2 && s[n1] == SLASH && s[n1 + 1] == GT {
        return Some(n1 + 2);
    }
    if n1 < s.len() && s[n1] == GT {
        let c1 = content_end(s, n1 + 1);
        if s.len() - c1 >= 2 && s[c1] == LT && s[c1 + 1] == SLASH {
            let m0 = c1 + 2;
            let m1 = name_end(s, m0);
            if ranges_eq(s, n0, n1, m0, m1) && m1 < s.len() && s[m1] == GT {
                return Some(m1 + 1);
            }
        }
    }
    None
}

// ---------------------------------------------------------------------------
// One card
// ---------------------------------------------------------------------------

/// Reads the children of a `CARD` element from position `i` up to and past
/// its closing tag.  `id` and `season` carry the fields seen so far; a card
/// is complete only when both were present exactly once.  Progress guards
/// (`i < np <= s.len()`) bound the recursion; a parse that stands still is
/// rejected, which no input reaching this point can trigger.
pub open spec fn spec_card_fields(s: Seq<u8>, i: int, id: Option<u32>, season: Option<u8>) -> Option<
    (int, Card),
>
    decreases s.len() - i,
{
    let j = spec_skip_ws(s, i);
    if spec_close_card(s, j) {
        match (id, season) {
            (Some(idv), Some(sv)) => Some((j + 7, Card { id: idv, season: sv })),
            _ => None,
        }
    } else if spec_open_cardid(s, j) {
        let c0 = j + 8;
        let c1 = spec_content_end(s, c0);
        if spec_close_cardid(s, c1) && id is None {
            match spec_num(s, c0, c1, 0xffff_ffff) {
                Some(v) => {
                    let np = c1 + 9;
                    if i < np <= s.len() {
                        spec_card_fields(s, np, Some(v as u32), season)
                    } else {
                        None
                    }
                },
                None => None,
            }
        } else {
            None
        }
    } else if spec_open_season(s, j) {
        let c0 = j + 8;
        let c1 = spec_content_end(s, c0);
        if spec_close_season(s, c1) && season is None {
            match spec_num(s, c0, c1, 255) {
                Some(v) => {
                    let np = c1 + 9;
                    if i < np <= s.len() {
                        spec_card_fields(s, np, id, Some(v as u8))
                    } else {
                        None
                    }
                },
                None => None,
            }
        } else {
            None
        }
    } else {
        match spec_skip_child(s, j) {
            Some(np) => {
                if i < np <= s.len() {
                    spec_card_fields(s, np, id, season)
                } else {
                    None
                }
            },
            None => None,
        }
    }
}

fn parse_card_fields(s: &Vec<u8>, i: usize, id: Option<u32>, season: Option<u8>) -> (r: Option<
    (usize, Card),
>)
    requires
        i <= s.len(),
    ensures
        match r {
            Some((p, c)) => spec_card_fields(s@, i as int, id, season) == Some((p as int, c)) && i
                < p <= s.len(),
            None => spec_card_fields(s@, i as int, id, season) is None,
        },
    decreases s.len() - i,
{
    let j = skip_ws(s, i);
    if close_card(s, j) {
        match (id, season) {
            (Some(idv), Some(sv)) => Some((j + 7, Card { id: idv, season: sv })),
            _ => None,
        }
    } else if open_cardid(s, j) {
        let c0 = j + 8;
        let c1 = content_end(s, c0);
        if close_cardid(s, c1) && id.is_none() {
            match parse_num(s, c0, c1, 0xffff_ffff) {
                Some(v) => {
                    let np = c1 + 9;
                    if i < np && np <= s.len() {
                        parse_card_fields(s, np, Some(v as u32), season)
                    } else {
                        None
                    }
                },
                None => None,
            }
        } else {
            None
        }
    } else if open_season(s, j) {
        let c0 = j + 8;
        let c1 = content_end(s, c0);
        if close_season(s, c1) && season.is_none() {
            match parse_num(s, c0, c1, 255) {
                Some(v) => {
                    let np = c1 + 9;
                    if i < np && np <= s.len() {
                        parse_card_fields(s, np, id, Some(v as u8))
                    } else {
                        None
                    }
                },
                None => None,
            }
        } else {
            None
        }
    } else {
        match skip_child(s, j) {
            Some(np) => {
                if i < np && np <= s.len() {
                    parse_card_fields(s, np, id, season)
                } else {
                    None
                }
            },
            None => None,
        }
    }
}

// ---------------------------------------------------------------------------
// The card list of a deck
// ---------------------------------------------------------------------------

/// Reads `CARD` elements from position `i` up to and past the closing
/// `</DECK>` tag, yielding the cards in document order and the position
/// after that tag.
pub open spec fn spec_deck_cards(s: Seq<u8>, i: int) -> Option<(int, Seq<Card>)>
    decreases s.len() - i,
{
    let j = spec_skip_ws(s, i);
    if spec_close_deck(s, j) {
        Some((j + 7, Seq::empty()))
    } else if spec_open_card(s, j) {
        match spec_card_fields(s, j + 6, None, None) {
            Some((np, card)) => {
                if i < np <= s.len() {
                    match spec_deck_cards(s, np) {
                        Some((e, rest)) => Some((e, seq![card] + rest)),
                        None => None,
                    }
                } else {
                    None
                }
            },
            None => None,
        }
    } else {
        None
    }
}

fn parse_deck_cards(s: &Vec<u8>, i: usize) -> (r: Option<(usize, Vec<Card>)>)
    requires
        i <= s.len(),
    ensures
        match r {
            Some((p, cs)) => spec_deck_cards(s@, i as int) == Some((p as int, cs@)) && p <= s.len(),
            None => spec_deck_cards(s@, i as int) is None,
        },
{
    let mut cur = i;
    let mut acc: Vec<Card> = Vec::new();
    loop
        invariant
            i <= cur <= s.len(),
            match spec_deck_cards(s@, cur as int) {
                Some((e, rest)) => spec_deck_cards(s@, i as int) == Some((e, acc@ + rest)),
                None => spec_deck_cards(s@, i as int) is None,
            },
        decreases s.len() - cur,
    {
        let j = skip_ws(s, cur);
        if close_deck(s, j) {
            proof {
                assert(spec_deck_cards(s@, cur as int) == Some((j + 7int, Seq::<Card>::empty())));
                assert(acc@ + Seq::<Card>::empty() =~= acc@);
            }
            return Some((j + 7, acc));
        } else if open_card(s, j) {
            match parse_card_fields(s, j + 6, None, None) {
                Some((np, card)) => {
                    if cur < np && np <= s.len() {
                        proof {
                            assert(acc@.push(card) =~= acc@ + seq![card]);
                            assert forall|e: int, rest: Seq<Card>|
                                spec_deck_cards(s@, np as int) == Some((e, rest)) implies acc@
                                + (seq![card] + rest) =~= (acc@ + seq![card]) + rest by {}
                        }
                        acc.push(card);
                        cur = np;
                    } else {
                        return None;
                    }
                },
                None => {
                    return None;
                },
            }
        } else {
            return None;
        }
    }
}

// ---------------------------------------------------------------------------
// The whole document
// ---------------------------------------------------------------------------

/// Reads the deck element from position `i`: a self-closing deck, or an open
/// deck with its card list.  A deck without card children yields the absent
/// card list, never the empty one.
pub open spec fn spec_deck(s: Seq<u8>, i: int) -> Option<(int, Option<Seq<Card>>)> {
    let j = spec_skip_ws(s, i);
    if spec_empty_deck(s, j) {
        Some((j + 7, None))
    } else if spec_open_deck(s, j) {
        match spec_deck_cards(s, j + 6) {
            Some((p, cs)) => Some(
                (
                    p,
                    if cs.len() == 0 {
                        None
                    } else {
                        Some(cs)
                    },
                ),
            ),
            None => None,
        }
    } else {
        None
    }
}

/// The position after an optional `<?...?>` prologue starting at `i`.
pub open spec fn spec_after_prologue(s: Seq<u8>, i: int) -> Option<int> {
    if 0 <= i && i + 2 <= s.len() && s[i] == LT && s[i + 1] == QMARK {
        spec_pro_end(s, i + 2)
    } else {
        Some(i)
    }
}

/// The grammar of a deck response: optional whitespace and prologue, a
/// `CARDS` root wrapping one deck element, optional trailing whitespace, and
/// nothing else.  `None` stands for a malformed document; `Some(None)` for a
/// well-formed document whose deck holds no cards.
pub open spec fn spec_doc(s: Seq<u8>) -> Option<Option<Seq<Card>>> {
    match spec_after_prologue(s, spec_skip_ws(s, 0)) {
        None => None,
        Some(i1) => {
            let i2 = spec_skip_ws(s, i1);
            if spec_open_cards(s, i2) {
                match spec_deck(s, i2 + 7) {
                    Some((p, cards)) => {
                        let q = spec_skip_ws(s, p);
                        if spec_close_cards(s, q) && spec_skip_ws(s, q + 8) == s.len() {
                            Some(cards)
                        } else {
                            None
                        }
                    },
                    None => None,
                }
            } else {
                None
            }
        },
    }
}

fn parse_deck(s: &Vec<u8>, i: usize) -> (r: Option<(usize, Option<Vec<Card>>)>)
    requires
        i <= s.len(),
    ensures
        match r {
            Some((p, d)) => spec_deck(s@, i as int) == Some(
                (
                    p as int,
                    match d {
                        Some(v) => Some(v@),
                        None => None,
                    },
                ),
            ) && p <= s.len(),
            None => spec_deck(s@, i as int) is None,
        },
{
    let j = skip_ws(s, i);
    if empty_deck(s, j) {
        Some((j + 7, None))
    } else if open_deck(s, j) {
        match parse_deck_cards(s, j + 6) {
            Some((p, cs)) => {
                if cs.len() == 0 {
                    Some((p, None))
                } else {
                    Some((p, Some(cs)))
                }
            },
            None => None,
        }
    } else {
        None
    }
}

fn parse_doc(s: &Vec<u8>) -> (r: Option<Option<Vec<Card>>>)
    ensures
        match r {
            Some(d) => spec_doc(s@) == Some(
                match d {
                    Some(v) => Some(v@),
                    None => None,
                },
            ),
            None => spec_doc(s@) is None,
        },
{
    let i0 = skip_ws(s, 0);
    let i1 = if s.len() - i0 >= 2 && s[i0] == LT && s[i0 + 1] == QMARK {
        match pro_end(s, i0 + 2) {
            Some(p) => p,
            None => {
                return None;
            },
        }
    } else {
        i0
    };
    let i2 = skip_ws(s, i1);
    if !open_cards(s, i2) {
        return None;
    }
    match parse_deck(s, i2 + 7) {
        Some((p, cards)) => {
            let q = skip_ws(s, p);
            if close_cards(s, q) {
                let e = skip_ws(s, q + 8);
                if e == s.len() {
                    Some(cards)
                } else {
                    None
                }
            } else {
                None
            }
        },
        None => None,
    }
}

/// Parses a deck response body.  Succeeds exactly on the documents the
/// grammar `spec_doc` accepts, and then returns exactly the deck the grammar
/// yields.
pub fn parse_cards(body: &Vec<u8>) -> (r: Result<Cards, ParseError>)
    ensures
        match r {
            Ok(c) => spec_doc(body@) == Some(c.model()),
            Err(_) => spec_doc(body@) is None,
        },
{
    match parse_doc(body) {
        Some(cards) => Ok(Cards { deck: Deck { cards } }),
        None => Err(ParseError::Malformed),
    }
}

} // verus!
