//! The cursor over the source text, provided by `unscanny::Scanner`.
//!
//! The scanner is opaque to the verifier. Its state is described by two
//! names: the characters of the text it walks, and the number of characters
//! that lie before its cursor.
use unscanny::Scanner;
use vstd::prelude::*;

verus! {

#[verifier::external_type_specification]
#[verifier::external_body]
pub struct ExScanner<'a>(Scanner<'a>);

/// The characters of the text that a scanner walks.
pub uninterp spec fn scan_text(s: Scanner<'_>) -> Seq<char>;

/// The number of characters of the text that lie before the scanner's cursor.
pub uninterp spec fn scan_pos(s: Scanner<'_>) -> nat;

/// Relies on `unscanny::Scanner::new`: a scanner over `text` with its cursor at the start.
#[verifier::external_body]
pub(crate) fn scanner_new<'a>(text: &'a str) -> (r: Scanner<'a>)
    ensures
        scan_text(r) == text@,
        scan_pos(r) == 0,
{
    Scanner::new(text)
}

/// The number of bytes that the UTF-8 encoding of `c` takes.
pub open spec fn utf8_len(c: char) -> nat {
    if (c as u32) < 0x80 {
        1
    } else if (c as u32) < 0x800 {
        2
    } else if (c as u32) < 0x10000 {
        3
    } else {
        4
    }
}

/// The byte offset, in the UTF-8 encoding of `t`, of the character at index `i`.
pub open spec fn byte_offset(t: Seq<char>, i: nat) -> nat
    decreases i,
{
    if i == 0 || i > t.len() {
        0
    } else {
        byte_offset(t, (i - 1) as nat) + utf8_len(t[i - 1])
    }
}

/// Whether `c` has Unicode's White_Space property.
pub open spec fn white_space(c: char) -> bool {
    ('\t' <= c && c <= '\r') || c == ' ' || c == '\u{85}' || c == '\u{a0}' || c == '\u{1680}'
        || ('\u{2000}' <= c && c <= '\u{200a}') || c == '\u{2028}' || c == '\u{2029}'
        || c == '\u{202f}' || c == '\u{205f}' || c == '\u{3000}'
}

/// Whether `c` is alphabetic or numeric in the sense of Unicode.
pub uninterp spec fn alphanumeric(c: char) -> bool;

/// Whether a scan that stops at the characters of `stops`, and at white space
/// where `ws` holds, stops at `c`.
pub open spec fn stop_char(stops: Seq<char>, ws: bool, c: char) -> bool {
    stops.contains(c) || (ws && white_space(c))
}

/// The index of the first character at or after `i` at which such a scan
/// stops, or the length of `t` where there is none.
pub open spec fn scan_to(t: Seq<char>, i: nat, stops: Seq<char>, ws: bool) -> nat
    decreases t.len() - i,
{
    if i >= t.len() {
        t.len()
    } else if stop_char(stops, ws, t[i as int]) {
        i
    } else {
        scan_to(t, i + 1, stops, ws)
    }
}

/// Relies on `char::is_whitespace`: true exactly for White_Space characters.
#[verifier::external_body]
pub(crate) fn is_white_space(c: char) -> (r: bool)
    ensures
        r == white_space(c),
{
    c.is_whitespace()
}

/// Relies on `char::is_alphanumeric`: its result depends on the character alone.
#[verifier::external_body]
pub(crate) fn is_alphanumeric(c: char) -> (r: bool)
    ensures
        r == alphanumeric(c),
{
    c.is_alphanumeric()
}

/// Whether a scan that stops at the characters of `stops`, and at white
/// space where `ws` holds, stops at `c`.
pub(crate) fn is_stop(stops: &[char], ws: bool, c: char) -> (r: bool)
    ensures
        r == stop_char(stops@, ws, c),
{
    let mut k: usize = 0;
    while k < stops.len()
        invariant
            k <= stops@.len(),
            forall|m: int| 0 <= m < k ==> stops@[m] != c,
        decreases stops@.len() - k,
    {
        if stops[k] == c {
            return true;
        }
        k = k + 1;
    }
    ws && is_white_space(c)
}

/// Relies on `unscanny::Scanner::cursor`: the byte offset of the cursor,
/// which always stands on a character boundary.
#[verifier::external_body]
pub(crate) fn cursor(s: &Scanner<'_>) -> (r: usize)
    ensures
        r as nat == byte_offset(scan_text(*s), scan_pos(*s)),
{
    s.cursor()
}

/// Relies on `unscanny::Scanner::peek`: the character after the cursor, if any.
#[verifier::external_body]
pub(crate) fn peek(s: &Scanner<'_>) -> (r: Option<char>)
    requires
        scan_pos(*s) <= scan_text(*s).len(),
    ensures
        r == (if scan_pos(*s) < scan_text(*s).len() {
            Some(scan_text(*s)[scan_pos(*s) as int])
        } else {
            None
        }),
{
    s.peek()
}

/// Relies on `unscanny::Scanner::eat`: takes the character after the cursor,
/// if any, and moves the cursor past it.
#[verifier::external_body]
pub(crate) fn eat(s: &mut Scanner<'_>) -> (r: Option<char>)
    requires
        scan_pos(*old(s)) <= scan_text(*old(s)).len(),
    ensures
        scan_text(*final(s)) == scan_text(*old(s)),
        r == (if scan_pos(*old(s)) < scan_text(*old(s)).len() {
            Some(scan_text(*old(s))[scan_pos(*old(s)) as int])
        } else {
            None
        }),
        scan_pos(*final(s)) == (if scan_pos(*old(s)) < scan_text(*old(s)).len() {
            scan_pos(*old(s)) + 1
        } else {
            scan_pos(*old(s))
        }),
{
    s.eat()
}

/// Relies on `unscanny::Scanner::eat_if` with a character: takes the
/// character after the cursor where it is `c`.
#[verifier::external_body]
pub(crate) fn eat_if(s: &mut Scanner<'_>, c: char) -> (r: bool)
    requires
        scan_pos(*old(s)) <= scan_text(*old(s)).len(),
    ensures
        scan_text(*final(s)) == scan_text(*old(s)),
        r == (scan_pos(*old(s)) < scan_text(*old(s)).len() && scan_text(*old(s))[scan_pos(*old(s)) as int] == c),
        scan_pos(*final(s)) == (if r {
            scan_pos(*old(s)) + 1
        } else {
            scan_pos(*old(s))
        }),
{
    s.eat_if(c)
}

/// Relies on `unscanny::Scanner::eat_until`: moves the cursor forward until
/// the character after it is one at which the scan stops, or to the end.
#[verifier::external_body]
pub(crate) fn eat_until_stop(s: &mut Scanner<'_>, stops: &[char], ws: bool)
    requires
        scan_pos(*old(s)) <= scan_text(*old(s)).len(),
    ensures
        scan_text(*final(s)) == scan_text(*old(s)),
        scan_pos(*final(s)) == scan_to(scan_text(*old(s)), scan_pos(*old(s)), stops@, ws),
{
    s.eat_until(|c: char| is_stop(stops, ws, c));
}

} // verus!
