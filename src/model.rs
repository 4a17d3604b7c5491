//! The tokenizer's grammar, stated over the characters of the source text.
//!
//! Positions are character indices. A token is modelled by a `Span`.
use crate::parser::SyntaxKind;
use crate::scanner::{alphanumeric, scan_to, stop_char, white_space};
use crate::token::{Diagnostic, LexMode};
use vstd::prelude::*;

verus! {

/// A token as the grammar describes it: its kind, the character range it
/// covers and its diagnostic.
pub struct Span {
    pub kind: SyntaxKind,
    pub start: nat,
    pub end: nat,
    pub diagnostic: Option<Diagnostic>,
}

/// The characters at which a run of literal text may stop, besides white space.
pub open spec fn literal_stops() -> Seq<char> {
    seq!['{', '%', '\n']
}

/// Whether a run of literal text goes on past the stop character at `j`:
/// a space followed by an alphanumeric character, or a `{` not followed by
/// a second `{`.
pub open spec fn run_continues(t: Seq<char>, j: nat) -> bool {
    (t[j as int] == ' ' && j + 1 < t.len() && alphanumeric(t[j + 1 as int]))
    || (t[j as int] == '{' && !(j + 1 < t.len() && t[j + 1 as int] == '{'))
}

/// Where a run of literal text that reaches index `i` ends: at the first
/// stop character from `i` on that does not let the run go on, or at the end.
pub open spec fn literal_end(t: Seq<char>, i: nat) -> nat
    decreases t.len() - i,
{
    if i >= t.len() {
        t.len()
    } else if stop_char(literal_stops(), true, t[i as int]) && !run_continues(t, i) {
        i
    } else {
        literal_end(t, i + 1)
    }
}

/// A tag closed by the delimiter `d` at `j` (or unclosed there): on success
/// it covers the delimiter and, where `doubled`, a second `d` right after it.
pub open spec fn close_tag(t: Seq<char>, p: nat, j: nat, d: char, doubled: bool, err: Diagnostic) -> Span {
    if j < t.len() && t[j as int] == d {
        let e = if doubled && j + 1 < t.len() && t[j + 1 as int] == d { j + 2 } else { j + 1 };
        Span { kind: SyntaxKind::DoubleCurlyBraces, start: p, end: e, diagnostic: None }
    } else {
        Span { kind: SyntaxKind::Variables, start: p, end: j, diagnostic: Some(err) }
    }
}

/// The token that tag-body mode scans from index `p`, where `p` is below
/// the length of `t`.
pub open spec fn tag_span(t: Seq<char>, p: nat) -> Span {
    let c = t[p as int];
    let i = p + 1;
    if c == '{' {
        if i < t.len() && t[i as int] == '{' {
            let j = scan_to(t, i + 1, seq!['}', '\n'], false);
            close_tag(t, p, j, '}', true, Diagnostic::ExpectedClosingBraces)
        } else {
            let j = scan_to(t, i, seq!['{', '\n'], false);
            close_tag(t, p, j, '{', false, Diagnostic::ExpectedOpeningBraces)
        }
    } else if c == '%' {
        if i < t.len() && t[i as int] == '%' {
            let j = scan_to(t, i + 1, seq!['%', '\n'], false);
            close_tag(t, p, j, '%', true, Diagnostic::ExpectedClosingPercents)
        } else {
            let j = scan_to(t, i, seq!['%', '\n'], false);
            close_tag(t, p, j, '%', true, Diagnostic::ExpectedClosingPercents)
        }
    } else if c == '\n' {
        Span { kind: SyntaxKind::MarkdownText, start: p, end: i, diagnostic: None }
    } else {
        let j = scan_to(t, i, seq!['{', '%', '\n'], false);
        Span { kind: SyntaxKind::MarkdownText, start: p, end: j, diagnostic: None }
    }
}

/// Whether `c` may open a tag or break a line.
pub open spec fn tag_start(c: char) -> bool {
    c == '{' || c == '%' || c == '\n'
}

/// The mode after a tag-body token that ends at `e`: literal-text mode,
/// unless the input is exhausted or the next character may open a tag or
/// break a line.
pub open spec fn mode_after_tag(t: Seq<char>, e: nat) -> LexMode {
    if e < t.len() && !tag_start(t[e as int]) {
        LexMode::Markdown
    } else {
        LexMode::Code
    }
}

/// Whether a token can be produced at `p` in `mode`.
pub open spec fn supported(t: Seq<char>, p: nat, mode: LexMode) -> bool {
    p >= t.len() || mode != LexMode::Keywords
}

/// The token produced at index `p` in `mode`, where `supported` holds.
pub open spec fn next_span(t: Seq<char>, p: nat, mode: LexMode) -> Span {
    if p >= t.len() {
        Span { kind: SyntaxKind::EOF, start: p, end: p, diagnostic: None }
    } else {
        match mode {
            LexMode::Markdown => Span {
                kind: SyntaxKind::MarkdownText,
                start: p,
                end: literal_end(t, p + 1),
                diagnostic: None,
            },
            _ => tag_span(t, p),
        }
    }
}

/// The mode after the token produced at index `p` in `mode`.
pub open spec fn next_mode(t: Seq<char>, p: nat, mode: LexMode) -> LexMode {
    if p >= t.len() {
        mode
    } else {
        match mode {
            LexMode::Markdown => LexMode::Code,
            LexMode::Code => mode_after_tag(t, tag_span(t, p).end),
            LexMode::Keywords => LexMode::Keywords,
        }
    }
}

/// Whether the token produced at index `p` in `mode` signals a line break.
pub open spec fn next_newline(t: Seq<char>, p: nat, mode: LexMode) -> bool {
    p < t.len() && mode == LexMode::Code && t[p as int] == '\n'
}

/// The tokens produced from index `p` in `mode` up to and including the
/// end-of-input token; they stop short where a token cannot be produced.
pub open spec fn tokens_from(t: Seq<char>, p: nat, mode: LexMode) -> Seq<Span>
    decreases t.len() - p,
    via tokens_from_decreases
{
    if p >= t.len() {
        seq![next_span(t, p, mode)]
    } else if !supported(t, p, mode) {
        seq![]
    } else {
        seq![next_span(t, p, mode)] + tokens_from(t, next_span(t, p, mode).end, next_mode(t, p, mode))
    }
}

#[via_fn]
proof fn tokens_from_decreases(t: Seq<char>, p: nat, mode: LexMode) {
    if p < t.len() && supported(t, p, mode) {
        lemma_next_span_bounds(t, p, mode);
    }
}

/// The tokens of `t`: tokenizing starts at its first character in
/// literal-text mode.
pub open spec fn lex_spans(t: Seq<char>) -> Seq<Span> {
    tokens_from(t, 0, LexMode::Markdown)
}

/// A scan ends at or after where it starts, and within the text.
pub proof fn lemma_scan_to_bounds(t: Seq<char>, i: nat, stops: Seq<char>, ws: bool)
    requires
        i <= t.len(),
    ensures
        i <= scan_to(t, i, stops, ws) <= t.len(),
        scan_to(t, i, stops, ws) < t.len() ==> stop_char(stops, ws, t[scan_to(t, i, stops, ws) as int]),
    decreases t.len() - i,
{
    if i < t.len() && !stop_char(stops, ws, t[i as int]) {
        lemma_scan_to_bounds(t, i + 1, stops, ws);
    }
}

/// A run of literal text ends at or after where it starts, and within the text.
pub proof fn lemma_literal_end_bounds(t: Seq<char>, i: nat)
    requires
        i <= t.len(),
    ensures
        i <= literal_end(t, i) <= t.len(),
    decreases t.len() - i,
{
    if i < t.len() && !(stop_char(literal_stops(), true, t[i as int]) && !run_continues(t, i)) {
        lemma_literal_end_bounds(t, i + 1);
    }
}

/// Skipping characters that are no stop characters does not move the end of
/// a run of literal text.
pub proof fn lemma_literal_end_skip(t: Seq<char>, i: nat)
    requires
        i <= t.len(),
    ensures
        literal_end(t, i) == literal_end(t, scan_to(t, i, literal_stops(), true)),
    decreases t.len() - i,
{
    if i < t.len() && !stop_char(literal_stops(), true, t[i as int]) {
        lemma_literal_end_skip(t, i + 1);
    }
}

/// Each token starts where it is produced and, before the end of the input,
/// covers at least one character.
pub proof fn lemma_next_span_bounds(t: Seq<char>, p: nat, mode: LexMode)
    requires
        p <= t.len(),
    ensures
        next_span(t, p, mode).start == p,
        p <= next_span(t, p, mode).end <= t.len(),
        p < t.len() ==> p < next_span(t, p, mode).end,
{
    if p < t.len() {
        lemma_literal_end_bounds(t, p + 1);
        lemma_scan_to_bounds(t, p + 1, seq!['{', '%', '\n'], false);
        lemma_scan_to_bounds(t, p + 1, seq!['{', '\n'], false);
        lemma_scan_to_bounds(t, p + 1, seq!['%', '\n'], false);
        if p + 1 < t.len() {
            lemma_scan_to_bounds(t, p + 2, seq!['}', '\n'], false);
            lemma_scan_to_bounds(t, p + 2, seq!['%', '\n'], false);
        }
    }
}

/// Outside statement-tag mode, the tokens go on to the end of the input and
/// the end-of-input token comes exactly once, last.
pub proof fn lemma_tokens_end_with_eof(t: Seq<char>, p: nat, mode: LexMode)
    requires
        p <= t.len(),
        mode != LexMode::Keywords,
    ensures
        tokens_from(t, p, mode).len() >= 1,
        tokens_from(t, p, mode).last().kind == SyntaxKind::EOF,
        forall|k: int|
            0 <= k < tokens_from(t, p, mode).len() - 1 ==> (#[trigger] tokens_from(t, p, mode)[k]).kind
                != SyntaxKind::EOF,
    decreases t.len() - p,
{
    if p < t.len() {
        lemma_next_span_bounds(t, p, mode);
        let q = next_span(t, p, mode).end;
        let m = next_mode(t, p, mode);
        lemma_tokens_end_with_eof(t, q, m);
        let rest = tokens_from(t, q, m);
        assert(tokens_from(t, p, mode) == seq![next_span(t, p, mode)] + rest);
        assert forall|k: int| 0 <= k < tokens_from(t, p, mode).len() - 1 implies (
        #[trigger] tokens_from(t, p, mode)[k]).kind != SyntaxKind::EOF by {
            if k > 0 {
                assert(tokens_from(t, p, mode)[k] == rest[k - 1]);
            }
        }
    }
}

} // verus!
