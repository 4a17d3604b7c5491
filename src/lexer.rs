//! The lexer: a cursor over the source, the active mode, and the outcome of
//! the last step.
use crate::model::{
    lemma_literal_end_skip, lemma_next_span_bounds, lemma_scan_to_bounds,
    lemma_tokens_end_with_eof, lex_spans, literal_end, literal_stops, mode_after_tag, next_mode,
    next_newline, next_span, run_continues, supported, tag_span, tokens_from, Span,
};
use crate::laws::lemma_tokens_rebuild_text;
use crate::parser::SyntaxKind;
use crate::scanner::{
    byte_offset, cursor, eat, eat_if, eat_until_stop, is_alphanumeric, peek, scan_pos, scan_text,
    scanner_new,
};
use crate::token::{Diagnostic, LexError, LexMode, Token};
use unscanny::Scanner;
use vstd::prelude::*;

verus! {

/// Whether `tok` is the token of `t` that `span` describes, its range given in bytes.
pub open spec fn token_of(t: Seq<char>, tok: Token, span: Span) -> bool {
    &&& tok.kind == span.kind
    &&& tok.start as nat == byte_offset(t, span.start)
    &&& tok.end as nat == byte_offset(t, span.end)
    &&& tok.diagnostic == span.diagnostic
}

/// Splits a text into tokens, one step at a time. A copy has its own cursor
/// and mode over the same borrowed text.
#[derive(Clone, Copy)]
pub struct Lexer<'s> {
    s: Scanner<'s>,
    mode: LexMode,
    newline: bool,
    error: Option<Diagnostic>,
}

impl<'s> Lexer<'s> {
    /// The characters of the source text.
    pub closed spec fn text(&self) -> Seq<char> {
        scan_text(self.s)
    }

    /// The number of characters consumed so far.
    pub closed spec fn pos(&self) -> nat {
        scan_pos(self.s)
    }

    /// The active mode.
    pub closed spec fn lex_mode(&self) -> LexMode {
        self.mode
    }

    /// Whether the last step crossed a line break.
    pub closed spec fn crossed_newline(&self) -> bool {
        self.newline
    }

    /// The diagnostic of the last step.
    pub closed spec fn pending(&self) -> Option<Diagnostic> {
        self.error
    }

    /// The cursor stands within the text.
    pub closed spec fn wf(&self) -> bool {
        scan_pos(self.s) <= scan_text(self.s).len()
    }

    /// A lexer at the start of `text`, in `mode`.
    pub fn new(text: &'s str, mode: LexMode) -> (r: Self)
        ensures
            r.wf(),
            r.text() == text@,
            r.pos() == 0,
            r.lex_mode() == mode,
            !r.crossed_newline(),
            r.pending() is None,
    {
        Lexer { s: scanner_new(text), mode, newline: false, error: None }
    }

    /// The active mode.
    pub fn mode(&self) -> (r: LexMode)
        ensures
            r == self.lex_mode(),
    {
        self.mode
    }

    /// Makes `mode` the active mode.
    pub fn set_mode(&mut self, mode: LexMode)
        requires
            old(self).wf(),
        ensures
            final(self).wf(),
            final(self).text() == old(self).text(),
            final(self).pos() == old(self).pos(),
            final(self).lex_mode() == mode,
            final(self).crossed_newline() == old(self).crossed_newline(),
            final(self).pending() == old(self).pending(),
    {
        self.mode = mode;
    }

    /// Whether the last step crossed a line break.
    pub fn newline(&self) -> (r: bool)
        ensures
            r == self.crossed_newline(),
    {
        self.newline
    }

    /// The diagnostic of the last step, if any.
    pub fn error(&self) -> (r: Option<Diagnostic>)
        ensures
            r == self.pending(),
    {
        self.error
    }

    /// Statement-tag mode: its grammar is not defined yet, so it reports
    /// that it cannot go on and consumes nothing.
    pub fn keywords(&self, start: usize, c: char) -> (r: Result<SyntaxKind, LexError>)
        ensures
            r == Err::<SyntaxKind, LexError>(LexError::UnsupportedMode),
    {
        Err(LexError::UnsupportedMode)
    }
}

impl<'s> Lexer<'s> {
    /// Literal-text mode: consumes the rest of a run of literal text whose
    /// first character was consumed already, then hands over to tag-body mode.
    fn markdown(&mut self) -> (r: (SyntaxKind, LexMode))
        requires
            old(self).wf(),
        ensures
            final(self).wf(),
            final(self).text() == old(self).text(),
            final(self).pos() == literal_end(old(self).text(), old(self).pos()),
            final(self).newline == old(self).newline,
            final(self).error == old(self).error,
            r == (SyntaxKind::MarkdownText, LexMode::Code),
    {
        let ghost t = self.text();
        let ghost target = literal_end(t, self.pos());
        let stops: [char; 3] = ['{', '%', '\n'];
        assert(stops@ =~= literal_stops());
        loop
            invariant
                self.wf(),
                self.text() == t,
                literal_end(t, self.pos()) == target,
                self.newline == old(self).newline,
                self.error == old(self).error,
                self.mode == old(self).mode,
                stops@ == literal_stops(),
            ensures
                self.wf(),
                self.text() == t,
                self.pos() == target,
                self.newline == old(self).newline,
                self.error == old(self).error,
                self.mode == old(self).mode,
            decreases t.len() - self.pos(),
        {
            proof {
                lemma_literal_end_skip(t, self.pos());
                lemma_scan_to_bounds(t, self.pos(), literal_stops(), true);
            }
            eat_until_stop(&mut self.s, &stops, true);
            let ghost j = self.pos();
            let mut s = self.s;
            let goes_on = match eat(&mut s) {
                Some(c) => {
                    if c == ' ' {
                        match peek(&s) {
                            Some(d) => is_alphanumeric(d),
                            None => false,
                        }
                    } else if c == '{' {
                        match peek(&s) {
                            Some(d) => d != '{',
                            None => true,
                        }
                    } else {
                        false
                    }
                },
                None => false,
            };
            if !goes_on {
                assert(j < t.len() ==> !run_continues(t, j));
                break;
            }
            assert(run_continues(t, j));
            self.s = s;
        }
        (SyntaxKind::MarkdownText, LexMode::Code)
    }
}

impl<'s> Lexer<'s> {
    /// Tag-body mode: scans the token that starts with `c`, consumed already
    /// at byte `start`, and names the mode that comes after it.
    fn code(&mut self, start: usize, c: char) -> (r: (SyntaxKind, LexMode))
        requires
            old(self).wf(),
            1 <= old(self).pos(),
            old(self).text()[old(self).pos() - 1] == c,
            !old(self).newline,
            old(self).error is None,
        ensures
            final(self).wf(),
            final(self).text() == old(self).text(),
            final(self).pos() == tag_span(old(self).text(), (old(self).pos() - 1) as nat).end,
            r.0 == tag_span(old(self).text(), (old(self).pos() - 1) as nat).kind,
            r.1 == mode_after_tag(old(self).text(), final(self).pos()),
            final(self).error == tag_span(old(self).text(), (old(self).pos() - 1) as nat).diagnostic,
            final(self).newline == (c == '\n'),
            final(self).mode == old(self).mode,
    {
        let ghost t = self.text();
        let kind = if c == '{' {
            if eat_if(&mut self.s, '{') {
                let stops: [char; 2] = ['}', '\n'];
                assert(stops@ =~= seq!['}', '\n']);
                proof {
                    lemma_scan_to_bounds(t, self.pos(), stops@, false);
                }
                eat_until_stop(&mut self.s, &stops, false);
                if eat_if(&mut self.s, '}') {
                    eat_if(&mut self.s, '}');
                    SyntaxKind::DoubleCurlyBraces
                } else {
                    self.error = Some(Diagnostic::ExpectedClosingBraces);
                    SyntaxKind::Variables
                }
            } else {
                let stops: [char; 2] = ['{', '\n'];
                assert(stops@ =~= seq!['{', '\n']);
                proof {
                    lemma_scan_to_bounds(t, self.pos(), stops@, false);
                }
                eat_until_stop(&mut self.s, &stops, false);
                if eat_if(&mut self.s, '{') {
                    SyntaxKind::DoubleCurlyBraces
                } else {
                    self.error = Some(Diagnostic::ExpectedOpeningBraces);
                    SyntaxKind::Variables
                }
            }
        } else if c == '%' {
            let stops: [char; 2] = ['%', '\n'];
            assert(stops@ =~= seq!['%', '\n']);
            if eat_if(&mut self.s, '%') {
                proof {
                    lemma_scan_to_bounds(t, self.pos(), stops@, false);
                }
                eat_until_stop(&mut self.s, &stops, false);
                if eat_if(&mut self.s, '%') {
                    eat_if(&mut self.s, '%');
                    SyntaxKind::DoubleCurlyBraces
                } else {
                    self.error = Some(Diagnostic::ExpectedClosingPercents);
                    SyntaxKind::Variables
                }
            } else {
                proof {
                    lemma_scan_to_bounds(t, self.pos(), stops@, false);
                }
                eat_until_stop(&mut self.s, &stops, false);
                if eat_if(&mut self.s, '%') {
                    eat_if(&mut self.s, '%');
                    SyntaxKind::DoubleCurlyBraces
                } else {
                    self.error = Some(Diagnostic::ExpectedClosingPercents);
                    SyntaxKind::Variables
                }
            }
        } else if c == '\n' {
            self.newline = true;
            SyntaxKind::MarkdownText
        } else {
            let stops: [char; 3] = ['{', '%', '\n'];
            assert(stops@ =~= seq!['{', '%', '\n']);
            proof {
                lemma_scan_to_bounds(t, self.pos(), stops@, false);
            }
            eat_until_stop(&mut self.s, &stops, false);
            SyntaxKind::MarkdownText
        };
        let after = match peek(&self.s) {
            Some(d) => {
                if d == '{' || d == '%' || d == '\n' {
                    LexMode::Code
                } else {
                    LexMode::Markdown
                }
            },
            None => LexMode::Code,
        };
        (kind, after)
    }

    /// Produces the next token and moves to the mode that follows it. At the
    /// end of the input this is the end-of-input token, whatever the mode.
    pub fn next(&mut self) -> (r: Result<Token, LexError>)
        requires
            old(self).wf(),
        ensures
            final(self).wf(),
            final(self).text() == old(self).text(),
            r is Ok <==> supported(old(self).text(), old(self).pos(), old(self).lex_mode()),
            match r {
                Ok(tok) => {
                    &&& token_of(
                        old(self).text(),
                        tok,
                        next_span(old(self).text(), old(self).pos(), old(self).lex_mode()),
                    )
                    &&& final(self).pos() == next_span(
                        old(self).text(),
                        old(self).pos(),
                        old(self).lex_mode(),
                    ).end
                    &&& final(self).lex_mode() == next_mode(
                        old(self).text(),
                        old(self).pos(),
                        old(self).lex_mode(),
                    )
                    &&& final(self).crossed_newline() == next_newline(
                        old(self).text(),
                        old(self).pos(),
                        old(self).lex_mode(),
                    )
                    &&& final(self).pending() == tok.diagnostic
                },
                Err(e) => {
                    &&& e == LexError::UnsupportedMode
                    &&& final(self).pos() == old(self).pos()
                    &&& final(self).lex_mode() == old(self).lex_mode()
                    &&& !final(self).crossed_newline()
                    &&& final(self).pending() is None
                },
            },
    {
        self.newline = false;
        self.error = None;
        let start = cursor(&self.s);
        match peek(&self.s) {
            None => Ok(Token { kind: SyntaxKind::EOF, start, end: start, diagnostic: None }),
            Some(c) => {
                let (kind, after) = match self.mode {
                    LexMode::Markdown => {
                        eat(&mut self.s);
                        self.markdown()
                    },
                    LexMode::Code => {
                        eat(&mut self.s);
                        self.code(start, c)
                    },
                    LexMode::Keywords => {
                        return match self.keywords(start, c) {
                            Ok(kind) => Ok(Token { kind, start, end: start, diagnostic: None }),
                            Err(e) => Err(e),
                        };
                    },
                };
                self.mode = after;
                let end = cursor(&self.s);
                Ok(Token { kind, start, end, diagnostic: self.error })
            },
        }
    }
}

/// Splits `text` into tokens, starting in literal-text mode at its first
/// character, up to and including the end-of-input token, which comes
/// exactly once and last.
pub fn lex(text: &str) -> (r: Vec<Token>)
    ensures
        r@.len() == lex_spans(text@).len(),
        forall|k: int| 0 <= k < r@.len() ==> token_of(text@, #[trigger] r@[k], lex_spans(text@)[k]),
        r@.len() >= 1,
        r@.last().kind == SyntaxKind::EOF,
        forall|k: int| 0 <= k < r@.len() - 1 ==> (#[trigger] r@[k]).kind != SyntaxKind::EOF,
        r@[0].start == 0,
        r@.last().end as nat == byte_offset(text@, text@.len()),
        forall|i: int, j: int|
            0 <= i < r@.len() - 1 && j == i + 1 ==> #[trigger] r@[i].end == #[trigger] r@[j].start,
{
    let ghost t = text@;
    let ghost spans = lex_spans(t);
    let mut lexer = Lexer::new(text, LexMode::Markdown);
    let mut tokens: Vec<Token> = Vec::new();
    let ghost mut done: Seq<Span> = seq![];
    loop
        invariant_except_break
            spans == done + tokens_from(t, lexer.pos(), lexer.lex_mode()),
        invariant
            lexer.wf(),
            lexer.text() == t,
            lexer.lex_mode() != LexMode::Keywords,
            tokens@.len() == done.len(),
            forall|k: int| 0 <= k < tokens@.len() ==> token_of(t, #[trigger] tokens@[k], done[k]),
        ensures
            tokens@.len() == spans.len(),
            forall|k: int| 0 <= k < tokens@.len() ==> token_of(t, #[trigger] tokens@[k], spans[k]),
        decreases t.len() - lexer.pos(),
    {
        let ghost p = lexer.pos();
        let ghost mode = lexer.lex_mode();
        proof {
            lemma_next_span_bounds(t, p, mode);
        }
        let tok = match lexer.next() {
            Ok(tok) => tok,
            Err(_) => {
                break;
            },
        };
        tokens.push(tok);
        proof {
            let span = next_span(t, p, mode);
            let rest = tokens_from(t, lexer.pos(), lexer.lex_mode());
            if p < t.len() {
                assert(tokens_from(t, p, mode) == seq![span] + rest);
                assert(spans == (done + seq![span]) + rest);
            } else {
                assert(tokens_from(t, p, mode) == seq![span]);
                assert(spans == done + seq![span]);
            }
            done = done + seq![span];
            assert forall|k: int| 0 <= k < tokens@.len() implies token_of(
                t,
                #[trigger] tokens@[k],
                done[k],
            ) by {}
        }
        if tok.kind == SyntaxKind::EOF {
            assert(spans == done);
            break;
        }
    }
    proof {
        lemma_tokens_end_with_eof(t, 0, LexMode::Markdown);
        lemma_tokens_rebuild_text(t);
        assert(token_of(t, tokens@[0], spans[0]));
        assert(token_of(t, tokens@.last(), spans.last()));
        assert forall|i: int, j: int| 0 <= i < tokens@.len() - 1 && j == i + 1 implies #[trigger] tokens@[i].end
            == #[trigger] tokens@[j].start by {
            assert(token_of(t, tokens@[i], spans[i]));
            assert(token_of(t, tokens@[j], spans[j]));
            assert(spans[i].end == spans[j].start);
        }
    }
    tokens
}

} // verus!
