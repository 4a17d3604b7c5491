use mdreplace::lexer::{lex, Lexer};
use mdreplace::parser::SyntaxKind;
use mdreplace::token::{Diagnostic, LexError, LexMode, Token};

fn tok(kind: SyntaxKind, start: usize, end: usize) -> Token {
    Token { kind, start, end, diagnostic: None }
}

fn bad(start: usize, end: usize, d: Diagnostic) -> Token {
    Token { kind: SyntaxKind::Variables, start, end, diagnostic: Some(d) }
}

fn rebuild(text: &str, tokens: &[Token]) -> String {
    tokens.iter().map(|t| &text[t.start..t.end]).collect()
}

fn assert_eof_once_last(tokens: &[Token]) {
    assert!(!tokens.is_empty());
    assert_eq!(tokens.last().unwrap().kind, SyntaxKind::EOF);
    let n = tokens.iter().filter(|t| t.kind == SyntaxKind::EOF).count();
    assert_eq!(n, 1);
}

#[test]
fn test_lexer() {
    let text = "# Title\n\nSome text with {{ name }} and {% if x %}more{% endif %}.\nA {lone} brace.\n";
    let tokens = lex(text);
    println!("{:?}", tokens);
    assert_eof_once_last(&tokens);
    assert_eq!(rebuild(text, &tokens), text);
}

#[test]
fn plain_text_is_one_literal_token() {
    let tokens = lex("hello world");
    assert_eq!(
        tokens,
        vec![tok(SyntaxKind::MarkdownText, 0, 11), tok(SyntaxKind::EOF, 11, 11)]
    );
}

#[test]
fn expression_tag_between_text() {
    let tokens = lex("a{{b}}c");
    assert_eq!(
        tokens,
        vec![
            tok(SyntaxKind::MarkdownText, 0, 1),
            tok(SyntaxKind::DoubleCurlyBraces, 1, 6),
            tok(SyntaxKind::MarkdownText, 6, 7),
            tok(SyntaxKind::EOF, 7, 7),
        ]
    );
}

#[test]
fn unterminated_expression_tag_is_malformed() {
    let text = "{{unterminated";
    let mut lexer = Lexer::new(text, LexMode::Code);
    let t = lexer.next().unwrap();
    assert_eq!(t, bad(0, 14, Diagnostic::ExpectedClosingBraces));
    assert_eq!(lexer.error(), Some(Diagnostic::ExpectedClosingBraces));
    assert_eq!(lexer.error().unwrap().message(), "expected closing double brace");
    assert_eq!(lexer.next().unwrap(), tok(SyntaxKind::EOF, 14, 14));
    assert_eq!(lexer.error(), None);
}

#[test]
fn unterminated_expression_tag_at_start_is_literal_text() {
    let tokens = lex("{{unterminated");
    assert_eq!(
        tokens,
        vec![tok(SyntaxKind::MarkdownText, 0, 14), tok(SyntaxKind::EOF, 14, 14)]
    );
}

#[test]
fn lone_brace_and_word_stay_literal() {
    let tokens = lex("a{b c");
    assert_eq!(
        tokens,
        vec![tok(SyntaxKind::MarkdownText, 0, 5), tok(SyntaxKind::EOF, 5, 5)]
    );
}

#[test]
fn empty_input_gives_only_end_of_input() {
    assert_eq!(lex(""), vec![tok(SyntaxKind::EOF, 0, 0)]);
}

#[test]
fn lexing_starts_in_literal_text_mode() {
    let lexer = Lexer::new("x", LexMode::Markdown);
    assert_eq!(lexer.mode(), LexMode::Markdown);
    let tokens = lex("{{x}}");
    assert_eq!(tokens[0].kind, SyntaxKind::MarkdownText);
}

#[test]
fn end_of_input_comes_once_and_last() {
    let texts = [
        "",
        "a",
        "{{",
        "%%",
        "{%",
        "\n\n",
        "a {{x}}{{y}} b",
        "{x\n%y\n{{z\n",
        "text {% for x %}{{x}}{% endfor %}\n",
        "é {{ü}} ñ",
    ];
    for text in texts {
        let tokens = lex(text);
        assert_eof_once_last(&tokens);
    }
}

#[test]
fn tokens_rebuild_the_text() {
    let texts = [
        "",
        "hello world",
        "a{{b}}c",
        "a {{x}}{{y}} b",
        "{x\n%y\n{{z\n",
        "%% a %% b % c\n{ d {{ e }} f",
        "é {{ü}} ñ\u{3000}x",
    ];
    for text in texts {
        let tokens = lex(text);
        assert_eq!(rebuild(text, &tokens), text);
        assert_eq!(tokens[0].start, 0);
        for w in tokens.windows(2) {
            assert_eq!(w[0].end, w[1].start);
        }
        assert_eq!(tokens.last().unwrap().end, text.len());
    }
}

#[test]
fn doubled_percent_tag() {
    let tokens = lex("a%%x%% b");
    assert_eq!(
        tokens,
        vec![
            tok(SyntaxKind::MarkdownText, 0, 1),
            tok(SyntaxKind::DoubleCurlyBraces, 1, 6),
            tok(SyntaxKind::MarkdownText, 6, 8),
            tok(SyntaxKind::EOF, 8, 8),
        ]
    );
}

#[test]
fn single_percent_tag() {
    let mut lexer = Lexer::new("%x%", LexMode::Code);
    assert_eq!(lexer.next().unwrap(), tok(SyntaxKind::DoubleCurlyBraces, 0, 3));
    assert_eq!(lexer.error(), None);
}

#[test]
fn unterminated_percent_tag_then_newline() {
    let mut lexer = Lexer::new("%x\ny", LexMode::Code);
    assert_eq!(lexer.next().unwrap(), bad(0, 2, Diagnostic::ExpectedClosingPercents));
    assert_eq!(lexer.error().unwrap().message(), "expected closing double percent");
    assert_eq!(lexer.mode(), LexMode::Code);
    assert_eq!(lexer.next().unwrap(), tok(SyntaxKind::MarkdownText, 2, 3));
    assert!(lexer.newline());
    assert_eq!(lexer.mode(), LexMode::Markdown);
    assert_eq!(lexer.next().unwrap(), tok(SyntaxKind::MarkdownText, 3, 4));
    assert!(!lexer.newline());
    assert_eq!(lexer.next().unwrap(), tok(SyntaxKind::EOF, 4, 4));
}

#[test]
fn unterminated_doubled_percent_tag() {
    let mut lexer = Lexer::new("%%x", LexMode::Code);
    assert_eq!(lexer.next().unwrap(), bad(0, 3, Diagnostic::ExpectedClosingPercents));
}

#[test]
fn lone_brace_tag_in_tag_mode() {
    let mut lexer = Lexer::new("{x{", LexMode::Code);
    assert_eq!(lexer.next().unwrap(), tok(SyntaxKind::DoubleCurlyBraces, 0, 3));
    let mut lexer = Lexer::new("{x", LexMode::Code);
    assert_eq!(lexer.next().unwrap(), bad(0, 2, Diagnostic::ExpectedOpeningBraces));
    assert_eq!(lexer.error().unwrap().message(), "expected opening double brace");
}

#[test]
fn expression_tag_with_single_closing_brace() {
    let mut lexer = Lexer::new("{{x}y", LexMode::Code);
    assert_eq!(lexer.next().unwrap(), tok(SyntaxKind::DoubleCurlyBraces, 0, 4));
    assert_eq!(lexer.mode(), LexMode::Markdown);
}

#[test]
fn statement_mode_is_unsupported() {
    let mut lexer = Lexer::new("abc", LexMode::Keywords);
    assert_eq!(lexer.next(), Err(LexError::UnsupportedMode));
    assert_eq!(lexer.mode(), LexMode::Keywords);
    lexer.set_mode(LexMode::Markdown);
    assert_eq!(lexer.next().unwrap(), tok(SyntaxKind::MarkdownText, 0, 3));
    let mut lexer = Lexer::new("", LexMode::Keywords);
    assert_eq!(lexer.next().unwrap(), tok(SyntaxKind::EOF, 0, 0));
    assert_eq!(lexer.keywords(0, 'a'), Err(LexError::UnsupportedMode));
}

#[test]
fn multibyte_characters_give_byte_ranges() {
    let tokens = lex("é{{x}}");
    assert_eq!(
        tokens,
        vec![
            tok(SyntaxKind::MarkdownText, 0, 2),
            tok(SyntaxKind::DoubleCurlyBraces, 2, 7),
            tok(SyntaxKind::EOF, 7, 7),
        ]
    );
}

#[test]
fn space_before_non_alphanumeric_ends_the_run() {
    let tokens = lex("a -");
    assert_eq!(
        tokens,
        vec![
            tok(SyntaxKind::MarkdownText, 0, 1),
            tok(SyntaxKind::MarkdownText, 1, 3),
            tok(SyntaxKind::EOF, 3, 3),
        ]
    );
    let tokens = lex("a bé");
    assert_eq!(tokens, vec![tok(SyntaxKind::MarkdownText, 0, 5), tok(SyntaxKind::EOF, 5, 5)]);
}

#[test]
fn other_white_space_ends_the_run() {
    let tokens = lex("a\tb");
    assert_eq!(
        tokens,
        vec![
            tok(SyntaxKind::MarkdownText, 0, 1),
            tok(SyntaxKind::MarkdownText, 1, 3),
            tok(SyntaxKind::EOF, 3, 3),
        ]
    );
    let tokens = lex("a\u{3000}b");
    assert_eq!(tokens[0], tok(SyntaxKind::MarkdownText, 0, 1));
    assert_eq!(tokens.len(), 3);
}

#[test]
fn newline_inside_tag_mode() {
    let mut lexer = Lexer::new("a\nb", LexMode::Markdown);
    assert_eq!(lexer.next().unwrap(), tok(SyntaxKind::MarkdownText, 0, 1));
    assert!(!lexer.newline());
    assert_eq!(lexer.next().unwrap(), tok(SyntaxKind::MarkdownText, 1, 2));
    assert!(lexer.newline());
    assert_eq!(lexer.next().unwrap(), tok(SyntaxKind::MarkdownText, 2, 3));
    assert_eq!(lexer.next().unwrap(), tok(SyntaxKind::EOF, 3, 3));
}

#[test]
fn adjacent_expression_tags() {
    let tokens = lex("a {{x}}{{y}} b");
    assert_eq!(
        tokens,
        vec![
            tok(SyntaxKind::MarkdownText, 0, 1),
            tok(SyntaxKind::MarkdownText, 1, 2),
            tok(SyntaxKind::DoubleCurlyBraces, 2, 7),
            tok(SyntaxKind::DoubleCurlyBraces, 7, 12),
            tok(SyntaxKind::MarkdownText, 12, 14),
            tok(SyntaxKind::EOF, 14, 14),
        ]
    );
}

#[test]
fn copied_lexer_moves_on_its_own() {
    let mut a = Lexer::new("x{{y}}", LexMode::Markdown);
    let mut b = a;
    assert_eq!(a.next().unwrap(), tok(SyntaxKind::MarkdownText, 0, 1));
    assert_eq!(a.mode(), LexMode::Code);
    assert_eq!(b.mode(), LexMode::Markdown);
    assert_eq!(b.next().unwrap(), tok(SyntaxKind::MarkdownText, 0, 1));
    assert_eq!(a.next().unwrap(), tok(SyntaxKind::DoubleCurlyBraces, 1, 6));
    assert_eq!(b.next().unwrap(), tok(SyntaxKind::DoubleCurlyBraces, 1, 6));
}

#[test]
fn set_mode_changes_the_grammar() {
    let mut lexer = Lexer::new("{{x}}", LexMode::Markdown);
    lexer.set_mode(LexMode::Code);
    assert_eq!(lexer.mode(), LexMode::Code);
    assert_eq!(lexer.next().unwrap(), tok(SyntaxKind::DoubleCurlyBraces, 0, 5));
    assert_eq!(lexer.next().unwrap(), tok(SyntaxKind::EOF, 5, 5));
}
