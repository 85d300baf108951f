//! Tokenizer tests.

use embedded_text::parser::{Parser, Token};

fn chars(s: &str) -> Vec<char> {
    s.chars().collect()
}

fn collect_tokens<'a>(text: &'a [char]) -> Vec<Token<'a>> {
    let mut parser = Parser::parse(text);
    let mut tokens = Vec::new();
    while let Some(token) = parser.next_token() {
        tokens.push(token);
    }
    tokens
}

fn assert_tokens(text: &[char], tokens: Vec<Token>) {
    assert_eq!(collect_tokens(text), tokens)
}

#[test]
fn test_parse() {
    // (At least) for now, \r is considered a whitespace
    let text = chars("Lorem ipsum \r dolor sit am\u{00AD}et,\tconse😅ctetur adipiscing\nelit");
    let lorem = chars("Lorem");
    let ipsum = chars("ipsum");
    let dolor = chars("dolor");
    let sit = chars("sit");
    let am = chars("am");
    let et = chars("et,");
    let conse = chars("conse😅ctetur");
    let adipiscing = chars("adipiscing");
    let elit = chars("elit");
    assert_tokens(
        &text,
        vec![
            Token::Word(&lorem),
            Token::Whitespace(1),
            Token::Word(&ipsum),
            Token::Whitespace(1),
            Token::CarriageReturn,
            Token::Whitespace(1),
            Token::Word(&dolor),
            Token::Whitespace(1),
            Token::Word(&sit),
            Token::Whitespace(1),
            Token::Word(&am),
            Token::Break(Some('-')),
            Token::Word(&et),
            Token::Tab,
            Token::Word(&conse),
            Token::Whitespace(1),
            Token::Word(&adipiscing),
            Token::NewLine,
            Token::Word(&elit),
        ],
    );
}

#[test]
fn parse_zwsp() {
    assert_eq!(9, "two\u{200B}words".chars().count());

    let text = chars("two\u{200B}words");
    let two = chars("two");
    let words = chars("words");
    assert_tokens(
        &text,
        vec![Token::Word(&two), Token::Break(None), Token::Word(&words)],
    );

    let spaces = chars("  \u{200B} ");
    assert_tokens(&spaces, vec![Token::Whitespace(3)]);
}

#[test]
fn parse_multibyte_last() {
    let text = chars("test😅");
    let word = chars("test😅");
    assert_tokens(&text, vec![Token::Word(&word)]);
}

#[test]
fn parse_nbsp_as_word_char() {
    assert_eq!(9, "test\u{A0}word".chars().count());

    let text = chars("test\u{A0}word");
    let word = chars("test\u{A0}word");
    assert_tokens(&text, vec![Token::Word(&word)]);

    let text2 = chars(" \u{A0}word");
    let word2 = chars("\u{A0}word");
    assert_tokens(&text2, vec![Token::Whitespace(1), Token::Word(&word2)]);
}

#[test]
fn parse_shy_issue_42() {
    let text = chars("foo\u{AD}bar");
    let foo = chars("foo");
    let bar = chars("bar");
    assert_tokens(
        &text,
        vec![
            Token::Word(&foo),
            Token::Break(Some('-')),
            Token::Word(&bar),
        ],
    );
}

#[test]
fn escape_char_ignored_if_not_ansi_sequence() {
    let text = chars("foo\x1bbar");
    let foo = chars("foo");
    let bar = chars("bar");
    assert_tokens(
        &text,
        vec![Token::Word(&foo), Token::Escape, Token::Word(&bar)],
    );

    // can escape the escape char
    let text2 = chars("foo\x1b\x1bbar");
    assert_tokens(
        &text2,
        vec![Token::Word(&foo), Token::Escape, Token::Word(&bar)],
    );
}

#[test]
fn parser_is_empty_and_remaining() {
    let text = chars("ab c");
    let mut parser = Parser::parse(&text);
    assert!(!parser.is_empty());
    assert_eq!(parser.remaining(), 4);
    parser.next_token();
    assert_eq!(parser.remaining(), 2);
    parser.next_token();
    parser.next_token();
    assert!(parser.is_empty());
    assert_eq!(collect_tokens(&[]), vec![]);
}

#[test]
fn tokenizer_round_trip_concrete() {
    // Rebuilding the text from the tokens removes the markers, keeps the
    // control characters, and expands whitespace runs to counted spaces.
    let text = chars("foo\u{AD}bar \u{200B} baz\tqu\u{1b}ux\r\nend");
    let mut rebuilt = String::new();
    for token in collect_tokens(&text) {
        match token {
            Token::Word(w) => rebuilt.extend(w.iter()),
            Token::Whitespace(n) => {
                for _ in 0..n {
                    rebuilt.push(' ');
                }
            }
            Token::NewLine => rebuilt.push('\n'),
            Token::CarriageReturn => rebuilt.push('\r'),
            Token::Tab => rebuilt.push('\t'),
            Token::Escape | Token::Break(_) => {}
            Token::ExtraCharacter(c) => rebuilt.push(c),
        }
    }
    assert_eq!(rebuilt, "foobar  baz\tquux\r\nend");
}
