use vdf_reader::lexer::{SpannedToken, Token};
use vdf_reader::{Span, Tokenizer};

fn get_token(input: &str) -> Option<Result<Token, Span>> {
    let mut lex = Tokenizer::from_str(input);
    lex.next().map(|found| found.map(|token| token.written()))
}

fn get_tokens(input: &str) -> Result<Vec<(Token, &str)>, Span> {
    let mut lex = Tokenizer::from_str(input);
    let mut tokens = Vec::new();
    while let Some(found) = lex.next() {
        let token: SpannedToken = found?;
        tokens.push((token.written(), &input[token.span.start..token.span.end]));
    }
    Ok(tokens)
}

#[test]
fn lexer_next() {
    assert_eq!(get_token("test"), Some(Ok(Token::Item)));
    assert_eq!(get_token("\"test\""), Some(Ok(Token::QuotedItem)));
    assert_eq!(get_token("\"\""), Some(Ok(Token::QuotedItem)));
    assert_eq!(get_token("\"\" "), Some(Ok(Token::QuotedItem)));
    assert_eq!(get_token("#test"), Some(Ok(Token::Statement)));
    assert_eq!(get_token("\"#test\""), Some(Ok(Token::QuotedStatement)));
    assert_eq!(get_token("{"), Some(Ok(Token::GroupStart)));
    assert_eq!(get_token("}"), Some(Ok(Token::GroupEnd)));
    assert_eq!(get_token("//test more"), None);

    assert_eq!(get_token("test"), Some(Ok(Token::Item)));
    assert_eq!(get_token("#test"), Some(Ok(Token::Statement)));

    assert_eq!(get_token("lol wut"), Some(Ok(Token::Item)));
    assert_eq!(get_token("#lol wut"), Some(Ok(Token::Statement)));

    assert_eq!(get_token("lol{"), Some(Ok(Token::Item)));
    assert_eq!(get_token("#lol{"), Some(Ok(Token::Statement)));

    assert_eq!(get_token("lol}"), Some(Ok(Token::Item)));
    assert_eq!(get_token("#lol}"), Some(Ok(Token::Statement)));

    assert_eq!(get_token("\"test\""), Some(Ok(Token::QuotedItem)));
    assert_eq!(get_token("\"#test\""), Some(Ok(Token::QuotedStatement)));

    assert_eq!(get_token("\"te\\\"st\""), Some(Ok(Token::QuotedItem)));
    assert_eq!(get_token("\"te\\st\""), Some(Ok(Token::QuotedItem)));
    assert_eq!(get_token("\"#te\\\"st\""), Some(Ok(Token::QuotedStatement)));
}

#[test]
fn lexer_tokenize() {
    assert_eq!(
        get_tokens(
            r#"foo { // eol comment
                "asd" "bar"
                // a comment
                #include other
                empty ""
                \\"broken" comment
            }"#
        ),
        Ok(vec![
            (Token::Item, "foo"),
            (Token::GroupStart, "{"),
            (Token::QuotedItem, r#""asd""#),
            (Token::QuotedItem, r#""bar""#),
            (Token::Statement, r#"#include"#),
            (Token::Item, r#"other"#),
            (Token::Item, r#"empty"#),
            (Token::QuotedItem, r#""""#),
            (Token::Item, r#"\\"broken""#),
            (Token::Item, r#"comment"#),
            (Token::GroupEnd, "}")
        ])
    )
}

#[test]
fn lexing_from_a_position() {
    let source = b"ab {c}";
    let (found, end) = vdf_reader::lexer::lex(source, 2);
    assert_eq!(
        found,
        Some(Ok(SpannedToken {
            token: vdf_reader::Token::GroupStart,
            quoted: false,
            span: Span { start: 3, end: 4 }
        }))
    );
    assert_eq!(end, 4);
    assert_eq!(vdf_reader::lexer::lex(source, 6), (None, 6));
    assert_eq!(vdf_reader::lexer::lex(source, 9), (None, 9));
    let mut from_bytes = Tokenizer::from_bytes(source);
    assert_eq!(from_bytes.source(), source);
    assert_eq!(from_bytes.next().unwrap().unwrap().span, Span { start: 0, end: 2 });
}

#[test]
fn quoted_string_is_an_item() {
    let mut t = Tokenizer::from_str(r#""te\"st""#);
    let tok = t.next().unwrap().unwrap();
    assert_eq!(tok.span, Span { start: 0, end: 8 });
    assert_eq!(tok.token, vdf_reader::Token::Item);
    assert!(tok.quoted);
    assert_eq!(tok.written(), Token::QuotedItem);
    assert_eq!(t.next(), None);
    assert_eq!(t.count(), 1);
    let mut t = Tokenizer::from_str("\"#a\" #b c {");
    let kinds: Vec<(vdf_reader::Token, bool)> = std::iter::from_fn(|| t.next())
        .map(|found| found.unwrap())
        .map(|token| (token.token, token.quoted))
        .collect();
    assert_eq!(
        kinds,
        vec![
            (vdf_reader::Token::Statement, true),
            (vdf_reader::Token::Statement, false),
            (vdf_reader::Token::Item, false),
            (vdf_reader::Token::GroupStart, false),
        ]
    );
}
