use vdf_reader::parser::{next_kind, Token};
use vdf_reader::Span;

fn get_token(input: &str) -> Option<Result<Token, Span>> {
    next_kind(input.as_bytes(), 0)
        .0
        .map(|found| found.map(|(token, _)| token))
}

fn get_tokens(input: &str) -> Result<Vec<(Token, &str)>, Span> {
    let mut tokens = Vec::new();
    let mut pos = 0;
    loop {
        let (found, end) = next_kind(input.as_bytes(), pos);
        match found {
            None => return Ok(tokens),
            Some(found) => {
                let (token, span) = found?;
                tokens.push((token, &input[span.start..span.end]));
            }
        }
        pos = end;
    }
}

#[test]
fn parser_next() {
    assert_eq!(get_token("test"), Some(Ok(Token::Item)));
    assert_eq!(get_token("\"test\""), Some(Ok(Token::Item)));
    assert_eq!(get_token("\"\""), Some(Ok(Token::Item)));
    assert_eq!(get_token("\"\" "), Some(Ok(Token::Item)));
    assert_eq!(get_token("#test"), Some(Ok(Token::Statement)));
    assert_eq!(get_token("\"#test\""), Some(Ok(Token::Statement)));
    assert_eq!(get_token("{"), Some(Ok(Token::GroupStart)));
    assert_eq!(get_token("}"), Some(Ok(Token::GroupEnd)));
    assert_eq!(get_token("//test more"), None);

    assert_eq!(get_token("test"), Some(Ok(Token::Item)));
    assert_eq!(get_token("#test"), Some(Ok(Token::Statement)));

    assert_eq!(get_token("lol wut"), Some(Ok(Token::Item)));
    assert_eq!(get_token("#lol wut"), Some(Ok(Token::Statement)));

    assert_eq!(get_token("lol{"), Some(Ok(Token::Item)));
    assert_eq!(get_token("#lol{"), Some(Ok(Token::Statement)));

    assert_eq!(get_token("lol}"), Some(Ok(Token::Item)));
    assert_eq!(get_token("#lol}"), Some(Ok(Token::Statement)));

    assert_eq!(get_token("\"test\""), Some(Ok(Token::Item)));
    assert_eq!(get_token("\"#test\""), Some(Ok(Token::Statement)));

    assert_eq!(get_token("\"te\\\"st\""), Some(Ok(Token::Item)));
    assert_eq!(get_token("\"te\\st\""), Some(Ok(Token::Item)));
    assert_eq!(get_token("\"#te\\\"st\""), Some(Ok(Token::Statement)));
}

#[test]
fn parser_tokenize() {
    assert_eq!(
        get_tokens(
            r#"foo { // eol comment
                "asd" "bar"
                // a comment
                #include other
                empty ""
            }"#
        ),
        Ok(vec![
            (Token::Item, "foo"),
            (Token::GroupStart, "{"),
            (Token::Item, r#""asd""#),
            (Token::Item, r#""bar""#),
            (Token::Statement, r#"#include"#),
            (Token::Item, r#"other"#),
            (Token::Item, r#"empty"#),
            (Token::Item, r#""""#),
            (Token::GroupEnd, "}")
        ])
    )
}

#[test]
fn kinds_have_names() {
    assert_eq!(Token::from(vdf_reader::lexer::Token::QuotedStatement), Token::Statement);
    assert_eq!(Token::from(vdf_reader::lexer::Token::QuotedItem), Token::Item);
    assert_eq!(Token::GroupStart.name(), "start of group");
    assert_eq!(Token::GroupEnd.name(), "end of group");
    assert_eq!(Token::Item.name(), "item");
    assert_eq!(Token::Statement.name(), "statement");
    assert_eq!(vdf_reader::lexer::Token::QuotedItem.name(), "quoted item");
    assert_eq!(vdf_reader::lexer::Token::QuotedStatement.name(), "quoted statement");
}
