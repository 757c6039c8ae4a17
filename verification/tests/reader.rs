use vdf_reader::error::{ExpectToken, WrongEventTypeError};
use vdf_reader::event::{EventType, ValueContinuationEvent};
use vdf_reader::lexer::SpannedToken;
use vdf_reader::reader::{quoted_string, string};
use vdf_reader::{
    EntryEvent, Event, GroupEndEvent, GroupStartEvent, Item, Reader, SourceSpan, Span, Token,
    Tokenizer, VdfError,
};

fn item(content: &str, start: usize, end: usize) -> Item {
    Item::Item {
        content: content.as_bytes().to_vec(),
        span: Span { start, end },
    }
}

#[test]
fn events_in_order() {
    let mut reader = Reader::from_str("a b\n\"#c\" d e\ng { // x\n h \"i j\"\n}\n");
    assert_eq!(reader.last_event(), None);
    assert_eq!(
        reader.event(),
        Some(Ok(Event::Entry(EntryEvent {
            key: item("a", 0, 1),
            value: item("b", 2, 3),
            span: Span { start: 0, end: 3 },
        })))
    );
    assert_eq!(reader.last_event(), Some(EventType::Entry));
    assert_eq!(
        reader.event(),
        Some(Ok(Event::Entry(EntryEvent {
            key: Item::Statement {
                content: b"#c".to_vec(),
                span: Span { start: 4, end: 8 },
            },
            value: item("d", 9, 10),
            span: Span { start: 4, end: 10 },
        })))
    );
    assert_eq!(
        reader.event(),
        Some(Ok(Event::ValueContinuation(ValueContinuationEvent {
            value: item("e", 11, 12),
            span: Span { start: 11, end: 12 },
        })))
    );
    assert_eq!(reader.span(), Span { start: 11, end: 12 });
    assert_eq!(
        reader.event(),
        Some(Ok(Event::GroupStart(GroupStartEvent {
            name: b"g".to_vec(),
            span: Span { start: 15, end: 16 },
        })))
    );
    assert_eq!(
        reader.event(),
        Some(Ok(Event::Entry(EntryEvent {
            key: item("h", 23, 24),
            value: item("i j", 25, 30),
            span: Span { start: 23, end: 30 },
        })))
    );
    let end = reader.event().unwrap().unwrap();
    assert_eq!(end.ty(), EventType::GroupEnd);
    assert_eq!(end.span(), Span { start: 31, end: 32 });
    assert_eq!(reader.event(), None);
    assert_eq!(reader.event(), None);
    assert_eq!(reader.last_event(), Some(EventType::GroupEnd));
}

#[test]
fn reader_errors() {
    let mut reader = Reader::from_str("key");
    match reader.event() {
        Some(Err(VdfError::UnexpectedToken(e))) => {
            assert_eq!(e.found, None);
            assert_eq!(
                e.err_span,
                SourceSpan {
                    offset: 3,
                    length: 0
                }
            );
            assert_eq!(e.src, b"key".to_vec());
        }
        other => panic!("{:?}", other),
    }
    let mut reader = Reader::from_str("key }");
    assert!(matches!(
        reader.event(),
        Some(Err(VdfError::UnexpectedToken(e))) if e.found == Some(Token::GroupEnd)
    ));
    let mut reader = Reader::from_str("{");
    assert!(matches!(
        reader.event(),
        Some(Err(VdfError::UnexpectedToken(e))) if e.found == Some(Token::GroupStart)
    ));
    let mut reader = Reader::from_str("key \"value");
    assert!(matches!(
        reader.event(),
        Some(Err(VdfError::NoValidToken(e))) if e.err_span == SourceSpan { offset: 4, length: 6 }
    ));
    let mut reader = Reader::from_str("# x");
    assert!(matches!(
        reader.event(),
        Some(Err(VdfError::NoValidToken(e))) if e.err_span == SourceSpan { offset: 0, length: 1 }
    ));
}

#[test]
fn lexical_errors() {
    let mut lex = Tokenizer::from_str("a \"b\\\nc\" d");
    assert_eq!(
        lex.next(),
        Some(Ok(SpannedToken {
            token: Token::Item,
            quoted: false,
            span: Span { start: 0, end: 1 }
        }))
    );
    // a backslash does not take a line feed along
    assert_eq!(lex.next(), Some(Err(Span { start: 2, end: 5 })));
    assert_eq!(lex.span(), Span { start: 2, end: 5 });
    assert_eq!(lex.count(), 1);
    let mut lex = Tokenizer::from_str("#\"x\"");
    assert_eq!(lex.next(), Some(Err(Span { start: 0, end: 1 })));
    assert_eq!(
        lex.next(),
        Some(Ok(SpannedToken {
            token: Token::Item,
            quoted: true,
            span: Span { start: 1, end: 4 }
        }))
    );
    assert_eq!(lex.next(), None);
    assert_eq!(lex.span(), Span { start: 4, end: 4 });
    let mut lex = Tokenizer::from_str("\"a\\");
    assert_eq!(lex.next(), Some(Err(Span { start: 0, end: 3 })));
    // a form feed is no whitespace: it belongs to the item it stands in
    let mut lex = Tokenizer::from_str("a\r\n\tb\x0c/c //d\n/");
    let mut kinds = Vec::new();
    while let Some(found) = lex.next() {
        let token = found.unwrap();
        kinds.push((token.span.start, token.span.end));
    }
    assert_eq!(kinds, vec![(0, 1), (4, 8), (13, 14)]);
    assert_eq!(lex.count(), 3);
    assert_eq!(lex.offset(), 14);
}

#[test]
fn token_text() {
    let source = "bare \"quo\\\"ted\" \"#st\\\\mt\" \"\"";
    let mut lex = Tokenizer::from_str(source);
    let mut texts = Vec::new();
    while let Some(found) = lex.next() {
        texts.push(found.unwrap().string(source.as_bytes()));
    }
    assert_eq!(
        texts,
        vec![
            b"bare".to_vec(),
            b"quo\"ted".to_vec(),
            b"#st\\mt".to_vec(),
            b"".to_vec()
        ]
    );
    let outside = SpannedToken {
        token: Token::Item,
        quoted: false,
        span: Span { start: 3, end: 99 },
    };
    assert_eq!(outside.string(b"short"), b"".to_vec());
}

#[test]
fn unescaping() {
    assert_eq!(quoted_string(b"\"plain\""), b"plain".to_vec());
    assert_eq!(quoted_string(b"\"a\\\"b\""), b"a\"b".to_vec());
    assert_eq!(quoted_string(b"\"a\\\\b\""), b"a\\b".to_vec());
    assert_eq!(quoted_string(b"\"a\\nb\""), b"a\\nb".to_vec());
    assert_eq!(quoted_string(b"\"a\\n\\\"\""), b"a\\n\"".to_vec());
    assert_eq!(quoted_string(b"\"\\\\\\\""), b"\\".to_vec());
    assert_eq!(quoted_string(b"\"x\\\""), b"x\\".to_vec());
    assert_eq!(quoted_string(b"\"\""), b"".to_vec());
    assert_eq!(quoted_string(b"\""), b"".to_vec());
    assert_eq!(quoted_string(b""), b"".to_vec());
    assert_eq!(string(b"a\\\"b"), b"a\\\"b".to_vec());
}

#[test]
fn expecting_tokens() {
    let token = SpannedToken {
        token: Token::Item,
        quoted: false,
        span: Span { start: 1, end: 3 },
    };
    assert_eq!(
        token.expect_token(&[Token::Statement, Token::Item], b"source"),
        Ok(token)
    );
    match token.expect_token(&[Token::GroupStart], b"source") {
        Err(VdfError::UnexpectedToken(e)) => {
            assert_eq!(e.expected, vec![Token::GroupStart]);
            assert_eq!(e.found, Some(Token::Item));
            assert_eq!(
                e.err_span,
                SourceSpan {
                    offset: 1,
                    length: 2
                }
            );
            assert_eq!(e.src, b"source".to_vec());
        }
        other => panic!("{:?}", other),
    }
    let lexed: Result<SpannedToken, Span> = Err(Span { start: 2, end: 4 });
    assert!(matches!(
        lexed.expect_token(&[Token::Item], b"source"),
        Err(VdfError::NoValidToken(e)) if e.err_span == SourceSpan { offset: 2, length: 2 }
    ));
    let ended: Option<Result<SpannedToken, Span>> = None;
    assert!(matches!(
        ended.expect_token(&[Token::Item], b"source"),
        Err(VdfError::NoValidToken(e)) if e.err_span == SourceSpan { offset: 6, length: 0 }
    ));
}

#[test]
fn spans() {
    assert_eq!(
        SourceSpan::from_span(Span::new(3, 7)),
        SourceSpan {
            offset: 3,
            length: 4
        }
    );
    assert_eq!(
        SourceSpan::from_span(Span::new(7, 3)),
        SourceSpan {
            offset: 7,
            length: 0
        }
    );
    assert_eq!(Span::new(3, 7).len(), 4);
    assert_eq!(Span::new(7, 3).len(), 0);
    assert!(Span::new(7, 7).is_empty());
    assert!(!Span::new(7, 8).is_empty());
}

#[test]
fn events_convert() {
    let entry = Event::Entry(EntryEvent {
        key: item("a", 0, 1),
        value: item("b", 2, 3),
        span: Span { start: 0, end: 3 },
    });
    assert!(EntryEvent::try_from(entry.clone()).is_ok());
    match GroupStartEvent::try_from(entry.clone()) {
        Err(VdfError::WrongEntryType(e)) => {
            assert_eq!(e.expected, "group start");
            assert_eq!(e.got, "entry");
            assert_eq!(e.event, entry);
            assert_eq!(
                e.err_span,
                SourceSpan {
                    offset: 0,
                    length: 3
                }
            );
            assert_eq!(
                e.message(),
                "Wrong event to for conversion, expected a group start but found a entry"
            );
        }
        other => panic!("{:?}", other),
    }
    let end = Event::GroupEnd(GroupEndEvent {
        span: Span { start: 4, end: 5 },
    });
    assert_eq!(
        GroupEndEvent::try_from(end.clone()),
        Ok(GroupEndEvent {
            span: Span { start: 4, end: 5 }
        })
    );
    assert!(matches!(
        EntryEvent::try_from(end),
        Err(VdfError::WrongEntryType(e)) if e.expected == "entry" && e.got == "group end"
    ));
    assert!(matches!(
        GroupEndEvent::try_from(entry),
        Err(VdfError::WrongEntryType(e)) if e.expected == "group end" && e.got == "entry"
    ));
}

#[test]
fn errors_take_their_place() {
    let event = Event::GroupEnd(GroupEndEvent {
        span: Span { start: 4, end: 5 },
    });
    let plain = WrongEventTypeError::new(event.clone(), "entry", "group end");
    assert_eq!(plain.src, Vec::<u8>::new());
    let sourced = plain.with_source(b"text".to_vec());
    assert_eq!(sourced.src, b"text".to_vec());
    assert_eq!(
        WrongEventTypeError::new_with_source(event, "entry", "group end", b"text".to_vec()),
        sourced
    );

    let bare = VdfError::WrongEntryType(Box::new(WrongEventTypeError::new(
        Event::GroupEnd(GroupEndEvent {
            span: Span { start: 4, end: 5 },
        }),
        "entry",
        "group end",
    )));
    assert_eq!(
        bare.span(),
        Some(SourceSpan {
            offset: 4,
            length: 1
        })
    );
    assert!(bare.lacks_context());
    let placed = bare.clone().ensure_span(Span::new(1, 9), b"some text");
    assert_eq!(
        placed.span(),
        Some(SourceSpan {
            offset: 1,
            length: 8
        })
    );
    assert!(!placed.lacks_context());
    assert_eq!(placed.clone().ensure_span(Span::new(0, 1), b"other"), placed);
    let moved = placed.with_source_span(Span::new(0, 2), b"other");
    assert_eq!(
        moved.span(),
        Some(SourceSpan {
            offset: 0,
            length: 2
        })
    );
    let other = VdfError::Other("message".to_string());
    assert_eq!(other.span(), None);
    assert_eq!(other.clone().with_source_span(Span::new(0, 2), b"x"), other);
    assert_eq!(other.clone().ensure_span(Span::new(0, 2), b"x"), other);
}
