use vdf_reader::de::from_str;
use vdf_reader::entry::{Entry, Table, Value};
use vdf_reader::parse::is_float_text;
use vdf_reader::{Decoded, Deserializer, Field, Shape, SourceSpan, Token, Variant, VdfError};

fn field(name: &str, shape: Shape) -> Field {
    Field {
        name: name.as_bytes().to_vec(),
        shape,
    }
}

fn variant(name: &str, payload: Option<Shape>) -> Variant {
    Variant {
        name: name.as_bytes().to_vec(),
        payload,
    }
}

fn pair(name: &str, value: Decoded) -> (Vec<u8>, Decoded) {
    (name.as_bytes().to_vec(), value)
}

fn text(value: &str) -> Decoded {
    Decoded::Str(value.as_bytes().to_vec())
}

fn signed(value: i64) -> Decoded {
    Decoded::Int(value, value.to_string().into_bytes())
}

fn unsigned(value: u64) -> Decoded {
    Decoded::UInt(value, value.to_string().into_bytes())
}

fn list_of(shape: Shape) -> Shape {
    Shape::List(Box::new(shape))
}

fn optional(shape: Shape) -> Shape {
    Shape::Optional(Box::new(shape))
}

#[test]
fn group_with_one_key() {
    let table = Table::decode_str("{foo bar}").unwrap();
    assert_eq!(table.len(), 1);
    assert_eq!(table.get(b"foo"), Some(&Entry::Value(Value::from("bar"))));
}

#[test]
fn repeated_key_is_a_sequence() {
    let shape = Shape::Struct(vec![field("foo", list_of(Shape::Str))]);
    let expected = Decoded::Table(vec![pair(
        "foo",
        Decoded::List(vec![text("bar"), text("baz")]),
    )]);
    assert_eq!(expected, from_str("foo bar\nfoo baz", &shape).unwrap());
    assert_eq!(expected, from_str("foo bar baz", &shape).unwrap());
}

#[test]
fn sequence_ends_at_another_key() {
    let shape = Shape::Struct(vec![
        field("seq", list_of(Shape::U8)),
        field("other", Shape::Str),
    ]);
    let expected = Decoded::Table(vec![
        pair("seq", Decoded::List(vec![unsigned(1), unsigned(2)])),
        pair("other", text("x")),
    ]);
    assert_eq!(
        expected,
        from_str("{\n seq 1 2\n other x\n}", &shape).unwrap()
    );
    assert_eq!(
        expected,
        from_str("{\n seq 1\n seq 2\n other x\n}", &shape).unwrap()
    );
    assert_eq!(expected, from_str("seq 1 2\nother x", &shape).unwrap());
}

#[test]
fn bracket_string_is_a_sequence() {
    let shape = list_of(Shape::U32);
    assert_eq!(
        Decoded::List(vec![unsigned(1), unsigned(2), unsigned(3)]),
        from_str("\"[1 2 3]\"", &shape).unwrap()
    );
    assert_eq!(
        Decoded::List(vec![unsigned(1), unsigned(2), unsigned(3)]),
        from_str("\"{ 1  2 3 }\"", &shape).unwrap()
    );
    assert_eq!(Decoded::List(vec![]), from_str("\"[]\"", &shape).unwrap());
    let field_shape = Shape::Struct(vec![field("seq", list_of(Shape::I8))]);
    assert_eq!(
        Decoded::Table(vec![pair(
            "seq",
            Decoded::List(vec![signed(-1), signed(2)])
        )]),
        from_str("{seq \"[-1 2]\"}", &field_shape).unwrap()
    );
}

#[test]
fn bracket_string_error_points_at_element() {
    let shape = list_of(Shape::U8);
    match from_str("  \"[1 x 3]\"", &shape) {
        Err(VdfError::SerdeParse(e)) => {
            assert_eq!(e.ty, "u8");
            assert_eq!(e.value, b"x".to_vec());
            assert_eq!(
                e.err_span,
                SourceSpan {
                    offset: 6,
                    length: 1
                }
            );
            assert_eq!(e.src, b"  \"[1 x 3]\"".to_vec());
        }
        other => panic!("{:?}", other),
    }
}

#[test]
fn struct_with_or_without_braces() {
    let shape = Shape::Struct(vec![field("int", Shape::U32), field("seq", Shape::Str)]);
    let enclosed = from_str(r#"{"int" 1 "seq" "b"}"#, &shape).unwrap();
    let toplevel = from_str(r#""int" 1 "seq" "b""#, &shape).unwrap();
    assert_eq!(enclosed, toplevel);
    assert_eq!(
        enclosed,
        Decoded::Table(vec![pair("int", unsigned(1)), pair("seq", text("b"))])
    );
}

#[test]
fn unknown_keys_are_dropped() {
    let shape = Shape::Struct(vec![field("a", Shape::U8)]);
    assert_eq!(
        Decoded::Table(vec![pair("a", unsigned(1))]),
        from_str("{b {c d} a 1 e \"[1 2]\" f g}", &shape).unwrap()
    );
}

#[test]
fn group_not_at_start_needs_brace() {
    let shape = Shape::Struct(vec![field(
        "a",
        Shape::Struct(vec![field("b", Shape::U8)]),
    )]);
    match from_str("{a b 1}", &shape) {
        Err(VdfError::UnexpectedToken(e)) => {
            assert_eq!(e.expected, vec![Token::GroupStart]);
            assert_eq!(e.found, Some(Token::Item));
            assert_eq!(
                e.err_span,
                SourceSpan {
                    offset: 3,
                    length: 1
                }
            );
            assert_eq!(
                e.message(),
                "Unexpected token, found item expected one of start of group"
            );
        }
        other => panic!("{:?}", other),
    }
}

fn tagged() -> Shape {
    Shape::Enum(vec![
        variant("Unit", None),
        variant("Newtype", Some(Shape::U32)),
        variant("Tuple", Some(list_of(Shape::U8))),
        variant("Struct", Some(Shape::Struct(vec![field("a", Shape::U32)]))),
    ])
}

#[test]
fn enum_variants() {
    let shape = tagged();
    assert_eq!(
        Decoded::Variant(
            b"Struct".to_vec(),
            Some(Box::new(Decoded::Table(vec![pair("a", unsigned(1))])))
        ),
        from_str("Struct {\"a\" 1}", &shape).unwrap()
    );
    assert_eq!(
        Decoded::Variant(b"Newtype".to_vec(), Some(Box::new(unsigned(7)))),
        from_str("{ Newtype 7 }", &shape).unwrap()
    );
    assert_eq!(
        Decoded::Variant(
            b"Tuple".to_vec(),
            Some(Box::new(Decoded::List(vec![
                unsigned(1),
                unsigned(2)
            ])))
        ),
        from_str("Tuple 1 2", &shape).unwrap()
    );
    assert_eq!(
        Decoded::Variant(b"Unit".to_vec(), None),
        from_str("Unit", &shape).unwrap()
    );
    assert!(matches!(
        from_str("{ Newtype 7", &shape),
        Err(VdfError::NoValidToken(_))
    ));
    assert!(matches!(
        from_str("{ Newtype 7 8 }", &shape),
        Err(VdfError::UnexpectedToken(e)) if e.found == Some(Token::Item)
            && e.expected == vec![Token::GroupEnd]
    ));
}

#[test]
fn unknown_variant_points_at_tag() {
    let shape = tagged();
    match from_str("  Other {\"a\" 1}", &shape) {
        Err(VdfError::UnknownVariant(e)) => {
            assert_eq!(e.variant, b"Other".to_vec());
            assert_eq!(
                e.expected,
                vec![
                    b"Unit".to_vec(),
                    b"Newtype".to_vec(),
                    b"Tuple".to_vec(),
                    b"Struct".to_vec()
                ]
            );
            assert_eq!(
                e.err_span,
                SourceSpan {
                    offset: 2,
                    length: 5
                }
            );
            assert_eq!(e.src, b"  Other {\"a\" 1}".to_vec());
        }
        other => panic!("{:?}", other),
    }
    let in_field = Shape::Struct(vec![field("kind", tagged())]);
    match from_str("{kind Nope}", &in_field) {
        Err(VdfError::UnknownVariant(e)) => {
            assert_eq!(
                e.err_span,
                SourceSpan {
                    offset: 6,
                    length: 4
                }
            );
        }
        other => panic!("{:?}", other),
    }
}

#[test]
fn empty_value_is_absent() {
    let shape = Shape::Struct(vec![
        field("a", optional(Shape::Str)),
        field("b", optional(Shape::U8)),
        field("c", optional(Shape::Str)),
    ]);
    assert_eq!(
        Decoded::Table(vec![
            pair("a", Decoded::Absent),
            pair("b", Decoded::Present(Box::new(unsigned(3)))),
            pair("c", Decoded::Present(Box::new(text(" ")))),
        ]),
        from_str("{a \"\" b 3 c \" \"}", &shape).unwrap()
    );
    assert_eq!(
        Decoded::Absent,
        from_str("", &optional(Shape::U8)).unwrap()
    );
    assert_eq!(
        Decoded::Absent,
        from_str("\"\"", &optional(optional(Shape::U8))).unwrap()
    );
    assert_eq!(
        Decoded::Present(Box::new(Decoded::Present(Box::new(unsigned(1))))),
        from_str("1", &optional(optional(Shape::U8))).unwrap()
    );
    assert!(matches!(
        from_str("\"x", &optional(Shape::Str)),
        Err(VdfError::NoValidToken(_))
    ));
}

#[test]
fn sequence_of_optional_values_ends() {
    let shape = list_of(optional(Shape::U8));
    let mut de = Deserializer::from_str("x 1 2");
    de.read_str().unwrap();
    assert_eq!(
        Decoded::List(vec![
            Decoded::Present(Box::new(unsigned(1))),
            Decoded::Present(Box::new(unsigned(2))),
            Decoded::Absent
        ]),
        de.decode(&shape).unwrap()
    );
}

#[test]
fn malformed_input() {
    match from_str("  \"abc", &Shape::Str) {
        Err(VdfError::NoValidToken(e)) => {
            assert_eq!(
                e.err_span,
                SourceSpan {
                    offset: 2,
                    length: 4
                }
            );
            assert_eq!(e.src, b"  \"abc".to_vec());
            assert_eq!(
                e.message(),
                "No valid token found, expected one of item, statement"
            );
        }
        other => panic!("{:?}", other),
    }
    let shape = Shape::Struct(vec![field("a", Shape::U8)]);
    match from_str("{\"a\" 1", &shape) {
        Err(VdfError::UnexpectedToken(e)) => {
            assert_eq!(e.found, None);
            assert_eq!(
                e.err_span,
                SourceSpan {
                    offset: 6,
                    length: 0
                }
            );
            assert_eq!(
                e.message(),
                "Unexpected end of input expected one of item, statement, end of group"
            );
        }
        other => panic!("{:?}", other),
    }
    match from_str("{\"a\" x}", &shape) {
        Err(VdfError::SerdeParse(e)) => {
            assert_eq!(e.ty, "u8");
            assert_eq!(e.value, b"x".to_vec());
            assert_eq!(
                e.err_span,
                SourceSpan {
                    offset: 5,
                    length: 1
                }
            );
        }
        other => panic!("{:?}", other),
    }
    assert!(matches!(
        from_str("", &Shape::Str),
        Err(VdfError::NoValidToken(e)) if e.err_span == SourceSpan { offset: 0, length: 0 }
    ));
    assert!(matches!(
        from_str("}", &Shape::Any),
        Err(VdfError::UnexpectedToken(e)) if e.found == Some(Token::GroupEnd)
    ));
    assert!(matches!(
        from_str("{a {b", &Shape::Any),
        Err(VdfError::NoValidToken(_))
    ));
    assert!(matches!(
        from_str("{a {b c", &Shape::Any),
        Err(VdfError::UnexpectedToken(e)) if e.found.is_none()
    ));
}

#[test]
fn scalars() {
    assert_eq!(Decoded::Bool(false), from_str("0", &Shape::Bool).unwrap());
    assert_eq!(Decoded::Bool(true), from_str("1", &Shape::Bool).unwrap());
    assert_eq!(Decoded::Bool(true), from_str("true", &Shape::Bool).unwrap());
    assert_eq!(
        Decoded::Bool(false),
        from_str("\"false\"", &Shape::Bool).unwrap()
    );
    assert!(matches!(
        from_str("2", &Shape::Bool),
        Err(VdfError::SerdeParse(e)) if e.ty == "bool" && e.value == b"2".to_vec()
    ));
    assert_eq!(signed(-128), from_str("-128", &Shape::I8).unwrap());
    assert!(matches!(
        from_str("-129", &Shape::I8),
        Err(VdfError::SerdeParse(e)) if e.ty == "i8"
    ));
    assert_eq!(
        signed(i64::MIN),
        from_str("-9223372036854775808", &Shape::I64).unwrap()
    );
    assert_eq!(
        unsigned(u64::MAX),
        from_str("18446744073709551615", &Shape::U64).unwrap()
    );
    assert_eq!(unsigned(65535), from_str("65535", &Shape::U16).unwrap());
    assert!(from_str("65536", &Shape::U16).is_err());
    assert_eq!(
        Decoded::Float(b"-1.5e3".to_vec()),
        from_str("-1.5e3", &Shape::F64).unwrap()
    );
    assert!(matches!(
        from_str("1.5.2", &Shape::F32),
        Err(VdfError::SerdeParse(e)) if e.ty == "f32"
    ));
    assert_eq!(
        Decoded::Char(b"a".to_vec()),
        from_str("a", &Shape::Char).unwrap()
    );
    assert_eq!(
        Decoded::Char("é".as_bytes().to_vec()),
        from_str("é", &Shape::Char).unwrap()
    );
    assert!(matches!(
        from_str("ab", &Shape::Char),
        Err(VdfError::SerdeParse(e)) if e.ty == "char"
    ));
    assert!(from_str("\"\"", &Shape::Char).is_err());
    assert_eq!(Decoded::Unit, from_str("\"\"", &Shape::Unit).unwrap());
    assert!(matches!(
        from_str("x", &Shape::Unit),
        Err(VdfError::SerdeParse(e)) if e.ty == "unit"
    ));
    assert_eq!(
        text("a \"b\" \\ c"),
        from_str(r#""a \"b\" \\ c""#, &Shape::Str).unwrap()
    );
    assert_eq!(text("#base"), from_str("#base", &Shape::Str).unwrap());
    assert!(matches!(
        from_str("{", &Shape::Str),
        Err(VdfError::UnexpectedToken(e)) if e.found == Some(Token::GroupStart)
    ));
}

#[test]
fn any_shape_is_inferred() {
    assert_eq!(signed(12), from_str("12", &Shape::Any).unwrap());
    assert_eq!(signed(-12), from_str("\"-12\"", &Shape::Any).unwrap());
    assert_eq!(
        Decoded::Float(b"1e5".to_vec()),
        from_str("1e5", &Shape::Any).unwrap()
    );
    assert_eq!(
        Decoded::Float(b"inf".to_vec()),
        from_str("inf", &Shape::Any).unwrap()
    );
    assert_eq!(text("abc"), from_str("abc", &Shape::Any).unwrap());
    assert_eq!(text("[1]"), from_str("[1]", &Shape::Any).unwrap());
    assert_eq!(
        Decoded::List(vec![signed(1), text("b")]),
        from_str("\"[1 b]\"", &Shape::Any).unwrap()
    );
    assert_eq!(
        Decoded::Table(vec![
            pair("a", signed(1)),
            pair("b", Decoded::Table(vec![pair("c", text("d"))])),
        ]),
        from_str("{a 1 b {c d}}", &Shape::Any).unwrap()
    );
    assert_eq!(
        Decoded::Table(vec![pair("a", signed(1))]),
        from_str("{a 1} trailing", &Shape::Any).unwrap()
    );
}

#[test]
fn table_of_one_shape() {
    let shape = Shape::Table(Box::new(Shape::Bool));
    assert_eq!(
        Decoded::Table(vec![
            pair("a", Decoded::Bool(true)),
            pair("#b", Decoded::Bool(false))
        ]),
        from_str("a 1 // comment\n\"#b\" 0", &shape).unwrap()
    );
    assert_eq!(Decoded::Table(vec![]), from_str("{}", &shape).unwrap());
}

#[test]
fn cursor_gives_tokens_back() {
    let mut de = Deserializer::from_str("a { b }");
    assert_eq!(de.source(), b"a { b }");
    let first = de.peek().unwrap().unwrap();
    assert_eq!(first.token, Token::Item);
    assert_eq!(de.count(), 1);
    assert_eq!(de.next(), Some(Ok(first)));
    assert_eq!(de.last_span(), first.span);
    let brace = de.next().unwrap().unwrap();
    assert_eq!(brace.token, Token::GroupStart);
    de.push_peeked(first);
    assert_eq!(de.next(), Some(Ok(first)));
    assert_eq!(de.read_str().unwrap().0, b"b".to_vec());
    assert_eq!(de.next().unwrap().unwrap().token, Token::GroupEnd);
    assert_eq!(de.next(), None);
    assert_eq!(de.peek(), None);
    assert_eq!(de.count(), 4);
}

#[test]
fn floating_point_texts() {
    for text in [
        "0", "5", "5.", ".5", "0.5", "-1.5", "+1.5", "1e5", "1E5", "1.5e-3", "1.e+3", "inf", "-inf",
        "+Infinity", "NaN", "nan", "-nan", "00.100",
    ] {
        assert!(is_float_text(text.as_bytes()), "{}", text);
        assert!(text.parse::<f64>().is_ok(), "{}", text);
    }
    for text in [
        "", ".", "+", "-", "e5", "1e", "1e+", "1.5.2", "1,5", " 1", "1 ", "infinit", "in", "na",
        "0x10", "1_0", "--1", "1e5.0", ".e1", "+.", "1f",
    ] {
        assert!(!is_float_text(text.as_bytes()), "{}", text);
        assert!(text.parse::<f64>().is_err(), "{}", text);
    }
}

#[test]
fn braces_make_no_difference() {
    let shape = Shape::Struct(vec![
        field("int", Shape::U32),
        field("text", Shape::Str),
        field("flag", Shape::Bool),
    ]);
    for body in [
        "int 1 text b",
        "\"int\" 1\n\t\"text\" \"a b\"\r\nflag 0",
        "other x int 7",
        "int x",
        "int 1 text",
        "int",
        "flag 2 int 1",
        " text \"\" ",
        "a/ b/",
    ] {
        let bare = from_str(body, &shape).ok();
        let braced = from_str(&format!("{{{}}}", body), &shape).ok();
        assert_eq!(bare, braced, "{}", body);
    }
    assert_eq!(
        from_str("int 1 text b", &shape).unwrap(),
        Decoded::Table(vec![pair("int", unsigned(1)), pair("text", text("b"))])
    );
    assert!(from_str("int 1 text", &shape).is_err());
}
