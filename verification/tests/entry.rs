use vdf_reader::entry::{Array, Entry, ParseItem, Statement, Table, Value};
use vdf_reader::{from_entry, Decoded, Shape, VdfError};

fn unwrap_err<T>(r: Result<T, VdfError>) -> T {
    r.unwrap()
}

fn signed(value: i64) -> Decoded {
    Decoded::Int(value, value.to_string().into_bytes())
}

fn unsigned(value: u64) -> Decoded {
    Decoded::UInt(value, value.to_string().into_bytes())
}

fn table_of(pairs: Vec<(&str, Entry)>) -> Table {
    let mut table = Table::new();
    for (key, value) in pairs {
        table.insert(key.as_bytes().to_vec(), value);
    }
    table
}

#[test]
fn test_serde_entry() {
    let j = r#"1"#;
    assert_eq!(Entry::Value("1".into()), unwrap_err(Entry::decode_str(j)));

    let j = r#""foo bar""#;
    assert_eq!(
        Entry::Value("foo bar".into()),
        unwrap_err(Entry::decode_str(j))
    );

    let j = r#"{foo bar}"#;

    assert_eq!(
        Entry::Table(table_of(vec![("foo", Entry::Value("bar".into()))])),
        unwrap_err(Entry::decode_str(j))
    );

    let j = r#""[1 2 3]""#;

    assert_eq!(
        Entry::Array(
            vec![
                Value::from("1").into(),
                Value::from("2").into(),
                Value::from("3").into()
            ]
            .into()
        ),
        unwrap_err(Entry::decode_str(j))
    );

    let j = r#""{1 2 3}""#;

    assert_eq!(
        Entry::Array(
            vec![
                Value::from("1").into(),
                Value::from("2").into(),
                Value::from("3").into()
            ]
            .into()
        ),
        unwrap_err(Entry::decode_str(j))
    );
}

#[test]
fn test_serde_table() {
    let j = r#"{foo bar}"#;

    assert_eq!(
        table_of(vec![("foo", Entry::Value("bar".into()))]),
        unwrap_err(Table::decode_str(j))
    );
}

#[test]
fn test_serde_value() {
    let j = r#"1"#;
    assert_eq!(Value(b"1".to_vec()), unwrap_err(Value::decode_str(j)));

    let j = r#""foo bar""#;
    assert_eq!(Value(b"foo bar".to_vec()), unwrap_err(Value::decode_str(j)));
}

#[test]
fn test_serde_from_value() {
    let j = Value::from("1");
    assert_eq!(
        Decoded::Bool(true),
        unwrap_err(from_entry(&j.into(), &Shape::Bool))
    );
}

#[test]
fn table_with_one_key() {
    let table = Table::load_from_str("{foo bar}");
    // a `{` stands where a key is read
    assert!(matches!(table, Err(VdfError::UnexpectedToken(_))));

    let table = Table::load_from_str("group {foo bar}").unwrap();
    let inner = table_of(vec![("foo", Entry::Value("bar".into()))]);
    assert_eq!(table, table_of(vec![("group", Entry::Table(inner))]));
    assert_eq!(table.len(), 1);
}

#[test]
fn repeated_key_becomes_array() {
    let table = Table::load_from_str("foo bar\nfoo baz\nfoo qux").unwrap();
    let expected = Entry::Array(Array(vec![
        Entry::Value("bar".into()),
        Entry::Value("baz".into()),
        Entry::Value("qux".into()),
    ]));
    assert_eq!(table, Table::from_pairs(vec![(b"foo".to_vec(), expected)]));
}

#[test]
fn values_on_one_line_become_array() {
    let table = Table::load_from_str("foo bar baz").unwrap();
    let mut expected = Table::new();
    expected.insert(b"foo".to_vec(), Entry::Value("bar".into()));
    expected.insert(b"foo".to_vec(), Entry::Value("baz".into()));
    assert_eq!(table, expected);
    assert_eq!(
        table.get(b"foo"),
        Some(&Entry::Array(Array(vec![
            Entry::Value("bar".into()),
            Entry::Value("baz".into())
        ])))
    );
}

#[test]
fn bracket_value_is_array_of_words() {
    let table = Table::load_from_str("foo \"[1  2 3]\"\n#base \"file\"").unwrap();
    assert_eq!(
        table.get(b"foo"),
        Some(&Entry::Array(Array(vec![
            Entry::Value("1".into()),
            Entry::Value("2".into()),
            Entry::Value("3".into())
        ])))
    );
    assert_eq!(
        table.get(b"#base"),
        Some(&Entry::Statement(Statement::from("file")))
    );
}

#[test]
fn insert_promotes_to_array() {
    let mut table = Table::new();
    table.insert(b"a".to_vec(), Entry::Value("1".into()));
    table.insert(b"b".to_vec(), Entry::Value("2".into()));
    table.insert(b"a".to_vec(), Entry::Value("3".into()));
    table.insert(b"a".to_vec(), Entry::Value("4".into()));
    assert_eq!(table.len(), 2);
    assert_eq!(
        table.get(b"a"),
        Some(&Entry::Array(Array(vec![
            Entry::Value("1".into()),
            Entry::Value("3".into()),
            Entry::Value("4".into())
        ])))
    );
    assert_eq!(table.get(b"b"), Some(&Entry::Value("2".into())));
    assert_eq!(table.get(b"c"), None);
}

#[test]
fn lookup_follows_path() {
    let table = Table::load_from_str("a {\n b {\n c 1\n c 2\n }\n d x\n}").unwrap();
    let root = Entry::Table(table);
    assert_eq!(root.lookup("a.d"), Some(&Entry::Value("x".into())));
    assert_eq!(root.lookup(" a . d "), Some(&Entry::Value("x".into())));
    assert_eq!(root.lookup("a.b.c.1"), Some(&Entry::Value("2".into())));
    assert_eq!(root.lookup("a.b.c.2"), None);
    assert_eq!(root.lookup("a.b.c.x"), None);
    assert_eq!(root.lookup("a.d.e"), None);
    assert_eq!(root.lookup("a."), None);
    assert_eq!(root.lookup(""), None);
    assert!(root.lookup("a.b").unwrap().as_table().is_some());
}

#[test]
fn accessors() {
    let value = Entry::Value("v".into());
    let statement = Entry::Statement(Statement::from("#s"));
    let array = Entry::Array(Array::from_space_separated(b" a  b "));
    assert_eq!(value.as_str(), Some(&b"v"[..]));
    assert_eq!(statement.as_str(), Some(&b"#s"[..]));
    assert_eq!(array.as_str(), None);
    assert!(value.as_value().is_some());
    assert!(value.as_statement().is_none());
    assert!(statement.as_statement().is_some());
    assert!(array.as_table().is_none());
    assert_eq!(array.as_slice().unwrap().len(), 2);
    assert_eq!(value.as_slice().unwrap(), &[Entry::Value("v".into())][..]);
    assert_eq!(array.get(b"1"), Some(&Entry::Value("b".into())));
    assert_eq!(array.get(b"2"), None);
    assert_eq!(value.get(b"0"), None);
}

#[test]
fn leaves_read_back_as_their_text() {
    let table = Table::load_from_str("key \"some \\\"text\\\"\"\nnumber 007").unwrap();
    let text: Vec<u8> = table.get(b"key").unwrap().clone().to().unwrap();
    assert_eq!(text, b"some \"text\"".to_vec());
    let number: Vec<u8> = table.get(b"number").unwrap().clone().to().unwrap();
    assert_eq!(number, b"007".to_vec());
    let as_int: u32 = table.get(b"number").unwrap().clone().to().unwrap();
    assert_eq!(as_int, 7);
}

#[test]
fn parse_items() {
    assert_eq!(<bool as ParseItem>::from_str(b"0").unwrap(), false);
    assert_eq!(<bool as ParseItem>::from_str(b"1").unwrap(), true);
    assert_eq!(<bool as ParseItem>::from_str(b"true").unwrap(), true);
    assert_eq!(<bool as ParseItem>::from_str(b"false").unwrap(), false);
    let e = <bool as ParseItem>::from_str(b"yes").unwrap_err();
    assert_eq!(e.ty, "bool");
    assert_eq!(e.value, b"yes".to_vec());

    assert_eq!(<i8 as ParseItem>::from_str(b"-128").unwrap(), -128);
    assert_eq!(<i8 as ParseItem>::from_str(b"+127").unwrap(), 127);
    assert!(<i8 as ParseItem>::from_str(b"128").is_err());
    assert!(<i8 as ParseItem>::from_str(b"-129").is_err());
    assert_eq!(<u8 as ParseItem>::from_str(b"255").unwrap(), 255);
    assert_eq!(<u8 as ParseItem>::from_str(b"+0").unwrap(), 0);
    assert!(<u8 as ParseItem>::from_str(b"-0").is_err());
    assert!(<u8 as ParseItem>::from_str(b"256").is_err());
    assert!(<u8 as ParseItem>::from_str(b"").is_err());
    assert!(<u8 as ParseItem>::from_str(b"+").is_err());
    assert!(<u8 as ParseItem>::from_str(b"1a").is_err());
    assert_eq!(
        <i64 as ParseItem>::from_str(b"-9223372036854775808").unwrap(),
        i64::MIN
    );
    assert!(<i64 as ParseItem>::from_str(b"9223372036854775808").is_err());
    assert_eq!(
        <u64 as ParseItem>::from_str(b"18446744073709551615").unwrap(),
        u64::MAX
    );
    assert!(<u64 as ParseItem>::from_str(b"18446744073709551616").is_err());
    assert_eq!(
        <u64 as ParseItem>::from_str(b"000000000000000000000000000012").unwrap(),
        12
    );

    let e = Entry::Table(Table::new()).to::<u8>().unwrap_err();
    assert_eq!(e.ty, "u8");
    assert_eq!(e.value, Entry::Table(Table::new()));
    let e = Entry::Value("x".into()).to::<u8>().unwrap_err();
    assert_eq!(e.ty, "u8");
    assert_eq!(Value::from("12").to::<u16>().unwrap(), 12);
    assert_eq!(
        Value::from("12").to::<Vec<u8>>().unwrap(),
        b"12".to_vec()
    );
}

#[test]
fn decode_entry_promotes_repeated_key() {
    let entry = Entry::decode_str("{foo bar\nfoo baz}").unwrap();
    assert_eq!(
        entry,
        Entry::Table(Table::from_pairs(vec![(
            b"foo".to_vec(),
            Entry::Array(Array(vec![
                Entry::Value("bar".into()),
                Entry::Value("baz".into())
            ]))
        )]))
    );
    let entry = Entry::decode_str("{a -05 b 1.50 c #d e {f g}}").unwrap();
    assert_eq!(
        entry,
        Entry::Table(table_of(vec![
            ("a", Entry::Value("-05".into())),
            ("b", Entry::Value("1.50".into())),
            ("c", Entry::Statement(Statement::from("#d"))),
            (
                "e",
                Entry::Table(table_of(vec![("f", Entry::Value("g".into()))]))
            ),
        ]))
    );
}

#[test]
fn decoded_leaves_keep_their_text() {
    for text in ["007", "+7", "-05", "1.50", "1e3", "inf", "abc", "0x10", "[1"] {
        let entry = Entry::decode_str(text).unwrap();
        assert_eq!(entry, Entry::Value(text.into()), "{}", text);
        assert_eq!(
            from_entry(&entry, &Shape::Str).unwrap(),
            Decoded::Str(text.as_bytes().to_vec()),
            "{}",
            text
        );
        let read_back: Vec<u8> = entry.to().unwrap();
        assert_eq!(read_back, text.as_bytes().to_vec());
        let quoted = format!("\"{}\"", text);
        assert_eq!(
            Entry::decode_str(&quoted).unwrap(),
            Entry::Value(text.into()),
            "{}",
            quoted
        );
    }
    assert_eq!(
        Entry::decode_str("\"#base x\"").unwrap(),
        Entry::Statement(Statement::from("#base x"))
    );
    assert_eq!(
        vdf_reader::from_str("007", &Shape::Any).unwrap(),
        Decoded::Int(7, b"007".to_vec())
    );
    assert_eq!(
        vdf_reader::from_str("+7", &Shape::U8).unwrap(),
        Decoded::UInt(7, b"+7".to_vec())
    );
    assert_eq!(
        Entry::decode_str("{n 007 n +7}").unwrap().lookup("n.1"),
        Some(&Entry::Value("+7".into()))
    );
}

#[test]
fn tree_to_shape() {
    let table = Table::load_from_str("int 1\nseq 1\nseq 2\nname x\nopt \"\"\nnested {\n a true\n}").unwrap();
    let entry = Entry::Table(table);
    let shape = Shape::Struct(vec![
        vdf_reader::Field {
            name: b"int".to_vec(),
            shape: Shape::I32,
        },
        vdf_reader::Field {
            name: b"seq".to_vec(),
            shape: Shape::List(Box::new(Shape::U8)),
        },
        vdf_reader::Field {
            name: b"opt".to_vec(),
            shape: Shape::Optional(Box::new(Shape::U8)),
        },
        vdf_reader::Field {
            name: b"nested".to_vec(),
            shape: Shape::Table(Box::new(Shape::Bool)),
        },
    ]);
    let decoded = from_entry(&entry, &shape).unwrap();
    assert_eq!(
        decoded,
        Decoded::Table(vec![
            (b"int".to_vec(), signed(1)),
            (
                b"seq".to_vec(),
                Decoded::List(vec![unsigned(1), unsigned(2)])
            ),
            (b"opt".to_vec(), Decoded::Absent),
            (
                b"nested".to_vec(),
                Decoded::Table(vec![(b"a".to_vec(), Decoded::Bool(true))])
            ),
        ])
    );

    assert!(matches!(
        from_entry(&entry, &Shape::Bool),
        Err(VdfError::Other(message)) if message == "bool"
    ));
    assert!(matches!(
        from_entry(&Entry::Value("x".into()), &Shape::U8),
        Err(VdfError::ParseString(e)) if e.ty == "u8" && e.value == b"x".to_vec()
    ));
    assert!(matches!(
        from_entry(&Entry::Value("xy".into()), &Shape::Char),
        Err(VdfError::SerdeParse(e)) if e.ty == "char"
    ));
    assert!(matches!(
        from_entry(&Entry::Value("x".into()), &Shape::List(Box::new(Shape::Any))),
        Err(VdfError::Other(message)) if message == "array2"
    ));
    assert!(matches!(
        from_entry(&Entry::Value("[x]".into()), &Shape::Any),
        Err(VdfError::SerdeParse(e)) if e.ty == "seq"
    ));

    let variants = Shape::Enum(vec![
        vdf_reader::Variant {
            name: b"A".to_vec(),
            payload: Some(Shape::U8),
        },
        vdf_reader::Variant {
            name: b"B".to_vec(),
            payload: None,
        },
    ]);
    let tagged = Entry::Table(table_of(vec![("A", Entry::Value("3".into()))]));
    assert_eq!(
        from_entry(&tagged, &variants).unwrap(),
        Decoded::Variant(b"A".to_vec(), Some(Box::new(unsigned(3))))
    );
    let unit = Entry::Table(table_of(vec![("B", Entry::Value("".into()))]));
    assert!(matches!(
        from_entry(&unit, &variants),
        Err(VdfError::Other(message)) if message == "unit"
    ));
    let unknown = Entry::Table(table_of(vec![("C", Entry::Value("".into()))]));
    assert!(matches!(
        from_entry(&unknown, &variants),
        Err(VdfError::UnknownVariant(e)) if e.variant == b"C".to_vec()
            && e.expected == vec![b"A".to_vec(), b"B".to_vec()]
    ));
    assert!(matches!(
        from_entry(&Entry::Table(Table::new()), &variants),
        Err(VdfError::Other(message)) if message == "enum"
    ));
}

#[test]
fn lookup_trims_white_space() {
    let table = Table::load_from_str("a {\n d x\n}").unwrap();
    let root = Entry::Table(table);
    assert_eq!(
        root.lookup("\u{a0}a\u{2003}.\u{3000}\td\u{2028}\u{85}"),
        Some(&Entry::Value("x".into()))
    );
    assert_eq!(root.lookup("\u{200b}a.d"), None);
    assert_eq!(root.lookup_bytes(b" a.d\x0b"), Some(&Entry::Value("x".into())));
}

#[test]
fn items_read_as_types() {
    let item = vdf_reader::Item::Item {
        content: b"12".to_vec(),
        span: vdf_reader::Span { start: 0, end: 2 },
    };
    assert_eq!(<u8 as ParseItem>::from_item(item.clone()).unwrap(), 12);
    let e = <bool as ParseItem>::from_item(item.clone()).unwrap_err();
    assert_eq!(e.ty, "bool");
    assert_eq!(e.value, item);
    assert_eq!(item.as_str(), b"12");
    assert_eq!(item.span(), vdf_reader::Span { start: 0, end: 2 });
    assert_eq!(Entry::from(item.clone()), Entry::Value("12".into()));
    assert_eq!(item.clone().into_owned(), item);
    assert_eq!(item.into_content(), b"12".to_vec());
    let statement = vdf_reader::Item::Statement {
        content: b"#x".to_vec(),
        span: vdf_reader::Span { start: 1, end: 3 },
    };
    assert_eq!(
        Entry::from(statement),
        Entry::Statement(Statement::from("#x"))
    );
    assert_eq!(<u8 as ParseItem>::name(), "u8");
    assert_eq!(<Vec<u8> as ParseItem>::name(), "alloc::string::String");
}

#[test]
fn entries_from_decoded_values() {
    assert_eq!(
        Entry::from_decoded(&Decoded::Bool(true)).unwrap(),
        Entry::Value("1".into())
    );
    assert_eq!(
        Entry::from_decoded(&Decoded::Bool(false)).unwrap(),
        Entry::Value("0".into())
    );
    assert_eq!(
        Entry::from_decoded(&signed(i64::MIN)).unwrap(),
        Entry::Value("-9223372036854775808".into())
    );
    assert_eq!(
        Entry::from_decoded(&unsigned(u64::MAX)).unwrap(),
        Entry::Value("18446744073709551615".into())
    );
    assert_eq!(
        Entry::from_decoded(&unsigned(0)).unwrap(),
        Entry::Value("0".into())
    );
    assert_eq!(
        Entry::from_decoded(&signed(1050)).unwrap(),
        Entry::Value("1050".into())
    );
    assert_eq!(
        Entry::from_decoded(&Decoded::Str(b"#x".to_vec())).unwrap(),
        Entry::Statement(Statement::from("#x"))
    );
    assert!(matches!(
        Entry::from_decoded(&Decoded::Unit),
        Err(VdfError::Other(message))
            if message == "invalid type: unit value, expected any string like value or group"
    ));
    assert!(matches!(
        Entry::from_decoded(&Decoded::List(vec![signed(1), Decoded::Absent])),
        Err(VdfError::Other(message))
            if message == "invalid type: Option value, expected any string like value or group"
    ));
    assert!(matches!(
        Entry::from_decoded(&Decoded::Variant(b"A".to_vec(), None)),
        Err(VdfError::Other(message))
            if message == "invalid type: enum, expected any string like value or group"
    ));
    assert!(matches!(
        Table::decode_str("{a {b"),
        Err(VdfError::NoValidToken(_))
    ));
    assert!(matches!(
        Value::decode_str("{"),
        Err(VdfError::UnexpectedToken(_))
    ));
}

#[test]
fn copies_are_equal() {
    let table = Table::load_from_str("a {\n b 1\n b 2\n #c d\n}").unwrap();
    assert_eq!(table.clone(), table);
    let entry = Entry::Table(table);
    assert_eq!(entry.clone(), entry);
    assert_eq!(Array::default().len(), 0);
    assert_eq!(Table::default().len(), 0);
    assert_eq!(Value::default(), Value::from(""));
    assert_eq!(Statement::default(), Statement::from(""));
    assert_eq!(Value::from(Statement::from("#s")), Value::from("#s"));
    assert_eq!(Value::from_bytes(b"v").into_bytes(), b"v".to_vec());
    assert_eq!(Statement::from_bytes(b"#s").as_bytes(), b"#s");
    assert_eq!(
        Array::from(Entry::Value("v".into())),
        Array::from_entries(vec![Entry::Value("v".into())])
    );
}

#[test]
fn optional_items() {
    assert_eq!(
        Entry::Value("5".into()).to::<Option<u8>>().unwrap(),
        Some(5)
    );
    let e = Entry::Value("x".into()).to::<Option<u8>>().unwrap_err();
    assert_eq!(e.ty, "u8");
    assert_eq!(
        <Option<bool> as ParseItem>::from_str(b"1").unwrap(),
        Some(true)
    );
}

#[test]
fn tables_are_compared_as_mappings() {
    let one = Table::load_from_str("a 1\nb {\n c 2\n d 3\n}\ne 4\ne 5").unwrap();
    let other = Table::load_from_str("e 4\nb {\n d 3\n c 2\n}\na 1\ne 5").unwrap();
    assert!(one.same_entries(&other));
    assert_eq!(one, other);
    assert_eq!(Entry::Table(one.clone()), Entry::Table(other));
    // the order of an array counts
    let turned = Table::load_from_str("a 1\nb {\n c 2\n d 3\n}\ne 5\ne 4").unwrap();
    assert!(!one.same_entries(&turned));
    assert_ne!(one, turned);
    let less = Table::load_from_str("a 1\nb {\n c 2\n d 3\n}").unwrap();
    assert_ne!(one, less);
    assert_ne!(less, one);
    let changed = Table::load_from_str("a 1\nb {\n c 2\n d x\n}\ne 4\ne 5").unwrap();
    assert_ne!(one, changed);
    assert_eq!(Table::new(), Table::default());
}

#[test]
fn tables_never_hold_a_key_twice() {
    let table = Table::from_pairs(vec![
        (b"a".to_vec(), Entry::Value("1".into())),
        (b"b".to_vec(), Entry::Value("2".into())),
        (b"a".to_vec(), Entry::Value("3".into())),
    ]);
    assert_eq!(table.len(), 2);
    assert_eq!(
        table.pairs(),
        &vec![
            (
                b"a".to_vec(),
                Entry::Array(Array(vec![
                    Entry::Value("1".into()),
                    Entry::Value("3".into())
                ]))
            ),
            (b"b".to_vec(), Entry::Value("2".into())),
        ]
    );
    assert_eq!(table.clone().into_pairs().len(), 2);
}
