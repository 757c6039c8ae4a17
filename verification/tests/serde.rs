use vdf_reader::de::from_str;
use vdf_reader::{Decoded, Field, Shape, Variant, VdfError};

fn field(name: &str, shape: Shape) -> Field {
    Field {
        name: name.as_bytes().to_vec(),
        shape,
    }
}

fn variant(name: &str, payload: Option<Shape>) -> Variant {
    Variant {
        name: name.as_bytes().to_vec(),
        payload,
    }
}

fn pair(name: &str, value: Decoded) -> (Vec<u8>, Decoded) {
    (name.as_bytes().to_vec(), value)
}

fn text(value: &str) -> Decoded {
    Decoded::Str(value.as_bytes().to_vec())
}


fn unsigned(value: u64) -> Decoded {
    Decoded::UInt(value, value.to_string().into_bytes())
}

fn unwrap_err<T>(r: Result<T, VdfError>) -> T {
    r.unwrap()
}

#[test]
fn test_struct() {
    let shape = Shape::Struct(vec![field("int", Shape::U32), field("seq", Shape::Str)]);

    let j = r#"{"int" 1 "seq" "b"}"#;
    let expected = Decoded::Table(vec![pair("int", unsigned(1)), pair("seq", text("b"))]);
    assert_eq!(expected, unwrap_err(from_str(j, &shape)));
}

#[test]
fn test_struct_toplevel() {
    let shape = Shape::Struct(vec![field("int", Shape::U32), field("seq", Shape::Str)]);

    let j = r#""int" 1 "seq" "b""#;
    let expected = Decoded::Table(vec![pair("int", unsigned(1)), pair("seq", text("b"))]);
    assert_eq!(expected, unwrap_err(from_str(j, &shape)));
}

#[test]
fn test_struct_nested() {
    let inner = Shape::Struct(vec![field("a", Shape::F32), field("b", Shape::Bool)]);
    let shape = Shape::Struct(vec![field("int", Shape::U32), field("nested", inner)]);

    let j = r#"{"int" 1 "nested" {"a" 1.0 "b" false}}"#;
    let expected = Decoded::Table(vec![
        pair("int", unsigned(1)),
        pair(
            "nested",
            Decoded::Table(vec![
                pair("a", Decoded::Float(b"1.0".to_vec())),
                pair("b", Decoded::Bool(false)),
            ]),
        ),
    ]);
    assert_eq!(expected, unwrap_err(from_str(j, &shape)));
}

fn enum_shape() -> Shape {
    Shape::Enum(vec![
        variant("Unit", None),
        variant("Newtype1", Some(Shape::U32)),
        variant("Newtype2", Some(Shape::U32)),
        variant("Struct", Some(Shape::Struct(vec![field("a", Shape::U32)]))),
        variant("Struct2", Some(Shape::Struct(vec![field("a", Shape::U32)]))),
    ])
}

#[test]
fn test_enum() {
    let shape = enum_shape();

    let j = r#""Unit" """#;
    let expected = Decoded::Variant(b"Unit".to_vec(), None);
    assert_eq!(expected, unwrap_err(from_str(j, &shape)));

    let j = r#""Newtype1" 1"#;
    let expected = Decoded::Variant(b"Newtype1".to_vec(), Some(Box::new(unsigned(1))));
    assert_eq!(expected, unwrap_err(from_str(j, &shape)));

    let j = r#"Newtype2 1"#;
    let expected = Decoded::Variant(b"Newtype2".to_vec(), Some(Box::new(unsigned(1))));
    assert_eq!(expected, unwrap_err(from_str(j, &shape)));

    let j = r#"Struct {"a" 1}"#;
    let expected = Decoded::Variant(
        b"Struct".to_vec(),
        Some(Box::new(Decoded::Table(vec![pair("a", unsigned(1))]))),
    );
    assert_eq!(expected, unwrap_err(from_str(j, &shape)));

    let j = r#"Struct2 {"a" 1}"#;
    let expected = Decoded::Variant(
        b"Struct2".to_vec(),
        Some(Box::new(Decoded::Table(vec![pair("a", unsigned(1))]))),
    );
    assert_eq!(expected, unwrap_err(from_str(j, &shape)));
}

#[test]
fn test_untagged_enum() {
    let j = r#"1.1"#;
    let decoded = unwrap_err(from_str(j, &Shape::Any));
    assert_eq!(Decoded::Float(b"1.1".to_vec()), decoded);
    match decoded {
        Decoded::Float(digits) => {
            let number: f32 = String::from_utf8(digits).unwrap().parse().unwrap();
            assert_eq!(1.1, number);
        }
        other => panic!("{:?}", other),
    }
}

#[test]
fn test_list_in_struct() {
    let shape = Shape::Struct(vec![field("seq", Shape::List(Box::new(Shape::U8)))]);

    let j = r#"{
            seq 1
            seq 2
            seq 3
        }"#;
    let expected = Decoded::Table(vec![pair(
        "seq",
        Decoded::List(vec![unsigned(1), unsigned(2), unsigned(3)]),
    )]);
    assert_eq!(expected, unwrap_err(from_str(j, &shape)));

    let j = r#"{
            seq 1 2 3
        }"#;
    assert_eq!(expected, unwrap_err(from_str(j, &shape)));
}
