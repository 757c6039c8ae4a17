use vdf_reader::entry::{Entry, Table, Value};

#[test]
fn load_single_entry() {
    let table = Table::load_from_str("foo bar").unwrap();
    let mut expected = Table::new();
    expected.insert(b"foo".to_vec(), Entry::Value(Value::from_str("bar")));
    assert_eq!(table, expected);
}

use vdf_reader::Decoded;

fn signed(value: i64) -> Decoded {
    Decoded::Int(value, value.to_string().into_bytes())
}


#[test]
fn material_file() {
    let source = "\"LightmappedGeneric\"\r\n{\r\n\t// textures\r\n\t\"$baseTexture\" \"concrete/concretefloor001a\"\r\n\t\"$bumpmap\"\t\"concrete/concretefloor001a_normal\"\r\n\t\"$ssbump\" 1\r\n\t\"%keywords\" \"tf\"\r\n\t\"$detailscale\" 7.74\r\n\t\"$envmaptint\" \"[ .56 .56 .75 ]\"\r\n\tProxies\r\n\t{\r\n\t\tAnimatedTexture\r\n\t\t{\r\n\t\t\tanimatedTextureVar $basetexture\r\n\t\t}\r\n\t}\r\n}\r\n";
    let table = Table::load_from_str(source).unwrap();
    assert_eq!(table.len(), 1);
    let root = Entry::Table(table);
    assert_eq!(
        root.lookup("LightmappedGeneric.$baseTexture"),
        Some(&Entry::Value(Value::from_str("concrete/concretefloor001a")))
    );
    assert_eq!(
        root.lookup("LightmappedGeneric.$ssbump")
            .unwrap()
            .clone()
            .to::<bool>()
            .unwrap(),
        true
    );
    assert_eq!(
        root.lookup("LightmappedGeneric.$envmaptint.2"),
        Some(&Entry::Value(Value::from_str(".75")))
    );
    assert_eq!(
        root.lookup("LightmappedGeneric.$envmaptint.3"),
        None
    );
    assert_eq!(
        root.lookup("LightmappedGeneric.Proxies.AnimatedTexture.animatedTextureVar"),
        Some(&Entry::Value(Value::from_str("$basetexture")))
    );
    // a name with a dot in it cannot be looked up by a path
    let dotted = Table::load_from_str("\"a.b\" c").unwrap();
    assert_eq!(Entry::Table(dotted).lookup("a.b"), None);
}

#[test]
fn typed_material_file() {
    let source = "LightmappedGeneric\n{\n\t\"$baseTexture\" \"concrete/floor\"\n\t\"$ssbump\" 1\n\t\"$detailscale\" 7.74\n\t\"$detailblendmode\" -4\n\t\"$envmaptint\" \"[ .56 .56 .75 ]\"\n\tunused {\n\t a b\n\t}\n}\n";
    let shape = vdf_reader::Shape::Enum(vec![vdf_reader::Variant {
        name: b"LightmappedGeneric".to_vec(),
        payload: Some(vdf_reader::Shape::Struct(vec![
            vdf_reader::Field {
                name: b"$baseTexture".to_vec(),
                shape: vdf_reader::Shape::Str,
            },
            vdf_reader::Field {
                name: b"$ssbump".to_vec(),
                shape: vdf_reader::Shape::Bool,
            },
            vdf_reader::Field {
                name: b"$detailscale".to_vec(),
                shape: vdf_reader::Shape::F32,
            },
            vdf_reader::Field {
                name: b"$detailblendmode".to_vec(),
                shape: vdf_reader::Shape::I32,
            },
            vdf_reader::Field {
                name: b"$envmaptint".to_vec(),
                shape: vdf_reader::Shape::List(Box::new(vdf_reader::Shape::F32)),
            },
        ])),
    }]);
    let decoded = vdf_reader::from_str(source, &shape).unwrap();
    let float = |digits: &str| vdf_reader::Decoded::Float(digits.as_bytes().to_vec());
    assert_eq!(
        decoded,
        vdf_reader::Decoded::Variant(
            b"LightmappedGeneric".to_vec(),
            Some(Box::new(vdf_reader::Decoded::Table(vec![
                (
                    b"$baseTexture".to_vec(),
                    vdf_reader::Decoded::Str(b"concrete/floor".to_vec())
                ),
                (b"$ssbump".to_vec(), vdf_reader::Decoded::Bool(true)),
                (b"$detailscale".to_vec(), float("7.74")),
                (b"$detailblendmode".to_vec(), signed(-4)),
                (
                    b"$envmaptint".to_vec(),
                    vdf_reader::Decoded::List(vec![float(".56"), float(".56"), float(".75")])
                ),
            ])))
        )
    );
    // the same through the tree
    let table = Table::load_from_str(source).unwrap();
    assert_eq!(
        vdf_reader::from_entry(&Entry::Table(table), &shape).unwrap(),
        decoded
    );
}
