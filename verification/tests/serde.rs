use to_and_fro::codec::{build_codec, Codec};
use to_and_fro::decl::{EnumDecl, VariantDecl};
use to_and_fro::directive::Directive;

fn test_enum() -> Codec {
    let decl = EnumDecl {
        name: "TestEnum".to_string(),
        directives: vec![
            Directive::with_arg("casing", "kebab"),
            Directive::flag("serialization_hook"),
        ],
        variants: vec![VariantDecl::plain("HelloWorld"), VariantDecl::plain("FooBar")],
    };
    build_codec(&decl).unwrap()
}

#[test]
fn serde_kebab() {
    let codec = test_enum();
    assert!(codec.serialization_hook_enabled());
    let mut map = serde_json::Map::new();
    map.insert("value".to_string(), serde_json::Value::String(codec.encode(0)));
    let v = serde_json::to_string(&serde_json::Value::Object(map)).unwrap();
    assert_eq!(v, r#"{"value":"hello-world"}"#)
}

#[test]
fn deserialize_kebab() {
    let codec = test_enum();
    let v: serde_json::Value = serde_json::from_str(r#"{"value":"foo-bar"}"#).unwrap();
    let s = v.get("value").unwrap().as_str().unwrap();
    assert_eq!(codec.decode(s).unwrap(), 1)
}
