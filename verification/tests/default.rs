use to_and_fro::codec::{build_codec, Codec};
use to_and_fro::decl::{EnumDecl, VariantDecl};
use to_and_fro::directive::Directive;

fn test_enum() -> Codec {
    let decl = EnumDecl {
        name: "TestEnum".to_string(),
        directives: vec![Directive::with_arg("default_variant", "Generation")],
        variants: vec![
            VariantDecl::plain("Generation"),
            VariantDecl::plain("Load"),
            VariantDecl::plain("Customers"),
        ],
    };
    build_codec(&decl).unwrap()
}

#[test]
fn default_on_fallback() {
    assert_eq!(test_enum().decode("Not a variant").unwrap(), 0)
}

#[test]
fn default_impl() {
    assert_eq!(to_and_fro::defaults::default_impl(&test_enum()), Some(0))
}

#[test]
fn try_from_str() {
    assert!(test_enum().decode("Load").is_ok())
}
