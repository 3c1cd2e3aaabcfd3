use to_and_fro::codec::{build_codec, Codec};
use to_and_fro::decl::{EnumDecl, VariantDecl};
use to_and_fro::directive::Directive;

fn test_enum() -> Codec {
    let variants = vec![
        VariantDecl::with_directives("Generation", vec![Directive::flag("reject")]),
        VariantDecl::plain("Load"),
        VariantDecl::plain("Customers"),
    ];
    build_codec(&EnumDecl::plain("TestEnum", variants)).unwrap()
}

fn test_enum2() -> Codec {
    let decl = EnumDecl {
        name: "TestEnum2".to_string(),
        directives: vec![Directive::with_arg("default_variant", "Load")],
        variants: vec![
            VariantDecl::with_directives("Generation", vec![Directive::flag("reject")]),
            VariantDecl::plain("Load"),
            VariantDecl::plain("Customers"),
        ],
    };
    build_codec(&decl).unwrap()
}

#[test]
fn to_string_unaffected() {
    assert_eq!(test_enum().encode(0), "Generation");
    assert_eq!(test_enum().encode(1), "Load");
    assert_eq!(test_enum().encode(2), "Customers");
}

#[test]
fn reject() {
    assert!(test_enum().decode("Generation").is_err());
    assert!(test_enum().decode("Load").is_ok());
    assert!(test_enum().decode("Customers").is_ok());
}

#[test]
fn reject_to_default() {
    assert_eq!(test_enum2().decode("Generation").unwrap(), 1);
    assert_eq!(test_enum2().decode("Load").unwrap(), 1);
    assert_eq!(test_enum2().decode("Customers").unwrap(), 2);
}

#[test]
fn reject_excludes_alias() {
    // A rejected variant contributes no decode entry at all: its alias is
    // excluded along with its cased name.
    let variants = vec![
        VariantDecl::with_directives(
            "Generation",
            vec![Directive::flag("reject"), Directive::with_arg("alias", "Gen")],
        ),
        VariantDecl::plain("Load"),
    ];
    let codec = build_codec(&EnumDecl::plain("TestEnum3", variants)).unwrap();
    assert!(codec.decode("Gen").is_err());
    assert!(codec.decode("Generation").is_err());
    assert_eq!(codec.encode(0), "Generation");
}
