use to_and_fro::codec::{build_codec, Codec};
use to_and_fro::decl::{EnumDecl, VariantDecl};
use to_and_fro::directive::Directive;

fn test_enum() -> Codec {
    let decl = EnumDecl {
        name: "TestEnum".to_string(),
        directives: vec![Directive::with_arg("default_variant", "Generation")],
        variants: vec![
            VariantDecl::with_directives(
                "Generation",
                vec![Directive::with_arg("output_name", "Gen")],
            ),
            VariantDecl::with_directives("Load", vec![Directive::with_arg("rename", "Load-Test")]),
            VariantDecl::with_directives("Customers", vec![Directive::with_arg("alias", "People")]),
        ],
    };
    build_codec(&decl).unwrap()
}

#[test]
fn output_name() {
    // Just changes the output name, not the input name
    assert_eq!(test_enum().encode(0), "Gen");
    assert_eq!(test_enum().decode("Generation").unwrap(), 0);
}

#[test]
fn rename() {
    // Changes both
    assert_eq!(test_enum().decode("Load-Test").unwrap(), 1);
    assert_eq!(test_enum().encode(1), "Load-Test");
}

#[test]
fn alias() {
    // Aliases input
    assert_eq!(test_enum().decode("People").unwrap(), 2);
    assert_eq!(test_enum().decode("Customers").unwrap(), 2);
    assert_eq!(test_enum().encode(2), "Customers");
}
