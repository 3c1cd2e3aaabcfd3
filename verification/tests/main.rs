use to_and_fro::codec::{build_codec, Codec};
use to_and_fro::decl::{EnumDecl, VariantDecl};

fn test_enum() -> Codec {
    let variants = vec![
        VariantDecl::plain("Generation"),
        VariantDecl::plain("Load"),
        VariantDecl::plain("Customers"),
    ];
    build_codec(&EnumDecl::plain("TestEnum", variants)).unwrap()
}

#[test]
fn main_test_display() {
    assert_eq!(format!("{}", test_enum().encode(0)), "Generation")
}

#[test]
fn main_test_from_str() {
    assert_eq!(test_enum().decode("Generation").unwrap(), 0)
}
