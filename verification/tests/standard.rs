use std::collections::HashSet;

use to_and_fro::codec::{build_codec, variant_eq, Codec, VariantValue};
use to_and_fro::decl::{EnumDecl, VariantDecl};

fn test_enum() -> Codec {
    let variants = vec![
        VariantDecl::plain("Generation"),
        VariantDecl::plain("Load"),
        VariantDecl::plain("Customers"),
    ];
    build_codec(&EnumDecl::plain("TestEnum", variants)).unwrap()
}

#[test]
fn standard_test_display() {
    assert_eq!(format!("{}", test_enum().encode(0)), "Generation")
}

#[test]
fn standard_test_from_str() {
    assert_eq!(test_enum().decode("Generation").unwrap(), 0)
}

#[test]
fn fail_from_str() {
    assert!(test_enum().decode("Not a variant").is_err())
}

#[test]
fn test_hash() {
    let codec = test_enum();
    let mut set = HashSet::new();

    // ensure hashes are disjoint
    for i in codec.enumerate().unwrap() {
        set.insert(i);
    }
    assert_eq!(set.len(), codec.enumerate().unwrap().len());

    // second round of adding shouldn't change anything
    for i in codec.enumerate().unwrap() {
        set.insert(i);
    }
    assert_eq!(set.len(), codec.enumerate().unwrap().len());
}

#[test]
fn test_eq() {
    let codec = test_enum();
    for i in codec.enumerate().unwrap() {
        let a = VariantValue { tag: i, payload: Vec::new() };
        let b = VariantValue { tag: i, payload: Vec::new() };
        assert!(variant_eq(&a, &b));
    }
}
