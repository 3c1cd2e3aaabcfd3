use to_and_fro::codec::{build_codec, variant_eq, VariantValue};
use to_and_fro::decl::{EnumDecl, VariantDecl};
use to_and_fro::directive::Directive;
use to_and_fro::errors::CodecError;
use to_and_fro::naming::{get_alias_for, get_name_for, should_reject};

#[test]
fn collision_is_rejected() {
    // Two distinct variants casing to the same decode string fail at
    // construction.
    let decl = EnumDecl {
        name: "Colliding".to_string(),
        directives: vec![Directive::with_arg("casing", "snake")],
        variants: vec![VariantDecl::plain("HelloWorld"), VariantDecl::plain("Hello_World")],
    };
    match build_codec(&decl) {
        Err(CodecError::DecodeCollision { key }) => assert_eq!(key, "hello_world"),
        _ => panic!("expected a decode collision"),
    }
}

#[test]
fn alias_collision_is_rejected() {
    let decl = EnumDecl::plain(
        "Colliding",
        vec![
            VariantDecl::plain("Load"),
            VariantDecl::with_directives("Customers", vec![Directive::with_arg("alias", "Load")]),
        ],
    );
    match build_codec(&decl) {
        Err(CodecError::DecodeCollision { key }) => assert_eq!(key, "Load"),
        _ => panic!("expected a decode collision"),
    }
}

#[test]
fn duplicate_rows_for_one_variant_are_permitted() {
    // An alias equal to the variant's own cased name is a no-op.
    let decl = EnumDecl::plain(
        "Duplicated",
        vec![VariantDecl::with_directives(
            "Load",
            vec![Directive::with_arg("alias", "Load")],
        )],
    );
    let codec = build_codec(&decl).unwrap();
    assert_eq!(codec.decode("Load").unwrap(), 0);
}

#[test]
fn unknown_casing_is_rejected() {
    let decl = EnumDecl {
        name: "Bad".to_string(),
        directives: vec![Directive::with_arg("casing", "sarcastic")],
        variants: vec![VariantDecl::plain("Load")],
    };
    match build_codec(&decl) {
        Err(CodecError::UnknownCasing { name }) => assert_eq!(name, "sarcastic"),
        _ => panic!("expected an unknown casing"),
    }
}

#[test]
fn wrong_arity_is_rejected() {
    let decl = EnumDecl::plain(
        "Bad",
        vec![VariantDecl::with_directives(
            "Load",
            vec![Directive::with_arg("reject", "why")],
        )],
    );
    match build_codec(&decl) {
        Err(CodecError::WrongArity { directive }) => assert_eq!(directive, "reject"),
        _ => panic!("expected a wrong arity"),
    }
}

#[test]
fn missing_casing_argument_is_rejected() {
    let decl = EnumDecl {
        name: "Bad".to_string(),
        directives: vec![Directive::flag("casing")],
        variants: vec![VariantDecl::plain("Load")],
    };
    match build_codec(&decl) {
        Err(CodecError::WrongArity { directive }) => assert_eq!(directive, "casing"),
        _ => panic!("expected a wrong arity"),
    }
}

#[test]
fn unknown_default_variant_is_rejected() {
    let decl = EnumDecl {
        name: "Bad".to_string(),
        directives: vec![Directive::with_arg("default_variant", "Nonexistent")],
        variants: vec![VariantDecl::plain("Load")],
    };
    match build_codec(&decl) {
        Err(CodecError::UnknownDefaultVariant { name }) => assert_eq!(name, "Nonexistent"),
        _ => panic!("expected an unknown default variant"),
    }
}

#[test]
fn payload_bearing_enumeration_is_not_enumerable() {
    let with_payload = VariantDecl {
        identifier: "Record".to_string(),
        directives: Vec::new(),
        has_payload: true,
    };
    let decl = EnumDecl::plain("Mixed", vec![VariantDecl::plain("Load"), with_payload]);
    let codec = build_codec(&decl).unwrap();
    match codec.enumerate() {
        Err(CodecError::NotEnumerable) => {},
        _ => panic!("expected the list to be withheld"),
    }
    // Encoding and decoding still work.
    assert_eq!(codec.encode(1), "Record");
    assert_eq!(codec.decode("Record").unwrap(), 1);
}

#[test]
fn enumerate_lists_all_variants_in_order() {
    let decl = EnumDecl::plain(
        "Plain",
        vec![
            VariantDecl::plain("Generation"),
            VariantDecl::plain("Load"),
            VariantDecl::plain("Customers"),
        ],
    );
    let codec = build_codec(&decl).unwrap();
    assert_eq!(codec.enumerate().unwrap(), vec![0, 1, 2]);
    assert_eq!(codec.variant_count(), 3);
}

#[test]
fn identity_ignores_payload() {
    let a = VariantValue { tag: 2, payload: vec![1, 2, 3] };
    let b = VariantValue { tag: 2, payload: vec![9] };
    let c = VariantValue { tag: 3, payload: vec![1, 2, 3] };
    assert!(variant_eq(&a, &b));
    assert!(!variant_eq(&a, &c));
}

#[test]
fn decode_error_carries_diagnostics() {
    let decl = EnumDecl::plain("Plain", vec![VariantDecl::plain("Load")]);
    let codec = build_codec(&decl).unwrap();
    let e = codec.decode("Nope").unwrap_err();
    assert_eq!(e.input_string(), "Nope");
    assert_eq!(e.enum_name_string(), "Plain");
}

#[test]
fn name_resolution_helpers() {
    let attrs = vec![
        Directive::with_arg("rename", "Load-Test"),
        Directive::with_arg("output_name", "LT"),
    ];
    // Encode direction: output_name wins.
    assert_eq!(get_name_for(&attrs, "output_name"), Some("LT".to_string()));
    // Decode direction: rename only.
    assert_eq!(get_name_for(&attrs, "rename"), Some("Load-Test".to_string()));
    let only_rename = vec![Directive::with_arg("rename", "Load-Test")];
    assert_eq!(get_name_for(&only_rename, "output_name"), Some("Load-Test".to_string()));
    assert_eq!(get_name_for(&Vec::new(), "output_name"), None);
    assert_eq!(get_alias_for(&vec![Directive::with_arg("alias", "People")]), Some(
        "People".to_string(),
    ));
    assert_eq!(get_alias_for(&Vec::new()), None);
    assert!(should_reject(&vec![Directive::flag("reject")]));
    assert!(!should_reject(&Vec::new()));
}

#[test]
fn first_directive_of_a_name_takes_effect() {
    let decl = EnumDecl {
        name: "Doubled".to_string(),
        directives: vec![
            Directive::with_arg("default_variant", "Load"),
            Directive::with_arg("default_variant", "Customers"),
        ],
        variants: vec![VariantDecl::plain("Load"), VariantDecl::plain("Customers")],
    };
    let codec = build_codec(&decl).unwrap();
    assert_eq!(codec.decode("Nope").unwrap(), 0);
}
