use to_and_fro::codec::{build_codec, Codec};
use to_and_fro::decl::{EnumDecl, VariantDecl};
use to_and_fro::directive::Directive;

fn test_enum() -> Codec {
    let variants = vec![
        VariantDecl::with_directives(
            "LoremIpsum",
            vec![Directive::with_arg("input_casing", "snake")],
        ),
        VariantDecl::with_directives(
            "DolorSitAmet",
            vec![Directive::with_arg("input_casing", "kebab")],
        ),
        VariantDecl::with_directives(
            "ConsecteturAdipiscingElit",
            vec![
                Directive::with_arg("input_casing", "lower"),
                Directive::with_arg("output_casing", "upper"),
            ],
        ),
        VariantDecl::with_directives(
            "SedDoEiusmod",
            vec![Directive::with_arg("casing", "percent")],
        ),
    ];
    build_codec(&EnumDecl::plain("TestEnum", variants)).unwrap()
}

fn test_enum2() -> Codec {
    let decl = EnumDecl {
        name: "TestEnum2".to_string(),
        directives: vec![
            Directive::with_arg("input_casing", "snake"),
            Directive::with_arg("output_casing", "kebab"),
        ],
        variants: vec![VariantDecl::plain("LoremIpsum")],
    };
    build_codec(&decl).unwrap()
}

#[test]
fn basic_casing() {
    // Input snake case
    assert_eq!(test_enum().decode("lorem_ipsum").unwrap(), 0);

    // Input kebab case
    assert_eq!(test_enum().decode("dolor-sit-amet").unwrap(), 1);

    // Input lower case
    assert_eq!(test_enum().decode("consecteturadipiscingelit").unwrap(), 2);

    // Output default (as written in enum)
    assert_eq!("LoremIpsum", test_enum().encode(0));

    // Output upper case
    assert_eq!("CONSECTETURADIPISCINGELIT", test_enum().encode(2));

    // Percent encoding
    assert_eq!(
        test_enum()
            .decode(
                &percent_encoding::utf8_percent_encode(
                    "SedDoEiusmod",
                    percent_encoding::NON_ALPHANUMERIC
                )
                .to_string()
            )
            .unwrap(),
        3
    );
}

#[test]
fn casing_with_defaults() {
    // Input
    assert_eq!(test_enum2().decode("lorem_ipsum").unwrap(), 0);

    // Output
    assert_eq!("lorem-ipsum", test_enum2().encode(0));
    let decl = EnumDecl {
        name: "TestEnum2".to_string(),
        directives: vec![
            Directive::with_arg("input_casing", "snake"),
            Directive::with_arg("output_casing", "kebab"),
        ],
        variants: vec![VariantDecl::plain("LoremIpsum")],
    };
    let codec = build_codec(&decl).unwrap();
    assert_eq!(
        "TestEnum2::LoremIpsum",
        format!("{}::{}", codec.enum_name_string(), decl.variants[0].identifier)
    );
}
