use to_and_fro::casing::{apply_transform, check_case, match_supplied_casing, Transform};
use to_and_fro::codec::{build_codec, Codec};
use to_and_fro::decl::{EnumDecl, VariantDecl};
use to_and_fro::directive::Directive;

fn cased_enum(casing: &str) -> Codec {
    let decl = EnumDecl {
        name: "Cased".to_string(),
        directives: vec![Directive::with_arg("casing", casing)],
        variants: vec![VariantDecl::plain("HelloWorld"), VariantDecl::plain("FooBar")],
    };
    build_codec(&decl).unwrap()
}

#[test]
fn snake_exact() {
    assert_eq!(cased_enum("snake").encode(0), "hello_world");
    assert_eq!(cased_enum("snake").decode("foo_bar").unwrap(), 1);
}

#[test]
fn kebab_exact() {
    // Enumeration-scope kebab casing covers both directions.
    assert_eq!(cased_enum("kebab").encode(0), "hello-world");
    assert_eq!(cased_enum("kebab").decode("foo-bar").unwrap(), 1);
}

#[test]
fn pascal_exact() {
    assert_eq!(cased_enum("pascal").encode(0), "HelloWorld");
    assert_eq!(cased_enum("upper_camel").encode(0), "HelloWorld");
    assert_eq!(apply_transform(Transform::Pascal, "foo_bar"), "FooBar");
}

#[test]
fn lower_camel_exact() {
    assert_eq!(cased_enum("lower_camel").encode(0), "helloWorld");
}

#[test]
fn shouty_snake_exact() {
    assert_eq!(cased_enum("shouty_snake").encode(0), "HELLO_WORLD");
}

#[test]
fn shouty_kebab_exact() {
    assert_eq!(cased_enum("shouty_kebab").encode(0), "HELLO-WORLD");
}

#[test]
fn title_exact() {
    assert_eq!(cased_enum("title").encode(0), "Hello World");
}

#[test]
fn train_exact() {
    assert_eq!(cased_enum("train").encode(0), "Hello-World");
}

#[test]
fn upper_exact() {
    assert_eq!(cased_enum("upper").encode(0), "HELLOWORLD");
}

#[test]
fn lower_exact() {
    assert_eq!(cased_enum("lower").encode(0), "helloworld");
}

#[test]
fn percent_exact() {
    // Every non-alphanumeric byte is escaped as % and two uppercase
    // hexadecimal digits.
    let decl = EnumDecl::plain(
        "Cased",
        vec![VariantDecl::with_directives(
            "Load",
            vec![
                Directive::with_arg("rename", "Load Test-1"),
                Directive::with_arg("casing", "percent"),
            ],
        )],
    );
    let codec = build_codec(&decl).unwrap();
    assert_eq!(codec.encode(0), "Load%20Test%2D1");
    assert_eq!(codec.decode("Load%20Test%2D1").unwrap(), 0);
    assert!(codec.decode("Load Test-1").is_err());
}

#[test]
fn round_trip_when_casings_coincide() {
    let codec = cased_enum("snake");
    for v in codec.enumerate().unwrap() {
        assert_eq!(codec.decode(&codec.encode(v)).unwrap(), v);
    }
}

#[test]
fn apply_transform_direct() {
    assert_eq!(apply_transform(Transform::Identity, "XMLHttpRequest"), "XMLHttpRequest");
    assert_eq!(apply_transform(Transform::Snake, "XMLHttpRequest"), "xml_http_request");
    assert_eq!(apply_transform(Transform::Percent, "a b"), "a%20b");
}

#[test]
fn check_case_accepts_catalogue_names() {
    assert!(check_case(&vec!["kebab".to_string()]));
    assert!(check_case(&vec!["percent".to_string()]));
    assert!(!check_case(&vec!["sarcastic".to_string()]));
    assert!(!check_case(&vec![]));
    assert!(!check_case(&vec!["kebab".to_string(), "snake".to_string()]));
}

#[test]
fn match_supplied_casing_precedence() {
    // The direction-specific directive outranks the combined one.
    let attrs = vec![
        Directive::with_arg("casing", "kebab"),
        Directive::with_arg("input_casing", "snake"),
    ];
    let t = match_supplied_casing("input_casing", &attrs).unwrap();
    assert_eq!(t, Some(Transform::Snake));
    let t = match_supplied_casing("output_casing", &attrs).unwrap();
    assert_eq!(t, Some(Transform::Kebab));
    let t = match_supplied_casing("output_casing", &Vec::new()).unwrap();
    assert_eq!(t, None);
}
