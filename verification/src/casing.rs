//! The casing-transform catalogue and its resolution from directives.
//!
//! A casing transform is a pure function from a base name to a cased
//! string, identified by a name from a fixed catalogue.  A variant's
//! transform for one direction is resolved with this precedence: a
//! direction-specific directive on the variant, a combined `casing`
//! directive on the variant, a direction-specific directive on the
//! enumeration, a combined `casing` directive on the enumeration, and
//! finally the identity transform.

use vstd::prelude::*;
use vstd::string::*;
use vstd::utf8::encode_utf8;

use crate::directive::{find_directive, Directive, DirectiveView};
use crate::errors::{CodecError, CodecErrorView};

use heck::ToKebabCase;
use heck::ToLowerCamelCase;
use heck::ToPascalCase;
use heck::ToShoutyKebabCase;
use heck::ToShoutySnakeCase;
use heck::ToSnakeCase;
use heck::ToTitleCase;
use heck::ToTrainCase;

verus! {

/// One member of the casing catalogue.  `Identity` is what applies when no
/// casing directive is in effect.
#[derive(Clone, Copy, Debug, PartialEq, Eq, Structural)]
pub enum Transform {
    Identity,
    Snake,
    Kebab,
    Pascal,
    LowerCamel,
    ShoutySnake,
    ShoutyKebab,
    Title,
    Train,
    Upper,
    Lower,
    Percent,
}

/// What `snake` casing yields on a given base name.
pub uninterp spec fn snake_of(s: Seq<char>) -> Seq<char>;

/// What `kebab` casing yields on a given base name.
pub uninterp spec fn kebab_of(s: Seq<char>) -> Seq<char>;

/// What `pascal` (or `upper_camel`) casing yields on a given base name.
pub uninterp spec fn pascal_of(s: Seq<char>) -> Seq<char>;

/// What `lower_camel` casing yields on a given base name.
pub uninterp spec fn lower_camel_of(s: Seq<char>) -> Seq<char>;

/// What `shouty_snake` casing yields on a given base name.
pub uninterp spec fn shouty_snake_of(s: Seq<char>) -> Seq<char>;

/// What `shouty_kebab` casing yields on a given base name.
pub uninterp spec fn shouty_kebab_of(s: Seq<char>) -> Seq<char>;

/// What `title` casing yields on a given base name.
pub uninterp spec fn title_of(s: Seq<char>) -> Seq<char>;

/// What `train` casing yields on a given base name.
pub uninterp spec fn train_of(s: Seq<char>) -> Seq<char>;

/// What uppercasing the whole base name yields.
pub uninterp spec fn upper_of(s: Seq<char>) -> Seq<char>;

/// What lowercasing the whole base name yields.
pub uninterp spec fn lower_of(s: Seq<char>) -> Seq<char>;

/// Relies on heck's `ToSnakeCase` for `str`: words joined by `_`, all
/// lowercase; the result depends on the input characters alone.
#[verifier::external_body]
fn heck_snake(s: &str) -> (r: String)
    ensures
        r@ == snake_of(s@),
{
    s.to_snake_case()
}

/// Relies on heck's `ToKebabCase` for `str`: words joined by `-`, all
/// lowercase; the result depends on the input characters alone.
#[verifier::external_body]
fn heck_kebab(s: &str) -> (r: String)
    ensures
        r@ == kebab_of(s@),
{
    s.to_kebab_case()
}

/// Relies on heck's `ToPascalCase` for `str`: words capitalized and
/// concatenated; the result depends on the input characters alone.
#[verifier::external_body]
fn heck_pascal(s: &str) -> (r: String)
    ensures
        r@ == pascal_of(s@),
{
    s.to_pascal_case()
}

/// Relies on heck's `ToLowerCamelCase` for `str`: like pascal but with the
/// first word lowercase; the result depends on the input characters alone.
#[verifier::external_body]
fn heck_lower_camel(s: &str) -> (r: String)
    ensures
        r@ == lower_camel_of(s@),
{
    s.to_lower_camel_case()
}

/// Relies on heck's `ToShoutySnakeCase` for `str`: words joined by `_`,
/// all uppercase; the result depends on the input characters alone.
#[verifier::external_body]
fn heck_shouty_snake(s: &str) -> (r: String)
    ensures
        r@ == shouty_snake_of(s@),
{
    s.to_shouty_snake_case()
}

/// Relies on heck's `ToShoutyKebabCase` for `str`: words joined by `-`,
/// all uppercase; the result depends on the input characters alone.
#[verifier::external_body]
fn heck_shouty_kebab(s: &str) -> (r: String)
    ensures
        r@ == shouty_kebab_of(s@),
{
    s.to_shouty_kebab_case()
}

/// Relies on heck's `ToTitleCase` for `str`: words capitalized and joined
/// by a space; the result depends on the input characters alone.
#[verifier::external_body]
fn heck_title(s: &str) -> (r: String)
    ensures
        r@ == title_of(s@),
{
    s.to_title_case()
}

/// Relies on heck's `ToTrainCase` for `str`: words capitalized and joined
/// by `-`; the result depends on the input characters alone.
#[verifier::external_body]
fn heck_train(s: &str) -> (r: String)
    ensures
        r@ == train_of(s@),
{
    s.to_train_case()
}

/// Relies on `str::to_uppercase`: the Unicode uppercase mapping of the
/// whole string, a function of the input characters alone.
#[verifier::external_body]
fn std_uppercase(s: &str) -> (r: String)
    ensures
        r@ == upper_of(s@),
{
    s.to_uppercase()
}

/// Relies on `str::to_lowercase`: the Unicode lowercase mapping of the
/// whole string, a function of the input characters alone.
#[verifier::external_body]
fn std_lowercase(s: &str) -> (r: String)
    ensures
        r@ == lower_of(s@),
{
    s.to_lowercase()
}

/// Relies on `String::from_utf8`: bytes below 0x80 are valid UTF-8 and
/// decode to the characters with the same code points.
#[verifier::external_body]
fn ascii_to_string(v: Vec<u8>) -> (r: String)
    requires
        forall|k: int| 0 <= k < v@.len() ==> v@[k] < 0x80,
    ensures
        r@ == v@.map_values(|b: u8| b as char),
{
    String::from_utf8(v).unwrap_or_default()
}

/// Whether the byte is an ASCII letter or digit, the bytes that percent
/// encoding leaves unescaped.
pub open spec fn is_ascii_alnum_byte(b: u8) -> bool {
    (0x30 <= b && b <= 0x39) || (0x41 <= b && b <= 0x5a) || (0x61 <= b && b <= 0x7a)
}

/// The uppercase hexadecimal digit for a value below 16, as a byte.
pub open spec fn hex_upper_byte(n: u8) -> u8 {
    if n < 10 {
        (0x30 + n) as u8
    } else {
        (0x37 + n) as u8
    }
}

/// The percent encoding of one byte: kept as is if an ASCII letter or
/// digit, else `%` followed by two uppercase hexadecimal digits.
pub open spec fn percent_byte(b: u8) -> Seq<u8> {
    if is_ascii_alnum_byte(b) {
        seq![b]
    } else {
        seq![0x25u8, hex_upper_byte(b / 16), hex_upper_byte(b % 16)]
    }
}

/// The percent encoding of a byte sequence.
pub open spec fn percent_bytes(bs: Seq<u8>) -> Seq<u8>
    decreases bs.len(),
{
    if bs.len() == 0 {
        Seq::empty()
    } else {
        percent_byte(bs[0]) + percent_bytes(bs.drop_first())
    }
}

/// What the `percent` transform yields: every non-alphanumeric byte of the
/// UTF-8 form of the base name escaped as `%` and two uppercase
/// hexadecimal digits.
pub open spec fn percent_of(s: Seq<char>) -> Seq<char> {
    percent_bytes(encode_utf8(s)).map_values(|b: u8| b as char)
}

proof fn lemma_percent_bytes_push(bs: Seq<u8>, b: u8)
    ensures
        percent_bytes(bs.push(b)) == percent_bytes(bs) + percent_byte(b),
    decreases bs.len(),
{
    if bs.len() == 0 {
        assert(bs.push(b)[0] == b);
        assert(bs.push(b).drop_first() =~= Seq::<u8>::empty());
        assert(percent_bytes(Seq::<u8>::empty()) == Seq::<u8>::empty());
        assert(percent_bytes(bs.push(b)) == percent_byte(b) + Seq::<u8>::empty());
        assert(percent_byte(b) + Seq::<u8>::empty() =~= percent_byte(b));
        assert(percent_bytes(bs) == Seq::<u8>::empty());
        assert(Seq::<u8>::empty() + percent_byte(b) =~= percent_byte(b));
    } else {
        let h = percent_byte(bs[0]);
        assert(bs.push(b)[0] == bs[0]);
        assert(bs.push(b).drop_first() =~= bs.drop_first().push(b));
        lemma_percent_bytes_push(bs.drop_first(), b);
        assert(percent_bytes(bs.push(b)) == h + (percent_bytes(bs.drop_first()) + percent_byte(
            b,
        )));
        assert(h + (percent_bytes(bs.drop_first()) + percent_byte(b)) =~= (h + percent_bytes(
            bs.drop_first(),
        )) + percent_byte(b));
        assert(percent_bytes(bs) == h + percent_bytes(bs.drop_first()));
    }
}

/// Every byte that the encoding of one byte yields is ASCII.
proof fn lemma_percent_byte_ascii(b: u8)
    ensures
        forall|k: int| 0 <= k < percent_byte(b).len() ==> percent_byte(b)[k] < 0x80,
{
    if !is_ascii_alnum_byte(b) {
        assert(percent_byte(b)[0] == 0x25);
        assert(percent_byte(b)[1] == hex_upper_byte(b / 16));
        assert(percent_byte(b)[2] == hex_upper_byte(b % 16));
        assert(hex_upper_byte(b / 16) < 0x80);
        assert(hex_upper_byte(b % 16) < 0x80);
    }
}

/// Every byte of a percent encoding is ASCII.
proof fn lemma_percent_bytes_ascii(bs: Seq<u8>)
    ensures
        forall|k: int| 0 <= k < percent_bytes(bs).len() ==> percent_bytes(bs)[k] < 0x80,
    decreases bs.len(),
{
    if bs.len() > 0 {
        lemma_percent_byte_ascii(bs[0]);
        lemma_percent_bytes_ascii(bs.drop_first());
        let h = percent_byte(bs[0]);
        let t = percent_bytes(bs.drop_first());
        assert forall|k: int| 0 <= k < percent_bytes(bs).len() implies percent_bytes(bs)[k]
            < 0x80 by {
            assert(percent_bytes(bs) == h + t);
            if k < h.len() {
                assert(percent_bytes(bs)[k] == h[k]);
            } else {
                assert(percent_bytes(bs)[k] == t[k - h.len()]);
            }
        }
    }
}

/// The `percent` transform: escapes all non-alphanumeric bytes of the base
/// name with percent encoding.
pub fn percent_encode(s: &str) -> (r: String)
    ensures
        r@ == percent_of(s@),
{
    let bytes: &[u8] = s.as_bytes();
    let n: usize = bytes.len();
    let mut out: Vec<u8> = Vec::new();
    let mut i: usize = 0;
    while i < n
        invariant
            n == bytes@.len(),
            bytes@ == encode_utf8(s@),
            0 <= i <= n,
            out@ == percent_bytes(bytes@.take(i as int)),
            forall|k: int| 0 <= k < out@.len() ==> out@[k] < 0x80,
        decreases n - i,
    {
        let b = bytes[i];
        proof {
            assert(bytes@.take(i + 1) =~= bytes@.take(i as int).push(bytes@[i as int]));
            lemma_percent_bytes_push(bytes@.take(i as int), b);
        }
        if (0x30 <= b && b <= 0x39) || (0x41 <= b && b <= 0x5a) || (0x61 <= b && b <= 0x7a) {
            out.push(b);
        } else {
            out.push(0x25);
            let hi = b / 16;
            let lo = b % 16;
            out.push(if hi < 10 { 0x30 + hi } else { 0x37 + hi });
            out.push(if lo < 10 { 0x30 + lo } else { 0x37 + lo });
        }
        proof {
            assert(out@ =~= percent_bytes(bytes@.take(i + 1)));
        }
        i += 1;
    }
    proof {
        assert(bytes@.take(n as int) =~= bytes@);
    }
    let r = ascii_to_string(out);
    r
}

/// What a transform of the catalogue yields on a base name.
pub open spec fn apply_transform_spec(t: Transform, s: Seq<char>) -> Seq<char> {
    match t {
        Transform::Identity => s,
        Transform::Snake => snake_of(s),
        Transform::Kebab => kebab_of(s),
        Transform::Pascal => pascal_of(s),
        Transform::LowerCamel => lower_camel_of(s),
        Transform::ShoutySnake => shouty_snake_of(s),
        Transform::ShoutyKebab => shouty_kebab_of(s),
        Transform::Title => title_of(s),
        Transform::Train => train_of(s),
        Transform::Upper => upper_of(s),
        Transform::Lower => lower_of(s),
        Transform::Percent => percent_of(s),
    }
}

/// Applies a transform of the catalogue to a base name.
pub fn apply_transform(t: Transform, s: &str) -> (r: String)
    ensures
        r@ == apply_transform_spec(t, s@),
{
    match t {
        Transform::Identity => s.to_owned(),
        Transform::Snake => heck_snake(s),
        Transform::Kebab => heck_kebab(s),
        Transform::Pascal => heck_pascal(s),
        Transform::LowerCamel => heck_lower_camel(s),
        Transform::ShoutySnake => heck_shouty_snake(s),
        Transform::ShoutyKebab => heck_shouty_kebab(s),
        Transform::Title => heck_title(s),
        Transform::Train => heck_train(s),
        Transform::Upper => std_uppercase(s),
        Transform::Lower => std_lowercase(s),
        Transform::Percent => percent_encode(s),
    }
}

/// The transform named `n`, if the catalogue has one of that name.
/// `upper_camel` is an alias of `pascal`.
pub open spec fn transform_of_name(n: Seq<char>) -> Option<Transform> {
    if n == "snake"@ {
        Some(Transform::Snake)
    } else if n == "kebab"@ {
        Some(Transform::Kebab)
    } else if n == "pascal"@ {
        Some(Transform::Pascal)
    } else if n == "upper_camel"@ {
        Some(Transform::Pascal)
    } else if n == "lower_camel"@ {
        Some(Transform::LowerCamel)
    } else if n == "shouty_snake"@ {
        Some(Transform::ShoutySnake)
    } else if n == "shouty_kebab"@ {
        Some(Transform::ShoutyKebab)
    } else if n == "title"@ {
        Some(Transform::Title)
    } else if n == "train"@ {
        Some(Transform::Train)
    } else if n == "upper"@ {
        Some(Transform::Upper)
    } else if n == "lower"@ {
        Some(Transform::Lower)
    } else if n == "percent"@ {
        Some(Transform::Percent)
    } else {
        None
    }
}

/// Looks a transform name up in the catalogue.
pub fn parse_transform(n: &String) -> (r: Option<Transform>)
    ensures
        r == transform_of_name(n@),
{
    if crate::directive::string_eq_str(n, "snake") {
        Some(Transform::Snake)
    } else if crate::directive::string_eq_str(n, "kebab") {
        Some(Transform::Kebab)
    } else if crate::directive::string_eq_str(n, "pascal") {
        Some(Transform::Pascal)
    } else if crate::directive::string_eq_str(n, "upper_camel") {
        Some(Transform::Pascal)
    } else if crate::directive::string_eq_str(n, "lower_camel") {
        Some(Transform::LowerCamel)
    } else if crate::directive::string_eq_str(n, "shouty_snake") {
        Some(Transform::ShoutySnake)
    } else if crate::directive::string_eq_str(n, "shouty_kebab") {
        Some(Transform::ShoutyKebab)
    } else if crate::directive::string_eq_str(n, "title") {
        Some(Transform::Title)
    } else if crate::directive::string_eq_str(n, "train") {
        Some(Transform::Train)
    } else if crate::directive::string_eq_str(n, "upper") {
        Some(Transform::Upper)
    } else if crate::directive::string_eq_str(n, "lower") {
        Some(Transform::Lower)
    } else if crate::directive::string_eq_str(n, "percent") {
        Some(Transform::Percent)
    } else {
        None
    }
}

/// Whether the argument list of a casing directive is well formed: exactly
/// one argument, and it names a transform of the catalogue.
pub open spec fn case_args_ok(args: Seq<Seq<char>>) -> bool {
    args.len() == 1 && transform_of_name(args[0]) is Some
}

/// Whether the arguments given to a casing directive are acceptable:
/// exactly one, naming a transform of the catalogue.
pub fn check_case(args: &Vec<String>) -> (r: bool)
    ensures
        r == case_args_ok(args.deep_view()),
{
    if args.len() != 1 {
        false
    } else {
        parse_transform(&args[0]).is_some()
    }
}

/// The casing directive that supplies the transform for one direction
/// within one scope: the direction-specific directive if present, else the
/// combined `casing` directive.
pub open spec fn supplied_casing_directive(
    ds: Seq<DirectiveView>,
    specific: Seq<char>,
) -> Option<DirectiveView> {
    match find_directive(ds, specific) {
        Some(d) => Some(d),
        None => find_directive(ds, "casing"@),
    }
}

/// What resolving the supplied casing directive yields: no directive means
/// no transform, a malformed one is a construction-time failure.
pub open spec fn spec_match_supplied_casing(ds: Seq<DirectiveView>, specific: Seq<char>) -> Result<
    Option<Transform>,
    CodecErrorView,
> {
    match supplied_casing_directive(ds, specific) {
        None => Ok(None),
        Some(d) => if d.args.len() != 1 {
            Err(CodecErrorView::WrongArity { directive: d.name })
        } else {
            match transform_of_name(d.args[0]) {
                Some(t) => Ok(Some(t)),
                None => Err(CodecErrorView::UnknownCasing { name: d.args[0] }),
            }
        },
    }
}

/// Resolves the casing transform supplied by one scope's directives for
/// the direction whose directive is named `ident`, with the combined
/// `casing` directive as fallback.  A malformed directive is reported as a
/// construction-time failure.
pub fn match_supplied_casing(ident: &str, attrs: &Vec<Directive>) -> (r: Result<
    Option<Transform>,
    CodecError,
>)
    ensures
        ({
            let m = spec_match_supplied_casing(attrs.deep_view(), ident@);
            match r {
                Ok(o) => m == Ok::<Option<Transform>, CodecErrorView>(o),
                Err(e) => m == Err::<Option<Transform>, CodecErrorView>(e@),
            }
        }),
{
    let found = match crate::directive::find_directive_in(attrs, ident) {
        Some(d) => Some(d),
        None => crate::directive::find_directive_in(attrs, "casing"),
    };
    match found {
        None => Ok(None),
        Some(d) => {
            if d.args.len() != 1 {
                Err(CodecError::WrongArity { directive: d.name.clone() })
            } else {
                match parse_transform(&d.args[0]) {
                    Some(t) => Ok(Some(t)),
                    None => Err(CodecError::UnknownCasing { name: d.args[0].clone() }),
                }
            }
        },
    }
}

/// The transform a directive supplies where its shape cannot be assumed:
/// identity unless it has exactly one argument naming a catalogue member.
/// Construction validates directives first, so the identity fallback never
/// masks a malformed directive in a built codec.
pub open spec fn directive_transform_or_identity(d: DirectiveView) -> Transform {
    if d.args.len() == 1 {
        match transform_of_name(d.args[0]) {
            Some(t) => t,
            None => Transform::Identity,
        }
    } else {
        Transform::Identity
    }
}

/// The transform that applies to one variant in one direction, resolved
/// with the scope precedence: variant directives first, then enumeration
/// directives, then identity.
pub open spec fn resolved_transform(
    vds: Seq<DirectiveView>,
    eds: Seq<DirectiveView>,
    specific: Seq<char>,
) -> Transform {
    match supplied_casing_directive(vds, specific) {
        Some(d) => directive_transform_or_identity(d),
        None => match supplied_casing_directive(eds, specific) {
            Some(d) => directive_transform_or_identity(d),
            None => Transform::Identity,
        },
    }
}

/// Resolves the transform for one variant in the direction whose directive
/// is named `specific`, honouring the scope precedence.
pub fn resolve_transform(
    variant_attrs: &Vec<Directive>,
    enum_attrs: &Vec<Directive>,
    specific: &str,
) -> (t: Transform)
    ensures
        t == resolved_transform(variant_attrs.deep_view(), enum_attrs.deep_view(), specific@),
{
    let found = match crate::directive::find_directive_in(variant_attrs, specific) {
        Some(d) => Some(d),
        None => match crate::directive::find_directive_in(variant_attrs, "casing") {
            Some(d) => Some(d),
            None => match crate::directive::find_directive_in(enum_attrs, specific) {
                Some(d) => Some(d),
                None => crate::directive::find_directive_in(enum_attrs, "casing"),
            },
        },
    };
    match found {
        None => Transform::Identity,
        Some(d) => {
            if d.args.len() == 1 {
                match parse_transform(&d.args[0]) {
                    Some(t) => t,
                    None => Transform::Identity,
                }
            } else {
                Transform::Identity
            }
        },
    }
}

} // verus!
