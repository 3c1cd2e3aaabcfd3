//! The default-variant directive and the decode fallback it configures.
//!
//! When a `default_variant` is configured, decoding an unrecognized string
//! falls back to that variant as a success path.  Without one, the failure
//! is reported to the caller together with the input and the
//! enumeration's name.

use vstd::prelude::*;

use crate::directive::{find_directive, unary_shaped, Directive, DirectiveView};
use crate::errors::DecodeError;

verus! {

/// The name the `default_variant` directive carries, if one is attached.
pub open spec fn default_variant_name(ds: Seq<DirectiveView>) -> Option<Seq<char>> {
    match find_directive(ds, "default_variant"@) {
        Some(d) => Some(d.args[0]),
        None => None,
    }
}

/// The name of the variant to fall back to when decoding fails, if the
/// directives configure one.
pub fn get_default_variant(input_attrs: &Vec<Directive>) -> (r: Option<String>)
    requires
        unary_shaped(input_attrs.deep_view(), "default_variant"@),
    ensures
        match r {
            Some(s) => default_variant_name(input_attrs.deep_view()) == Some(s@),
            None => default_variant_name(input_attrs.deep_view()) is None,
        },
{
    match crate::directive::find_directive_in(input_attrs, "default_variant") {
        Some(d) => Some(d.args[0].clone()),
        None => None,
    }
}

/// The variant that `Default` should yield: the configured default
/// variant of the codec, if one was declared.
pub fn default_impl(c: &crate::codec::Codec) -> (r: Option<usize>)
    ensures
        match r {
            Some(i) => c@.default_variant == Some(i as int),
            None => c@.default_variant is None,
        },
{
    c.default_variant
}

/// What decoding returns once no decode entry has matched: the default
/// variant if one is configured, else a failure carrying the offending
/// input and the enumeration's name.
pub open spec fn spec_fromstr_failure(
    enum_name: Seq<char>,
    default_variant: Option<int>,
    input: Seq<char>,
) -> Result<int, crate::errors::DecodeErrorView> {
    match default_variant {
        Some(d) => Ok(d),
        None => Err(crate::errors::DecodeErrorView { input: input, enum_name: enum_name }),
    }
}

/// The decode outcome once no decode entry has matched the input.
pub fn fromstr_failure(enum_name: &String, default_variant: Option<usize>, s: &str) -> (r: Result<
    usize,
    DecodeError,
>)
    ensures
        ({
            let m = spec_fromstr_failure(
                enum_name@,
                match default_variant {
                    Some(d) => Some(d as int),
                    None => None,
                },
                s@,
            );
            match r {
                Ok(i) => m == Ok::<int, crate::errors::DecodeErrorView>(i as int),
                Err(e) => m == Err::<int, crate::errors::DecodeErrorView>(e@),
            }
        }),
{
    match default_variant {
        Some(d) => Ok(d),
        None => Err(DecodeError { input: s.to_owned(), enum_name: enum_name.clone() }),
    }
}

} // verus!
