//! Base-name resolution: which literal string is fed into casing for a
//! variant, and the out-of-band alias strings that bypass casing.
//!
//! The encode direction honours `output_name` before `rename`; the decode
//! direction honours `rename` only.  This asymmetry lets a variant keep
//! its original spelling for parsing while presenting a different label
//! for display.

use vstd::prelude::*;

use crate::decl::VariantDecl;
use crate::directive::{find_directive, unary_shaped, Directive, DirectiveView};

verus! {

/// The base-name override that the directives supply for a direction: the
/// first directive named `ident` wins, then the first `rename`.
pub open spec fn name_override(ds: Seq<DirectiveView>, ident: Seq<char>) -> Option<Seq<char>> {
    match find_directive(ds, ident) {
        Some(d) => Some(d.args[0]),
        None => match find_directive(ds, "rename"@) {
            Some(d) => Some(d.args[0]),
            None => None,
        },
    }
}

/// The alias string the directives supply, if any: one extra literal
/// decode string, exempt from casing.
pub open spec fn alias_of_directives(ds: Seq<DirectiveView>) -> Option<Seq<char>> {
    match find_directive(ds, "alias"@) {
        Some(d) => Some(d.args[0]),
        None => None,
    }
}

/// The base-name override named by `ident`, with `rename` as fallback.
pub fn get_name_for(attrs: &Vec<Directive>, ident: &str) -> (r: Option<String>)
    requires
        unary_shaped(attrs.deep_view(), ident@),
        unary_shaped(attrs.deep_view(), "rename"@),
    ensures
        match r {
            Some(s) => name_override(attrs.deep_view(), ident@) == Some(s@),
            None => name_override(attrs.deep_view(), ident@) is None,
        },
{
    let found = match crate::directive::find_directive_in(attrs, ident) {
        Some(d) => Some(d),
        None => crate::directive::find_directive_in(attrs, "rename"),
    };
    match found {
        Some(d) => Some(d.args[0].clone()),
        None => None,
    }
}

/// The alias string attached to a variant, if any.
pub fn get_alias_for(attrs: &Vec<Directive>) -> (r: Option<String>)
    requires
        unary_shaped(attrs.deep_view(), "alias"@),
    ensures
        match r {
            Some(s) => alias_of_directives(attrs.deep_view()) == Some(s@),
            None => alias_of_directives(attrs.deep_view()) is None,
        },
{
    match crate::directive::find_directive_in(attrs, "alias") {
        Some(d) => Some(d.args[0].clone()),
        None => None,
    }
}

/// Whether the variant is excluded from decoding.
pub fn should_reject(attrs: &Vec<Directive>) -> (r: bool)
    ensures
        r == crate::directive::has_directive(attrs.deep_view(), "reject"@),
{
    crate::directive::has_directive_in(attrs, "reject")
}

/// The alias string of each variant, in declaration order.
pub fn create_alias_arms(variants: &Vec<VariantDecl>) -> (r: Vec<Option<String>>)
    requires
        forall|i: int|
            0 <= i < variants.deep_view().len() ==> unary_shaped(
                #[trigger] variants.deep_view()[i].directives,
                "alias"@,
            ),
    ensures
        r.deep_view().len() == variants.deep_view().len(),
        forall|i: int|
            0 <= i < r.deep_view().len() ==> #[trigger] r.deep_view()[i] == alias_of_directives(
                variants.deep_view()[i].directives,
            ),
{
    let mut r: Vec<Option<String>> = Vec::new();
    let mut i: usize = 0;
    while i < variants.len()
        invariant
            0 <= i <= variants.len(),
            variants.deep_view().len() == variants.len(),
            forall|j: int|
                0 <= j < variants.deep_view().len() ==> unary_shaped(
                    #[trigger] variants.deep_view()[j].directives,
                    "alias"@,
                ),
            r.deep_view().len() == i,
            forall|j: int|
                0 <= j < i ==> #[trigger] r.deep_view()[j] == alias_of_directives(
                    variants.deep_view()[j].directives,
                ),
        decreases variants.len() - i,
    {
        proof {
            assert(unary_shaped(variants.deep_view()[i as int].directives, "alias"@));
            assert(variants.deep_view()[i as int] == variants@[i as int]@);
            assert(variants.deep_view()[i as int].directives == variants@[i as int
            ].directives.deep_view());
        }
        let a = get_alias_for(&variants[i].directives);
        let ghost prev = r@;
        proof {
            assert forall|j: int| 0 <= j < i implies prev[j].deep_view() == alias_of_directives(
                variants.deep_view()[j].directives,
            ) by {
                assert(r.deep_view()[j] == prev[j].deep_view());
            }
        }
        r.push(a);
        proof {
            assert forall|j: int| 0 <= j < i + 1 implies r.deep_view()[j] == alias_of_directives(
                variants.deep_view()[j].directives,
            ) by {
                if j < i {
                    assert(r@[j] == prev[j]);
                    assert(r.deep_view()[j] == prev[j].deep_view());
                } else {
                    assert(r.deep_view()[j] == a.deep_view());
                }
            }
        }
        i += 1;
    }
    r
}

} // verus!
