//! The declared shape of an enumeration: its name, its enumeration-scope
//! directives, and its ordered list of variants, each with an identifier,
//! variant-scope directives, and a flag for payload-bearing variants.
//!
//! A variant is identified by its position in the declared list; all
//! tables of a built codec speak of variants by that index.

use vstd::prelude::*;

use crate::directive::{Directive, DirectiveView};

verus! {

/// One declared variant: its identifier, the directives attached to it,
/// and whether it carries payload data.
pub struct VariantDecl {
    pub identifier: String,
    pub directives: Vec<Directive>,
    pub has_payload: bool,
}

/// The mathematical value of a [`VariantDecl`].
pub ghost struct VariantDeclView {
    pub identifier: Seq<char>,
    pub directives: Seq<DirectiveView>,
    pub has_payload: bool,
}

impl View for VariantDecl {
    type V = VariantDeclView;

    open spec fn view(&self) -> VariantDeclView {
        VariantDeclView {
            identifier: self.identifier@,
            directives: self.directives.deep_view(),
            has_payload: self.has_payload,
        }
    }
}

impl DeepView for VariantDecl {
    type V = VariantDeclView;

    open spec fn deep_view(&self) -> VariantDeclView {
        self@
    }
}

impl VariantDecl {
    /// A payload-free variant with no directives.
    pub fn plain(identifier: &str) -> (v: VariantDecl)
        ensures
            v@.identifier == identifier@,
            v@.directives == Seq::<DirectiveView>::empty(),
            !v@.has_payload,
    {
        let v = VariantDecl {
            identifier: identifier.to_owned(),
            directives: Vec::new(),
            has_payload: false,
        };
        proof {
            assert(v@.directives =~= Seq::<DirectiveView>::empty());
        }
        v
    }

    /// A payload-free variant with the given directives.
    pub fn with_directives(identifier: &str, directives: Vec<Directive>) -> (v: VariantDecl)
        ensures
            v@.identifier == identifier@,
            v@.directives == directives.deep_view(),
            !v@.has_payload,
    {
        VariantDecl { identifier: identifier.to_owned(), directives, has_payload: false }
    }
}

/// One declared enumeration: its name, its enumeration-scope directives,
/// and its ordered variants.
pub struct EnumDecl {
    pub name: String,
    pub directives: Vec<Directive>,
    pub variants: Vec<VariantDecl>,
}

/// The mathematical value of an [`EnumDecl`].
pub ghost struct EnumDeclView {
    pub name: Seq<char>,
    pub directives: Seq<DirectiveView>,
    pub variants: Seq<VariantDeclView>,
}

impl View for EnumDecl {
    type V = EnumDeclView;

    open spec fn view(&self) -> EnumDeclView {
        EnumDeclView {
            name: self.name@,
            directives: self.directives.deep_view(),
            variants: self.variants.deep_view(),
        }
    }
}

impl EnumDecl {
    /// An enumeration with no enumeration-scope directives.
    pub fn plain(name: &str, variants: Vec<VariantDecl>) -> (d: EnumDecl)
        ensures
            d@.name == name@,
            d@.directives == Seq::<DirectiveView>::empty(),
            d@.variants == variants.deep_view(),
    {
        let d = EnumDecl { name: name.to_owned(), directives: Vec::new(), variants };
        proof {
            assert(d@.directives =~= Seq::<DirectiveView>::empty());
        }
        d
    }
}

} // verus!
