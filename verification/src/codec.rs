//! The codec itself: resolution of the declared configuration into a
//! total encode table and an unambiguous decode table, and the lookups
//! over them.
//!
//! Construction is deterministic and side-effect-free.  It fails, and the
//! codec must not be usable, exactly when the declared configuration is
//! internally inconsistent: a malformed directive, a `default_variant`
//! naming no declared variant, or two distinct variants resolving to the
//! same decode string.

use vstd::prelude::*;

use crate::casing::{
    apply_transform, apply_transform_spec, resolve_transform, resolved_transform,
    transform_of_name, Transform,
};
use crate::decl::{EnumDecl, EnumDeclView, VariantDecl, VariantDeclView};
use crate::defaults::{default_variant_name, get_default_variant, spec_fromstr_failure};
use crate::directive::{find_directive, has_directive, unary_shaped, Directive, DirectiveView};
use crate::errors::{CodecError, CodecErrorView, DecodeError, DecodeErrorView};
use crate::naming::alias_of_directives;

verus! {

/// One direction of the codec: decoding text into a variant, or encoding
/// a variant into text.
#[derive(Clone, Copy, Debug, PartialEq, Eq, Structural)]
pub enum Direction {
    Input,
    Output,
}

/// The name of the direction-specific casing directive.
pub open spec fn direction_directive_name(dir: Direction) -> Seq<char> {
    match dir {
        Direction::Input => "input_casing"@,
        Direction::Output => "output_casing"@,
    }
}

/// Whether the variant is excluded from the decode table.
pub open spec fn v_rejected(v: VariantDeclView) -> bool {
    has_directive(v.directives, "reject"@)
}

/// The base name fed into casing for the decode direction: the `rename`
/// override if present, else the variant's own identifier.
pub open spec fn decode_base_name(v: VariantDeclView) -> Seq<char> {
    match find_directive(v.directives, "rename"@) {
        Some(d) => d.args[0],
        None => v.identifier,
    }
}

/// The base name fed into casing for the encode direction: `output_name`
/// wins, then `rename`, then the variant's own identifier.
pub open spec fn encode_base_name(v: VariantDeclView) -> Seq<char> {
    match find_directive(v.directives, "output_name"@) {
        Some(d) => d.args[0],
        None => decode_base_name(v),
    }
}

/// The base name for one direction.
pub open spec fn base_name(v: VariantDeclView, dir: Direction) -> Seq<char> {
    match dir {
        Direction::Input => decode_base_name(v),
        Direction::Output => encode_base_name(v),
    }
}

/// The cased name of one variant in one direction: its base name under
/// the transform that scope precedence resolves for that direction.
pub open spec fn cased_name(d: EnumDeclView, i: int, dir: Direction) -> Seq<char> {
    apply_transform_spec(
        resolved_transform(d.variants[i].directives, d.directives, direction_directive_name(dir)),
        base_name(d.variants[i], dir),
    )
}

/// The string that encodes variant `i`.
pub open spec fn encode_string(d: EnumDeclView, i: int) -> Seq<char> {
    cased_name(d, i, Direction::Output)
}

/// The cased string that decodes to variant `i`, aliases aside.
pub open spec fn decode_key(d: EnumDeclView, i: int) -> Seq<char> {
    cased_name(d, i, Direction::Input)
}

/// One row of the decode table: a recognized string and the variant it
/// decodes to.
pub ghost struct DecodeEntryView {
    pub key: Seq<char>,
    pub variant: int,
}

/// The decode rows contributed by variant `i`: none if it is rejected,
/// else its cased decode key, followed by its literal alias if it has
/// one.
pub open spec fn variant_entries(d: EnumDeclView, i: int) -> Seq<DecodeEntryView> {
    if v_rejected(d.variants[i]) {
        Seq::empty()
    } else {
        let primary = seq![DecodeEntryView { key: decode_key(d, i), variant: i }];
        match alias_of_directives(d.variants[i].directives) {
            Some(a) => primary + seq![DecodeEntryView { key: a, variant: i }],
            None => primary,
        }
    }
}

/// The decode rows contributed by the first `n` variants, in declaration
/// order.
pub open spec fn entries_upto(d: EnumDeclView, n: int) -> Seq<DecodeEntryView>
    decreases n,
{
    if n <= 0 {
        Seq::empty()
    } else {
        entries_upto(d, n - 1) + variant_entries(d, n - 1)
    }
}

/// The full decode table the declaration calls for.
pub open spec fn decode_entries(d: EnumDeclView) -> Seq<DecodeEntryView> {
    entries_upto(d, d.variants.len() as int)
}

/// Two decode rows may share a key only for the same variant; duplicate
/// identical rows are a permitted no-op.
pub open spec fn entries_compatible(a: DecodeEntryView, b: DecodeEntryView) -> bool {
    a.key == b.key ==> a.variant == b.variant
}

/// Whether the declaration's decode table is free of key collisions
/// between distinct variants.
pub open spec fn collision_free(d: EnumDeclView) -> bool {
    forall|p: int, q: int|
        0 <= p < q < decode_entries(d).len() ==> entries_compatible(
            #[trigger] decode_entries(d)[p],
            #[trigger] decode_entries(d)[q],
        )
}

/// Whether a casing directive name is one of the three casing slots.
pub open spec fn is_casing_name(n: Seq<char>) -> bool {
    n == "casing"@ || n == "input_casing"@ || n == "output_casing"@
}

/// Whether a recognized directive in the given scope was handed the wrong
/// number of arguments.
pub open spec fn scope_directive_bad_arity(dv: DirectiveView, enum_scope: bool) -> bool {
    ||| is_casing_name(dv.name) && dv.args.len() != 1
    ||| enum_scope && dv.name == "default_variant"@ && dv.args.len() != 1
    ||| enum_scope && dv.name == "serialization_hook"@ && dv.args.len() != 0
    ||| !enum_scope && dv.name == "reject"@ && dv.args.len() != 0
    ||| !enum_scope && (dv.name == "alias"@ || dv.name == "rename"@ || dv.name == "output_name"@)
        && dv.args.len() != 1
}

/// Whether a casing directive names a transform outside the catalogue.
pub open spec fn scope_directive_unknown_casing(dv: DirectiveView) -> bool {
    is_casing_name(dv.name) && dv.args.len() == 1 && transform_of_name(dv.args[0]) is None
}

/// Whether one directive is acceptable in the given scope.  Directives
/// not recognized in the scope are ignored.
pub open spec fn scope_directive_ok(dv: DirectiveView, enum_scope: bool) -> bool {
    !scope_directive_bad_arity(dv, enum_scope) && !scope_directive_unknown_casing(dv)
}

/// The failure one directive provokes in the given scope, if any: a
/// wrong argument count is reported before an unknown transform name.
pub open spec fn directive_err(dv: DirectiveView, enum_scope: bool) -> Option<CodecErrorView> {
    if scope_directive_bad_arity(dv, enum_scope) {
        Some(CodecErrorView::WrongArity { directive: dv.name })
    } else if scope_directive_unknown_casing(dv) {
        Some(CodecErrorView::UnknownCasing { name: dv.args[0] })
    } else {
        None
    }
}

/// The failure of the first offending directive of a list, if any.
pub open spec fn first_directive_err(ds: Seq<DirectiveView>, enum_scope: bool) -> Option<
    CodecErrorView,
>
    decreases ds.len(),
{
    if ds.len() == 0 {
        None
    } else if directive_err(ds[0], enum_scope) is Some {
        directive_err(ds[0], enum_scope)
    } else {
        first_directive_err(ds.drop_first(), enum_scope)
    }
}

/// The first directive failure among the variants, in declaration order.
pub open spec fn first_variant_directive_err(vs: Seq<VariantDeclView>) -> Option<CodecErrorView>
    decreases vs.len(),
{
    if vs.len() == 0 {
        None
    } else if first_directive_err(vs[0].directives, false) is Some {
        first_directive_err(vs[0].directives, false)
    } else {
        first_variant_directive_err(vs.drop_first())
    }
}

/// The first directive failure of the whole declaration: enumeration
/// scope first, then each variant in order.
pub open spec fn spec_validate_err(d: EnumDeclView) -> Option<CodecErrorView> {
    if first_directive_err(d.directives, true) is Some {
        first_directive_err(d.directives, true)
    } else {
        first_variant_directive_err(d.variants)
    }
}

/// Whether every directive of the declaration is acceptable in its scope.
pub open spec fn decl_directives_ok(d: EnumDeclView) -> bool {
    (forall|k: int|
        0 <= k < d.directives.len() ==> scope_directive_ok(#[trigger] d.directives[k], true))
        && (forall|i: int, k: int|
        0 <= i < d.variants.len() && 0 <= k < d.variants[i].directives.len()
            ==> scope_directive_ok(#[trigger] d.variants[i].directives[k], false))
}

/// The position of the first variant with the given identifier.
pub open spec fn index_of_variant(vs: Seq<VariantDeclView>, name: Seq<char>) -> Option<int>
    decreases vs.len(),
{
    if vs.len() == 0 {
        None
    } else if vs[0].identifier == name {
        Some(0)
    } else {
        match index_of_variant(vs.drop_first(), name) {
            Some(i) => Some(i + 1),
            None => None,
        }
    }
}

/// Whether the configured default variant, if any, names a declared
/// variant.
pub open spec fn default_ok(d: EnumDeclView) -> bool {
    match default_variant_name(d.directives) {
        Some(n) => index_of_variant(d.variants, n) is Some,
        None => true,
    }
}

/// The declared position of the configured default variant, if any.
pub open spec fn default_index(d: EnumDeclView) -> Option<int> {
    match default_variant_name(d.directives) {
        Some(n) => index_of_variant(d.variants, n),
        None => None,
    }
}

/// Whether the declaration opts into the external structured
/// serialization interface.
pub open spec fn hook_enabled(d: EnumDeclView) -> bool {
    has_directive(d.directives, "serialization_hook"@)
}

/// Whether no declared variant carries payload data, the condition under
/// which the ordered variant list may be exposed.
pub open spec fn all_payload_free(d: EnumDeclView) -> bool {
    forall|i: int| 0 <= i < d.variants.len() ==> !(#[trigger] d.variants[i]).has_payload
}

/// Whether constructing a codec from the declaration succeeds.
pub open spec fn spec_build_ok(d: EnumDeclView) -> bool {
    decl_directives_ok(d) && default_ok(d) && collision_free(d)
}

/// The least row that conflicts with row `q` among those at or after
/// `p`: one key, two variants.
pub open spec fn first_conflict_with(es: Seq<DecodeEntryView>, q: int, p: int) -> Option<int>
    decreases q - p,
{
    if p >= q {
        None
    } else if es[p].key == es[q].key && es[p].variant != es[q].variant {
        Some(p)
    } else {
        first_conflict_with(es, q, p + 1)
    }
}

/// The first conflicting pair of decode rows at or after row `q`, in the
/// order the table is checked: each row against all earlier ones.
pub open spec fn first_conflict_row(es: Seq<DecodeEntryView>, q: int) -> Option<(int, int)>
    decreases es.len() - q,
{
    if q < 0 || q >= es.len() {
        None
    } else {
        match first_conflict_with(es, q, 0) {
            Some(p) => Some((p, q)),
            None => first_conflict_row(es, q + 1),
        }
    }
}

/// The failure constructing a codec from the declaration reports, if
/// any: the first offending directive, else an unresolvable default
/// variant, else the first decode collision.
pub open spec fn spec_build_err(d: EnumDeclView) -> Option<CodecErrorView> {
    if spec_validate_err(d) is Some {
        spec_validate_err(d)
    } else if default_variant_name(d.directives) is Some && index_of_variant(
        d.variants,
        default_variant_name(d.directives)->0,
    ) is None {
        Some(
            CodecErrorView::UnknownDefaultVariant { name: default_variant_name(d.directives)->0 },
        )
    } else {
        match first_conflict_row(decode_entries(d), 0) {
            Some(pq) => Some(CodecErrorView::DecodeCollision { key: decode_entries(d)[pq.0].key }),
            None => None,
        }
    }
}

/// Whether a construction error is witnessed by the declaration: the
/// failure it reports is present in the configuration.
pub open spec fn build_error_witnessed(d: EnumDeclView, e: CodecErrorView) -> bool {
    match e {
        CodecErrorView::WrongArity { directive } => (exists|k: int|
            0 <= k < d.directives.len() && (#[trigger] d.directives[k]).name == directive
                && scope_directive_bad_arity(d.directives[k], true)) || (exists|i: int, k: int|
            0 <= i < d.variants.len() && 0 <= k < d.variants[i].directives.len() && (
            #[trigger] d.variants[i].directives[k]).name == directive && scope_directive_bad_arity(
                d.variants[i].directives[k],
                false,
            )),
        CodecErrorView::UnknownCasing { name } => (exists|k: int|
            0 <= k < d.directives.len() && scope_directive_unknown_casing(
                #[trigger] d.directives[k],
            ) && d.directives[k].args[0] == name) || (exists|i: int, k: int|
            0 <= i < d.variants.len() && 0 <= k < d.variants[i].directives.len()
                && scope_directive_unknown_casing(#[trigger] d.variants[i].directives[k])
                && d.variants[i].directives[k].args[0] == name),
        CodecErrorView::UnknownDefaultVariant { name } => decl_directives_ok(d)
            && default_variant_name(d.directives) == Some(name) && index_of_variant(
            d.variants,
            name,
        ) is None,
        CodecErrorView::DecodeCollision { key } => decl_directives_ok(d) && default_ok(d) && (
        exists|p: int, q: int|
            0 <= p < q < decode_entries(d).len() && (#[trigger] decode_entries(d)[p]).key == (
            #[trigger] decode_entries(d)[q]).key && decode_entries(d)[p].variant != decode_entries(
                d,
            )[q].variant && decode_entries(d)[p].key == key),
        CodecErrorView::NotEnumerable => false,
    }
}

/// Every decode row of the first `n` variants names one of them.
proof fn lemma_entries_upto_variant_bounds(d: EnumDeclView, n: int)
    ensures
        forall|k: int|
            0 <= k < entries_upto(d, n).len() ==> 0 <= (#[trigger] entries_upto(d, n)[k]).variant
                < n,
    decreases n,
{
    if n > 0 {
        lemma_entries_upto_variant_bounds(d, n - 1);
        assert forall|k: int| 0 <= k < entries_upto(d, n).len() implies 0 <= (
        #[trigger] entries_upto(d, n)[k]).variant < n by {
            let prefix = entries_upto(d, n - 1);
            assert(entries_upto(d, n) == prefix + variant_entries(d, n - 1));
            if k < prefix.len() {
                assert(entries_upto(d, n)[k] == prefix[k]);
            } else {
                assert(entries_upto(d, n)[k] == variant_entries(d, n - 1)[k - prefix.len()]);
            }
        }
    }
}

/// A found variant index lies in range and names the sought identifier.
proof fn lemma_index_of_variant_found(vs: Seq<VariantDeclView>, name: Seq<char>)
    ensures
        match index_of_variant(vs, name) {
            Some(i) => 0 <= i < vs.len() && vs[i].identifier == name,
            None => forall|j: int| 0 <= j < vs.len() ==> (#[trigger] vs[j]).identifier != name,
        },
    decreases vs.len(),
{
    if vs.len() > 0 {
        lemma_index_of_variant_found(vs.drop_first(), name);
        if vs[0].identifier != name {
            match index_of_variant(vs.drop_first(), name) {
                Some(i) => {
                    assert(vs.drop_first()[i] == vs[i + 1]);
                },
                None => {
                    assert forall|j: int| 0 <= j < vs.len() implies (#[trigger] vs[j]).identifier
                        != name by {
                        if j > 0 {
                            assert(vs.drop_first()[j - 1] == vs[j]);
                        }
                    }
                },
            }
        }
    }
}

/// One executable row of the decode table.
pub struct DecodeEntry {
    pub key: String,
    pub variant: usize,
}

impl View for DecodeEntry {
    type V = DecodeEntryView;

    open spec fn view(&self) -> DecodeEntryView {
        DecodeEntryView { key: self.key@, variant: self.variant as int }
    }
}

impl DeepView for DecodeEntry {
    type V = DecodeEntryView;

    open spec fn deep_view(&self) -> DecodeEntryView {
        self@
    }
}

/// The derived artifact: a total encode table, an unambiguous decode
/// table, the optional default variant, and the capability flags.  Once
/// built it is immutable and side-effect-free to query.
pub struct Codec {
    pub enum_name: String,
    pub n_variants: usize,
    pub encode_table: Vec<String>,
    pub decode_table: Vec<DecodeEntry>,
    pub default_variant: Option<usize>,
    pub serialization_hook: bool,
    pub enumerable: bool,
}

/// The mathematical value of a [`Codec`].
pub ghost struct CodecView {
    pub enum_name: Seq<char>,
    pub n_variants: int,
    pub encode_table: Seq<Seq<char>>,
    pub decode_table: Seq<DecodeEntryView>,
    pub default_variant: Option<int>,
    pub serialization_hook: bool,
    pub enumerable: bool,
}

impl View for Codec {
    type V = CodecView;

    open spec fn view(&self) -> CodecView {
        CodecView {
            enum_name: self.enum_name@,
            n_variants: self.n_variants as int,
            encode_table: self.encode_table.deep_view(),
            decode_table: self.decode_table.deep_view(),
            default_variant: match self.default_variant {
                Some(i) => Some(i as int),
                None => None,
            },
            serialization_hook: self.serialization_hook,
            enumerable: self.enumerable,
        }
    }
}

impl Codec {
    /// Well-formedness: one encode string per variant, decode rows naming
    /// declared variants without cross-variant key collisions, and a
    /// default variant in range.
    pub open spec fn wf(&self) -> bool {
        &&& self@.encode_table.len() == self@.n_variants
        &&& forall|k: int|
            0 <= k < self@.decode_table.len() ==> 0 <= (
            #[trigger] self@.decode_table[k]).variant < self@.n_variants
        &&& forall|p: int, q: int|
            0 <= p < q < self@.decode_table.len() ==> entries_compatible(
                #[trigger] self@.decode_table[p],
                #[trigger] self@.decode_table[q],
            )
        &&& match self@.default_variant {
            Some(x) => 0 <= x < self@.n_variants,
            None => true,
        }
    }
}

/// Whether a codec value is exactly the one the declaration calls for.
pub open spec fn codec_models(c: CodecView, d: EnumDeclView) -> bool {
    &&& c.enum_name == d.name
    &&& c.n_variants == d.variants.len()
    &&& c.encode_table.len() == d.variants.len()
    &&& forall|i: int| 0 <= i < d.variants.len() ==> #[trigger] c.encode_table[i] == encode_string(d, i)
    &&& c.decode_table == decode_entries(d)
    &&& c.default_variant == default_index(d)
    &&& c.serialization_hook == hook_enabled(d)
    &&& c.enumerable == all_payload_free(d)
}

/// The shape under which a variant's name overrides may be read: each of
/// `rename` and `output_name`, where it takes effect, has one argument.
pub open spec fn variant_names_shaped(v: VariantDeclView) -> bool {
    unary_shaped(v.directives, "rename"@) && unary_shaped(v.directives, "output_name"@)
}

/// What mapping one variant yields: nothing when rejection applies, else
/// its cased name for the direction.
pub open spec fn spec_map_variant_entry(
    vs: Seq<VariantDeclView>,
    eds: Seq<DirectiveView>,
    dir: Direction,
    reject_if_present: bool,
    i: int,
) -> Option<Seq<char>> {
    if reject_if_present && v_rejected(vs[i]) {
        None
    } else {
        Some(
            apply_transform_spec(
                resolved_transform(vs[i].directives, eds, direction_directive_name(dir)),
                base_name(vs[i], dir),
            ),
        )
    }
}

/// The cased name of every variant for one direction, in declaration
/// order, with rejected variants skipped where rejection applies.
pub fn map_variant(
    variants: &Vec<VariantDecl>,
    input_attrs: &Vec<Directive>,
    dir: Direction,
    reject_if_present: bool,
) -> (r: Vec<Option<String>>)
    requires
        forall|i: int|
            0 <= i < variants.deep_view().len() ==> variant_names_shaped(
                #[trigger] variants.deep_view()[i],
            ),
    ensures
        r.deep_view().len() == variants.deep_view().len(),
        forall|i: int|
            0 <= i < r.deep_view().len() ==> #[trigger] r.deep_view()[i] == spec_map_variant_entry(
                variants.deep_view(),
                input_attrs.deep_view(),
                dir,
                reject_if_present,
                i,
            ),
{
    let ident_attr: &str = match dir {
        Direction::Input => "rename",
        Direction::Output => "output_name",
    };
    let specific: &str = match dir {
        Direction::Input => "input_casing",
        Direction::Output => "output_casing",
    };
    proof {
        assert(specific@ == direction_directive_name(dir));
    }
    let ghost vv = variants.deep_view();
    let mut r: Vec<Option<String>> = Vec::new();
    let mut i: usize = 0;
    while i < variants.len()
        invariant
            0 <= i <= variants.len(),
            vv == variants.deep_view(),
            vv.len() == variants.len(),
            specific@ == direction_directive_name(dir),
            (match dir {
                Direction::Input => ident_attr@ == "rename"@,
                Direction::Output => ident_attr@ == "output_name"@,
            }),
            forall|j: int| 0 <= j < vv.len() ==> variant_names_shaped(#[trigger] vv[j]),
            r.deep_view().len() == i,
            forall|j: int|
                0 <= j < i ==> #[trigger] r.deep_view()[j] == spec_map_variant_entry(
                    vv,
                    input_attrs.deep_view(),
                    dir,
                    reject_if_present,
                    j,
                ),
        decreases variants.len() - i,
    {
        proof {
            assert(variant_names_shaped(vv[i as int]));
            assert(vv[i as int] == variants@[i as int]@);
        }
        let v = &variants[i];
        let entry: Option<String> = if reject_if_present && crate::naming::should_reject(
            &v.directives,
        ) {
            None
        } else {
            let over = crate::naming::get_name_for(&v.directives, ident_attr);
            let base: String = match over {
                Some(s) => s,
                None => v.identifier.clone(),
            };
            proof {
                assert(base@ == base_name(vv[i as int], dir));
            }
            let t: Transform = resolve_transform(&v.directives, input_attrs, specific);
            let cased = apply_transform(t, base.as_str());
            Some(cased)
        };
        proof {
            assert(entry.deep_view() == spec_map_variant_entry(
                vv,
                input_attrs.deep_view(),
                dir,
                reject_if_present,
                i as int,
            ));
        }
        let ghost prev = r@;
        proof {
            assert(forall|j: int| 0 <= j < i ==> #[trigger] prev[j].deep_view() == r.deep_view()[j]);
        }
        r.push(entry);
        proof {
            assert forall|j: int| 0 <= j < i + 1 implies #[trigger] r.deep_view()[j]
                == spec_map_variant_entry(
                vv,
                input_attrs.deep_view(),
                dir,
                reject_if_present,
                j,
            ) by {
                if j < i {
                    assert(r@[j] == prev[j]);
                    assert(r.deep_view()[j] == prev[j].deep_view());
                } else {
                    assert(r.deep_view()[j] == entry.deep_view());
                }
            }
        }
        i += 1;
    }
    r
}

/// Checks one directive against its scope: recognized directives must
/// carry the right number of arguments, and casing directives must name a
/// transform of the catalogue.
fn check_scope_directive(dv: &Directive, enum_scope: bool) -> (r: Result<(), CodecError>)
    ensures
        r is Ok <==> scope_directive_ok(dv@, enum_scope),
        (match r {
            Ok(_) => directive_err(dv@, enum_scope) is None,
            Err(e) => directive_err(dv@, enum_scope) == Some(e@),
        }),
{
    let is_casing = crate::directive::string_eq_str(&dv.name, "casing")
        || crate::directive::string_eq_str(&dv.name, "input_casing")
        || crate::directive::string_eq_str(&dv.name, "output_casing");
    let n = dv.args.len();
    let bad_arity = (is_casing && n != 1) || (enum_scope && crate::directive::string_eq_str(
        &dv.name,
        "default_variant",
    ) && n != 1) || (enum_scope && crate::directive::string_eq_str(&dv.name, "serialization_hook")
        && n != 0) || (!enum_scope && crate::directive::string_eq_str(&dv.name, "reject") && n != 0)
        || (!enum_scope && (crate::directive::string_eq_str(&dv.name, "alias")
        || crate::directive::string_eq_str(&dv.name, "rename") || crate::directive::string_eq_str(
        &dv.name,
        "output_name",
    )) && n != 1);
    if bad_arity {
        Err(CodecError::WrongArity { directive: dv.name.clone() })
    } else if is_casing && n == 1 {
        match crate::casing::parse_transform(&dv.args[0]) {
            Some(_) => Ok(()),
            None => Err(CodecError::UnknownCasing { name: dv.args[0].clone() }),
        }
    } else {
        Ok(())
    }
}

/// Checks every directive of the declaration against its scope, in
/// declaration order, enumeration scope first.
fn validate_directives(decl: &EnumDecl) -> (r: Result<(), CodecError>)
    ensures
        r is Ok <==> decl_directives_ok(decl@),
        (match r {
            Ok(_) => spec_validate_err(decl@) is None,
            Err(e) => spec_validate_err(decl@) == Some(e@) && build_error_witnessed(decl@, e@),
        }),
{
    let ghost dv = decl@;
    proof {
        assert(dv.directives.skip(0) =~= dv.directives);
    }
    let mut k: usize = 0;
    while k < decl.directives.len()
        invariant
            dv == decl@,
            0 <= k <= decl.directives.len(),
            dv.directives.len() == decl.directives.len(),
            forall|j: int| 0 <= j < k ==> scope_directive_ok(#[trigger] dv.directives[j], true),
            first_directive_err(dv.directives, true) == first_directive_err(
                dv.directives.skip(k as int),
                true,
            ),
        decreases decl.directives.len() - k,
    {
        proof {
            assert(dv.directives[k as int] == decl.directives@[k as int]@);
            assert(dv.directives.skip(k as int)[0] == dv.directives[k as int]);
            assert(dv.directives.skip(k as int).drop_first() =~= dv.directives.skip(k as int + 1));
        }
        match check_scope_directive(&decl.directives[k], true) {
            Ok(_) => {},
            Err(e) => {
                return Err(e);
            },
        }
        k += 1;
    }
    proof {
        assert(dv.directives.skip(k as int) =~= Seq::<DirectiveView>::empty());
        assert(dv.variants.skip(0) =~= dv.variants);
    }
    let mut i: usize = 0;
    while i < decl.variants.len()
        invariant
            dv == decl@,
            0 <= i <= decl.variants.len(),
            dv.variants.len() == decl.variants.len(),
            forall|j: int|
                0 <= j < dv.directives.len() ==> scope_directive_ok(
                    #[trigger] dv.directives[j],
                    true,
                ),
            first_directive_err(dv.directives, true) is None,
            forall|j: int, l: int|
                0 <= j < i && 0 <= l < dv.variants[j].directives.len() ==> scope_directive_ok(
                    #[trigger] dv.variants[j].directives[l],
                    false,
                ),
            first_variant_directive_err(dv.variants) == first_variant_directive_err(
                dv.variants.skip(i as int),
            ),
        decreases decl.variants.len() - i,
    {
        proof {
            assert(dv.variants[i as int] == decl.variants@[i as int]@);
            assert(dv.variants.skip(i as int)[0] == dv.variants[i as int]);
            assert(dv.variants.skip(i as int).drop_first() =~= dv.variants.skip(i as int + 1));
        }
        let vd = &decl.variants[i];
        proof {
            assert(vd@.directives.skip(0) =~= vd@.directives);
        }
        let mut l: usize = 0;
        while l < vd.directives.len()
            invariant
                dv == decl@,
                0 <= i < dv.variants.len(),
                dv.variants[i as int] == vd@,
                dv.variants.skip(i as int)[0] == dv.variants[i as int],
                first_directive_err(dv.directives, true) is None,
                first_variant_directive_err(dv.variants) == first_variant_directive_err(
                    dv.variants.skip(i as int),
                ),
                0 <= l <= vd.directives.len(),
                vd@.directives.len() == vd.directives.len(),
                forall|j: int|
                    0 <= j < l ==> scope_directive_ok(#[trigger] vd@.directives[j], false),
                first_directive_err(vd@.directives, false) == first_directive_err(
                    vd@.directives.skip(l as int),
                    false,
                ),
            decreases vd.directives.len() - l,
        {
            proof {
                assert(vd@.directives[l as int] == vd.directives@[l as int]@);
                assert(vd@.directives.skip(l as int)[0] == vd@.directives[l as int]);
                assert(vd@.directives.skip(l as int).drop_first() =~= vd@.directives.skip(
                    l as int + 1,
                ));
            }
            match check_scope_directive(&vd.directives[l], false) {
                Ok(_) => {},
                Err(e) => {
                    proof {
                        assert(first_directive_err(vd@.directives, false) == Some(e@));
                        assert(first_variant_directive_err(dv.variants.skip(i as int)) == Some(
                            e@,
                        ));
                    }
                    return Err(e);
                },
            }
            l += 1;
        }
        proof {
            assert(vd@.directives.skip(l as int) =~= Seq::<DirectiveView>::empty());
            assert(first_directive_err(dv.variants.skip(i as int)[0].directives, false) is None);
        }
        i += 1;
    }
    proof {
        assert(dv.variants.skip(i as int) =~= Seq::<VariantDeclView>::empty());
    }
    Ok(())
}

/// Skipping identifiers that do not match leaves the found position,
/// shifted by the skipped count.
proof fn lemma_index_of_variant_skip(vs: Seq<VariantDeclView>, name: Seq<char>, k: int)
    requires
        0 <= k <= vs.len(),
        forall|j: int| 0 <= j < k ==> (#[trigger] vs[j]).identifier != name,
    ensures
        index_of_variant(vs, name) == match index_of_variant(vs.skip(k), name) {
            Some(i) => Some(i + k),
            None => None::<int>,
        },
    decreases k,
{
    if k > 0 {
        assert(vs.drop_first() =~= vs.skip(1));
        lemma_index_of_variant_skip(vs.skip(1), name, k - 1);
        assert(vs.skip(1).skip(k - 1) =~= vs.skip(k));
    } else {
        assert(vs.skip(0) =~= vs);
    }
}

/// The position of the first variant with the given identifier, searched
/// in declaration order.
fn find_variant_index(variants: &Vec<VariantDecl>, name: &String) -> (r: Option<usize>)
    ensures
        match r {
            Some(i) => index_of_variant(variants.deep_view(), name@) == Some(i as int),
            None => index_of_variant(variants.deep_view(), name@) is None,
        },
{
    let ghost vv = variants.deep_view();
    let mut i: usize = 0;
    while i < variants.len()
        invariant
            0 <= i <= variants.len(),
            vv == variants.deep_view(),
            vv.len() == variants.len(),
            forall|j: int| 0 <= j < i ==> (#[trigger] vv[j]).identifier != name@,
        decreases variants.len() - i,
    {
        proof {
            assert(vv[i as int] == variants@[i as int]@);
        }
        if crate::directive::string_eq(&variants[i].identifier, name) {
            proof {
                lemma_index_of_variant_skip(vv, name@, i as int);
                assert(vv.skip(i as int)[0] == vv[i as int]);
            }
            return Some(i);
        }
        i += 1;
    }
    proof {
        lemma_index_of_variant_skip(vv, name@, i as int);
    }
    None
}

/// Appends one decode row.
fn push_entry(table: &mut Vec<DecodeEntry>, key: &String, variant: usize)
    ensures
        final(table).deep_view() == old(table).deep_view().push(
            DecodeEntryView { key: key@, variant: variant as int },
        ),
{
    let ghost prev = table@;
    table.push(DecodeEntry { key: key.clone(), variant });
    proof {
        assert forall|j: int| 0 <= j < prev.len() implies table.deep_view()[j]
            == prev[j].deep_view() by {
            assert(table@[j] == prev[j]);
        }
        assert(table.deep_view() =~= Seq::new(prev.len(), |j: int| prev[j].deep_view()).push(
            DecodeEntryView { key: key@, variant: variant as int },
        ));
    }
}

/// A validated declaration leaves every name-carrying directive readable:
/// wherever `default_variant`, `rename`, `output_name` or `alias` takes
/// effect, it has exactly one argument.
proof fn lemma_validated_shapes(d: EnumDeclView)
    requires
        decl_directives_ok(d),
    ensures
        unary_shaped(d.directives, "default_variant"@),
        forall|i: int|
            0 <= i < d.variants.len() ==> variant_names_shaped(#[trigger] d.variants[i]),
        forall|i: int|
            0 <= i < d.variants.len() ==> unary_shaped(
                (#[trigger] d.variants[i]).directives,
                "alias"@,
            ),
{
    if find_directive(d.directives, "default_variant"@) is Some {
        let k = crate::directive::lemma_find_directive_witness(d.directives, "default_variant"@);
        assert(scope_directive_ok(d.directives[k], true));
    }
    assert forall|i: int| 0 <= i < d.variants.len() implies variant_names_shaped(
        #[trigger] d.variants[i],
    ) && unary_shaped(d.variants[i].directives, "alias"@) by {
        let ds = d.variants[i].directives;
        if find_directive(ds, "rename"@) is Some {
            let k = crate::directive::lemma_find_directive_witness(ds, "rename"@);
            assert(scope_directive_ok(ds[k], false));
        }
        if find_directive(ds, "output_name"@) is Some {
            let k = crate::directive::lemma_find_directive_witness(ds, "output_name"@);
            assert(scope_directive_ok(ds[k], false));
        }
        if find_directive(ds, "alias"@) is Some {
            let k = crate::directive::lemma_find_directive_witness(ds, "alias"@);
            assert(scope_directive_ok(ds[k], false));
        }
    }
}

/// Searches the decode rows for two that share a key but name different
/// variants, and hands the shared key back.
fn find_collision(entries: &Vec<DecodeEntry>) -> (r: Option<String>)
    ensures
        match r {
            Some(key) => exists|p: int, q: int|
                0 <= p < q < entries.deep_view().len() && (#[trigger] entries.deep_view()[p]).key
                    == (#[trigger] entries.deep_view()[q]).key && entries.deep_view()[p].variant
                    != entries.deep_view()[q].variant && entries.deep_view()[p].key == key@,
            None => forall|p: int, q: int|
                0 <= p < q < entries.deep_view().len() ==> entries_compatible(
                    #[trigger] entries.deep_view()[p],
                    #[trigger] entries.deep_view()[q],
                ),
        },
        ({
            let m = first_conflict_row(entries.deep_view(), 0);
            match r {
                Some(key) => m is Some && key@ == entries.deep_view()[(m->0).0].key,
                None => m is None,
            }
        }),
{
    let ghost ev = entries.deep_view();
    let mut q: usize = 0;
    while q < entries.len()
        invariant
            ev == entries.deep_view(),
            ev.len() == entries.len(),
            0 <= q <= entries.len(),
            forall|a: int, b: int|
                0 <= a < b < q ==> entries_compatible(#[trigger] ev[a], #[trigger] ev[b]),
            first_conflict_row(ev, 0) == first_conflict_row(ev, q as int),
        decreases entries.len() - q,
    {
        let mut p: usize = 0;
        while p < q
            invariant
                ev == entries.deep_view(),
                ev.len() == entries.len(),
                0 <= p <= q < entries.len(),
                forall|a: int, b: int|
                    0 <= a < b < q ==> entries_compatible(#[trigger] ev[a], #[trigger] ev[b]),
                first_conflict_row(ev, 0) == first_conflict_row(ev, q as int),
                forall|a: int| 0 <= a < p ==> entries_compatible(#[trigger] ev[a], ev[q as int]),
                first_conflict_with(ev, q as int, 0) == first_conflict_with(
                    ev,
                    q as int,
                    p as int,
                ),
            decreases q - p,
        {
            proof {
                assert(ev[p as int] == entries@[p as int]@);
                assert(ev[q as int] == entries@[q as int]@);
            }
            if crate::directive::string_eq(&entries[p].key, &entries[q].key) {
                if entries[p].variant != entries[q].variant {
                    proof {
                        assert(first_conflict_with(ev, q as int, p as int) == Some(p as int));
                        assert(first_conflict_row(ev, q as int) == Some((p as int, q as int)));
                    }
                    return Some(entries[p].key.clone());
                }
            }
            p += 1;
        }
        proof {
            assert(first_conflict_with(ev, q as int, q as int) is None);
        }
        q += 1;
    }
    None
}

/// Appends one encode string.
fn push_string(table: &mut Vec<String>, s: &String)
    ensures
        final(table).deep_view() == old(table).deep_view().push(s@),
{
    let ghost prev = table@;
    table.push(s.clone());
    proof {
        assert forall|j: int| 0 <= j < prev.len() implies table.deep_view()[j]
            == prev[j].deep_view() by {
            assert(table@[j] == prev[j]);
        }
        assert(table.deep_view() =~= Seq::new(prev.len(), |j: int| prev[j].deep_view()).push(s@));
    }
}

/// Whether every declared variant is payload-free.
fn check_payload_free(variants: &Vec<VariantDecl>) -> (r: bool)
    ensures
        r == forall|i: int|
            0 <= i < variants.deep_view().len() ==> !(#[trigger] variants.deep_view()[i]).has_payload,
{
    let ghost vv = variants.deep_view();
    let mut i: usize = 0;
    while i < variants.len()
        invariant
            vv == variants.deep_view(),
            vv.len() == variants.len(),
            0 <= i <= variants.len(),
            forall|j: int| 0 <= j < i ==> !(#[trigger] vv[j]).has_payload,
        decreases variants.len() - i,
    {
        proof {
            assert(vv[i as int] == variants@[i as int]@);
        }
        if variants[i].has_payload {
            return false;
        }
        i += 1;
    }
    true
}

/// Builds the codec the declaration calls for, or reports the first
/// inconsistency of the declared configuration: directives are checked
/// first, then the default variant is resolved, then the decode table is
/// assembled and held to be collision-free.
pub fn build_codec(decl: &EnumDecl) -> (r: Result<Codec, CodecError>)
    ensures
        r is Ok <==> spec_build_ok(decl@),
        (match r {
            Ok(c) => c.wf() && codec_models(c@, decl@) && spec_build_err(decl@) is None,
            Err(e) => spec_build_err(decl@) == Some(e@) && build_error_witnessed(decl@, e@),
        }),
{
    let ghost dv = decl@;
    match validate_directives(decl) {
        Ok(_) => {},
        Err(e) => {
            return Err(e);
        },
    }
    proof {
        lemma_validated_shapes(dv);
    }
    let default_variant: Option<usize> = match get_default_variant(&decl.directives) {
        Some(name) => match find_variant_index(&decl.variants, &name) {
            Some(i) => Some(i),
            None => {
                return Err(CodecError::UnknownDefaultVariant { name });
            },
        },
        None => None,
    };
    let encodes = map_variant(&decl.variants, &decl.directives, Direction::Output, false);
    let mut encode_table: Vec<String> = Vec::new();
    let mut i: usize = 0;
    while i < decl.variants.len()
        invariant
            dv == decl@,
            dv.variants.len() == decl.variants.len(),
            encodes.deep_view().len() == dv.variants.len(),
            forall|j: int|
                0 <= j < encodes.deep_view().len() ==> #[trigger] encodes.deep_view()[j]
                    == spec_map_variant_entry(
                    dv.variants,
                    dv.directives,
                    Direction::Output,
                    false,
                    j,
                ),
            0 <= i <= decl.variants.len(),
            encode_table.deep_view().len() == i,
            forall|j: int|
                0 <= j < i ==> #[trigger] encode_table.deep_view()[j] == encode_string(dv, j),
        decreases decl.variants.len() - i,
    {
        proof {
            assert(encodes.deep_view()[i as int] == encodes@[i as int].deep_view());
        }
        match &encodes[i] {
            Some(s) => {
                push_string(&mut encode_table, s);
            },
            None => {},
        }
        i += 1;
    }
    let primaries = map_variant(&decl.variants, &decl.directives, Direction::Input, true);
    let aliases = crate::naming::create_alias_arms(&decl.variants);
    let mut decode_table: Vec<DecodeEntry> = Vec::new();
    let mut i2: usize = 0;
    while i2 < decl.variants.len()
        invariant
            dv == decl@,
            dv.variants.len() == decl.variants.len(),
            primaries.deep_view().len() == dv.variants.len(),
            forall|j: int|
                0 <= j < primaries.deep_view().len() ==> #[trigger] primaries.deep_view()[j]
                    == spec_map_variant_entry(
                    dv.variants,
                    dv.directives,
                    Direction::Input,
                    true,
                    j,
                ),
            aliases.deep_view().len() == dv.variants.len(),
            forall|j: int|
                0 <= j < aliases.deep_view().len() ==> #[trigger] aliases.deep_view()[j]
                    == alias_of_directives(dv.variants[j].directives),
            0 <= i2 <= decl.variants.len(),
            decode_table.deep_view() == entries_upto(dv, i2 as int),
        decreases decl.variants.len() - i2,
    {
        proof {
            assert(primaries.deep_view()[i2 as int] == primaries@[i2 as int].deep_view());
            assert(aliases.deep_view()[i2 as int] == aliases@[i2 as int].deep_view());
            assert(entries_upto(dv, i2 + 1) == entries_upto(dv, i2 as int) + variant_entries(
                dv,
                i2 as int,
            ));
        }
        match &primaries[i2] {
            Some(key) => {
                push_entry(&mut decode_table, key, i2);
                match &aliases[i2] {
                    Some(a) => {
                        push_entry(&mut decode_table, a, i2);
                    },
                    None => {},
                }
            },
            None => {},
        }
        proof {
            assert(decode_table.deep_view() =~= entries_upto(dv, i2 + 1));
        }
        i2 += 1;
    }
    proof {
        assert(decode_table.deep_view() == decode_entries(dv));
    }
    match find_collision(&decode_table) {
        Some(key) => {
            return Err(CodecError::DecodeCollision { key });
        },
        None => {},
    }
    let enumerable = check_payload_free(&decl.variants);
    let hook = crate::directive::has_directive_in(&decl.directives, "serialization_hook");
    let n = decl.variants.len();
    let c = Codec {
        enum_name: decl.name.clone(),
        n_variants: n,
        encode_table,
        decode_table,
        default_variant,
        serialization_hook: hook,
        enumerable,
    };
    proof {
        lemma_entries_upto_variant_bounds(dv, dv.variants.len() as int);
        if default_variant is Some {
            lemma_index_of_variant_found(dv.variants, default_variant_name(dv.directives)->0);
        }
        assert(c.wf());
        assert(codec_models(c@, dv));
    }
    Ok(c)
}

/// The variant the first matching decode row names, if any.
pub open spec fn lookup_entries(es: Seq<DecodeEntryView>, s: Seq<char>) -> Option<int>
    decreases es.len(),
{
    if es.len() == 0 {
        None
    } else if es[0].key == s {
        Some(es[0].variant)
    } else {
        lookup_entries(es.drop_first(), s)
    }
}

/// If the first `k` decode rows do not match, the lookup may start after
/// them.
proof fn lemma_lookup_entries_skip(es: Seq<DecodeEntryView>, s: Seq<char>, k: int)
    requires
        0 <= k <= es.len(),
        forall|j: int| 0 <= j < k ==> (#[trigger] es[j]).key != s,
    ensures
        lookup_entries(es, s) == lookup_entries(es.skip(k), s),
    decreases k,
{
    if k > 0 {
        assert(es.drop_first() =~= es.skip(1));
        lemma_lookup_entries_skip(es.skip(1), s, k - 1);
        assert(es.skip(1).skip(k - 1) =~= es.skip(k));
    } else {
        assert(es.skip(0) =~= es);
    }
}

/// What decoding yields: the variant of the matching decode row, else the
/// default variant if one is configured, else a failure carrying the
/// input and the enumeration's name.
pub open spec fn spec_decode(c: CodecView, s: Seq<char>) -> Result<int, DecodeErrorView> {
    match lookup_entries(c.decode_table, s) {
        Some(i) => Ok(i),
        None => spec_fromstr_failure(c.enum_name, c.default_variant, s),
    }
}

impl Codec {
    /// Decodes a string by exact match against the decode table.  On no
    /// match the configured default variant is returned as a success;
    /// without one the failure carries the input and the enumeration's
    /// name.
    pub fn decode(&self, input: &str) -> (r: Result<usize, DecodeError>)
        requires
            self.wf(),
        ensures
            ({
                let m = spec_decode(self@, input@);
                match r {
                    Ok(i) => m == Ok::<int, DecodeErrorView>(i as int) && (i as int)
                        < self@.n_variants,
                    Err(e) => m == Err::<int, DecodeErrorView>(e@),
                }
            }),
    {
        let ghost ev = self@.decode_table;
        let mut k: usize = 0;
        while k < self.decode_table.len()
            invariant
                self.wf(),
                ev == self@.decode_table,
                ev.len() == self.decode_table.len(),
                0 <= k <= self.decode_table.len(),
                forall|j: int| 0 <= j < k ==> (#[trigger] ev[j]).key != input@,
            decreases self.decode_table.len() - k,
        {
            proof {
                assert(ev[k as int] == self.decode_table@[k as int]@);
            }
            if crate::directive::string_eq_str(&self.decode_table[k].key, input) {
                proof {
                    lemma_lookup_entries_skip(ev, input@, k as int);
                    assert(ev.skip(k as int)[0] == ev[k as int]);
                    assert(0 <= (self@.decode_table[k as int]).variant < self@.n_variants);
                }
                return Ok(self.decode_table[k].variant);
            }
            k += 1;
        }
        proof {
            lemma_lookup_entries_skip(ev, input@, k as int);
        }
        crate::defaults::fromstr_failure(&self.enum_name, self.default_variant, input)
    }

    /// Encodes a variant: a total table lookup with no failure path.
    pub fn encode(&self, variant: usize) -> (r: String)
        requires
            self.wf(),
            (variant as int) < self@.n_variants,
        ensures
            r@ == self@.encode_table[variant as int],
    {
        proof {
            assert(self@.encode_table[variant as int] == self.encode_table@[variant as int]@);
        }
        self.encode_table[variant].clone()
    }

    /// The ordered list of all variants, exposed only for enumerations
    /// whose variants all carry no payload.
    pub fn enumerate(&self) -> (r: Result<Vec<usize>, CodecError>)
        requires
            self.wf(),
        ensures
            self@.enumerable ==> (match r {
                Ok(l) => l@.len() == self@.n_variants && forall|k: int|
                    0 <= k < l@.len() ==> l@[k] == k,
                Err(_) => false,
            }),
            !self@.enumerable ==> (match r {
                Ok(_) => false,
                Err(e) => e@ == CodecErrorView::NotEnumerable,
            }),
    {
        if self.enumerable {
            let mut l: Vec<usize> = Vec::new();
            let mut k: usize = 0;
            while k < self.n_variants
                invariant
                    0 <= k <= self.n_variants,
                    l@.len() == k,
                    forall|j: int| 0 <= j < k ==> l@[j] == j,
                decreases self.n_variants - k,
            {
                l.push(k);
                k += 1;
            }
            Ok(l)
        } else {
            Err(CodecError::NotEnumerable)
        }
    }

    /// How many variants the enumeration declares.
    pub fn variant_count(&self) -> (r: usize)
        ensures
            r as int == self@.n_variants,
    {
        self.n_variants
    }

    /// Whether the codec opted into the external structured-serialization
    /// interface.
    pub fn serialization_hook_enabled(&self) -> (r: bool)
        ensures
            r == self@.serialization_hook,
    {
        self.serialization_hook
    }

    /// A copy of the enumeration's name.
    pub fn enum_name_string(&self) -> (r: String)
        ensures
            r@ == self@.enum_name,
    {
        self.enum_name.clone()
    }
}

/// A run-time instance of a variant: its declared position, and whatever
/// opaque payload the variant case carries.
pub struct VariantValue {
    pub tag: usize,
    pub payload: Vec<u8>,
}

/// Equality of variant instances for codec purposes: variant identity
/// alone, never the payload.
pub open spec fn spec_variant_eq(a: VariantValue, b: VariantValue) -> bool {
    a.tag == b.tag
}

/// Whether two variant instances are the same variant.  Two values of the
/// same variant compare equal even if their payloads differ.
pub fn variant_eq(a: &VariantValue, b: &VariantValue) -> (r: bool)
    ensures
        r == spec_variant_eq(*a, *b),
{
    a.tag == b.tag
}

} // verus!
