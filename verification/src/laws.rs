//! The laws a built codec obeys, stated over the declaration model and
//! proved once for every declaration.

use vstd::prelude::*;

use crate::casing::resolved_transform;
use crate::codec::{
    codec_models, collision_free, decode_entries, decode_key, encode_base_name, encode_string,
    entries_compatible, entries_upto, lookup_entries, spec_build_ok, spec_decode, spec_variant_eq,
    v_rejected, CodecView, DecodeEntryView, VariantValue,
};
use crate::decl::EnumDeclView;
use crate::errors::DecodeErrorView;
use crate::naming::alias_of_directives;

verus! {

/// A lookup that finds nothing has no matching row, and conversely.
proof fn lemma_lookup_none_iff(es: Seq<DecodeEntryView>, s: Seq<char>)
    ensures
        (lookup_entries(es, s) is None) <==> (forall|k: int|
            0 <= k < es.len() ==> (#[trigger] es[k]).key != s),
    decreases es.len(),
{
    if es.len() > 0 && es[0].key != s {
        lemma_lookup_none_iff(es.drop_first(), s);
        let tail = es.drop_first();
        if lookup_entries(es, s) is None {
            assert forall|k: int| 0 <= k < es.len() implies (#[trigger] es[k]).key != s by {
                if k > 0 {
                    assert(tail[k - 1] == es[k]);
                }
            }
        } else {
            let k0 = choose|k: int| 0 <= k < tail.len() && (#[trigger] tail[k]).key == s;
            assert(es[k0 + 1] == tail[k0]);
        }
    }
}

/// A lookup that finds a variant found it in some row.
proof fn lemma_lookup_some_witness(es: Seq<DecodeEntryView>, s: Seq<char>) -> (p: int)
    requires
        lookup_entries(es, s) is Some,
    ensures
        0 <= p < es.len(),
        es[p].key == s,
        es[p].variant == lookup_entries(es, s)->0,
    decreases es.len(),
{
    if es[0].key == s {
        0
    } else {
        let p0 = lemma_lookup_some_witness(es.drop_first(), s);
        assert(es.drop_first()[p0] == es[p0 + 1]);
        p0 + 1
    }
}

/// In a table without cross-variant key collisions, the lookup of a key
/// that some row holds yields that row's variant.
proof fn lemma_lookup_finds(es: Seq<DecodeEntryView>, s: Seq<char>, p: int)
    requires
        forall|a: int, b: int|
            0 <= a < b < es.len() ==> entries_compatible(#[trigger] es[a], #[trigger] es[b]),
        0 <= p < es.len(),
        es[p].key == s,
    ensures
        lookup_entries(es, s) == Some(es[p].variant),
    decreases es.len(),
{
    if es[0].key == s {
        if p > 0 {
            assert(entries_compatible(es[0], es[p]));
        }
    } else {
        assert(p > 0);
        let tail = es.drop_first();
        assert forall|a: int, b: int| 0 <= a < b < tail.len() implies entries_compatible(
            #[trigger] tail[a],
            #[trigger] tail[b],
        ) by {
            assert(tail[a] == es[a + 1]);
            assert(tail[b] == es[b + 1]);
        }
        assert(tail[p - 1] == es[p]);
        lemma_lookup_finds(tail, s, p - 1);
    }
}

/// The position of the primary decode row of a non-rejected variant.
proof fn lemma_primary_entry_position(d: EnumDeclView, i: int, n: int) -> (p: int)
    requires
        0 <= i < n,
        !v_rejected(d.variants[i]),
    ensures
        0 <= p < entries_upto(d, n).len(),
        entries_upto(d, n)[p] == (DecodeEntryView { key: decode_key(d, i), variant: i }),
    decreases n,
{
    let prefix = entries_upto(d, n - 1);
    let ve = crate::codec::variant_entries(d, n - 1);
    assert(entries_upto(d, n) == prefix + ve);
    if n - 1 == i {
        assert(ve[0] == (DecodeEntryView { key: decode_key(d, i), variant: i }));
        assert((prefix + ve)[prefix.len() as int] == ve[0]);
        prefix.len() as int
    } else {
        let p0 = lemma_primary_entry_position(d, i, n - 1);
        assert((prefix + ve)[p0] == prefix[p0]);
        p0
    }
}

/// The position of the alias decode row of a non-rejected variant with an
/// alias.
proof fn lemma_alias_entry_position(d: EnumDeclView, i: int, n: int) -> (p: int)
    requires
        0 <= i < n,
        !v_rejected(d.variants[i]),
        alias_of_directives(d.variants[i].directives) is Some,
    ensures
        0 <= p < entries_upto(d, n).len(),
        entries_upto(d, n)[p] == (DecodeEntryView {
            key: alias_of_directives(d.variants[i].directives)->0,
            variant: i,
        }),
    decreases n,
{
    let prefix = entries_upto(d, n - 1);
    let ve = crate::codec::variant_entries(d, n - 1);
    assert(entries_upto(d, n) == prefix + ve);
    if n - 1 == i {
        assert(ve[1] == (DecodeEntryView {
            key: alias_of_directives(d.variants[i].directives)->0,
            variant: i,
        }));
        assert((prefix + ve)[prefix.len() as int + 1] == ve[1]);
        prefix.len() as int + 1
    } else {
        let p0 = lemma_alias_entry_position(d, i, n - 1);
        assert((prefix + ve)[p0] == prefix[p0]);
        p0
    }
}

/// A rejected variant contributes no decode row at all.
proof fn lemma_no_entry_for_rejected(d: EnumDeclView, i: int, n: int)
    requires
        v_rejected(d.variants[i]),
    ensures
        forall|k: int|
            0 <= k < entries_upto(d, n).len() ==> (#[trigger] entries_upto(d, n)[k]).variant != i,
    decreases n,
{
    if n > 0 {
        lemma_no_entry_for_rejected(d, i, n - 1);
        let prefix = entries_upto(d, n - 1);
        let ve = crate::codec::variant_entries(d, n - 1);
        assert(entries_upto(d, n) == prefix + ve);
        assert forall|k: int| 0 <= k < entries_upto(d, n).len() implies (#[trigger] entries_upto(
            d,
            n,
        )[k]).variant != i by {
            if k < prefix.len() {
                assert(entries_upto(d, n)[k] == prefix[k]);
            } else {
                assert(entries_upto(d, n)[k] == ve[k - prefix.len()]);
                assert(ve[k - prefix.len()].variant == n - 1);
            }
        }
    }
}

/// Encode totality: every variant of the enumeration, rejected ones
/// included, has exactly one encode string in a codec built from the
/// declaration; encoding never fails.
pub proof fn lemma_encode_totality(c: CodecView, d: EnumDeclView, i: int)
    requires
        codec_models(c, d),
        0 <= i < d.variants.len(),
    ensures
        c.encode_table.len() == d.variants.len(),
        c.encode_table[i] == encode_string(d, i),
{
}

/// Decode reachability: where a non-rejected variant's encode and decode
/// directions resolve to the same transform and the same base name,
/// decoding its encode string yields the variant back.
pub proof fn lemma_decode_reachability(c: CodecView, d: EnumDeclView, i: int)
    requires
        codec_models(c, d),
        collision_free(d),
        0 <= i < d.variants.len(),
        !v_rejected(d.variants[i]),
        resolved_transform(d.variants[i].directives, d.directives, "output_casing"@)
            == resolved_transform(d.variants[i].directives, d.directives, "input_casing"@),
        encode_base_name(d.variants[i]) == crate::codec::decode_base_name(d.variants[i]),
    ensures
        spec_decode(c, c.encode_table[i]) == Ok::<int, DecodeErrorView>(i),
{
    assert(encode_string(d, i) == decode_key(d, i));
    let p = lemma_primary_entry_position(d, i, d.variants.len() as int);
    lemma_lookup_finds(decode_entries(d), decode_key(d, i), p);
}

/// Rejection exclusivity: a variant marked `reject` is never returned by
/// decoding, for any input, as long as the configured default variant is
/// not that variant itself; encoding it still succeeds.
pub proof fn lemma_rejection_exclusivity(c: CodecView, d: EnumDeclView, i: int, s: Seq<char>)
    requires
        codec_models(c, d),
        0 <= i < d.variants.len(),
        v_rejected(d.variants[i]),
        c.default_variant != Some(i),
    ensures
        spec_decode(c, s) != Ok::<int, DecodeErrorView>(i),
        c.encode_table[i] == encode_string(d, i),
{
    lemma_no_entry_for_rejected(d, i, d.variants.len() as int);
    if lookup_entries(c.decode_table, s) is Some {
        let p = lemma_lookup_some_witness(c.decode_table, s);
    }
}

/// Alias additivity: the alias of a non-rejected variant decodes to the
/// variant in addition to, not instead of, its cased decode string.
pub proof fn lemma_alias_additivity(c: CodecView, d: EnumDeclView, i: int)
    requires
        codec_models(c, d),
        collision_free(d),
        0 <= i < d.variants.len(),
        !v_rejected(d.variants[i]),
        alias_of_directives(d.variants[i].directives) is Some,
    ensures
        spec_decode(c, alias_of_directives(d.variants[i].directives)->0) == Ok::<
            int,
            DecodeErrorView,
        >(i),
        spec_decode(c, decode_key(d, i)) == Ok::<int, DecodeErrorView>(i),
{
    let p = lemma_alias_entry_position(d, i, d.variants.len() as int);
    lemma_lookup_finds(decode_entries(d), alias_of_directives(d.variants[i].directives)->0, p);
    let p2 = lemma_primary_entry_position(d, i, d.variants.len() as int);
    lemma_lookup_finds(decode_entries(d), decode_key(d, i), p2);
}

/// Default fallback: with a default variant configured, decoding never
/// fails, and an input that matches no decode row yields the default
/// variant.
pub proof fn lemma_default_fallback(c: CodecView, s: Seq<char>, dflt: int)
    requires
        c.default_variant == Some(dflt),
    ensures
        spec_decode(c, s) is Ok,
        (forall|k: int| 0 <= k < c.decode_table.len() ==> (#[trigger] c.decode_table[k]).key != s)
            ==> spec_decode(c, s) == Ok::<int, DecodeErrorView>(dflt),
{
    lemma_lookup_none_iff(c.decode_table, s);
}

/// Collision rejection: a declaration whose resolved decode table holds
/// two rows with one key and two variants cannot be built into a codec;
/// construction reports the failure before any lookup is possible.
pub proof fn lemma_collision_rejection(d: EnumDeclView, p: int, q: int)
    requires
        0 <= p < q < decode_entries(d).len(),
        decode_entries(d)[p].key == decode_entries(d)[q].key,
        decode_entries(d)[p].variant != decode_entries(d)[q].variant,
    ensures
        !spec_build_ok(d),
{
    assert(!entries_compatible(decode_entries(d)[p], decode_entries(d)[q]));
}

/// Identity preservation: equality of variant instances is decided by
/// variant identity alone; the payloads play no part in it, so two values
/// of one variant compare equal whatever payloads they carry.
pub proof fn lemma_identity_preservation(a: VariantValue, b: VariantValue)
    ensures
        spec_variant_eq(a, b) <==> a.tag == b.tag,
{
}

} // verus!
