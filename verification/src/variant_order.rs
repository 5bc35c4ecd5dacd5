//! The order of enum variant keys, (name, tag), and the ordered-map
//! operations that enum layouts use to keep their variants sorted.

use vstd::prelude::*;
use crate::annotated_value::VariantV;

verus! {

/// Lexicographic order on byte strings.
pub open spec fn bytes_lt(a: Seq<u8>, b: Seq<u8>) -> bool
    decreases a.len(),
{
    if a.len() == 0 {
        b.len() > 0
    } else if b.len() == 0 {
        false
    } else if a[0] < b[0] {
        true
    } else if a[0] > b[0] {
        false
    } else {
        bytes_lt(a.drop_first(), b.drop_first())
    }
}

/// Order on variant keys: by name, then by tag.
pub open spec fn key_lt(n1: Seq<u8>, t1: u16, n2: Seq<u8>, t2: u16) -> bool {
    bytes_lt(n1, n2) || (n1 == n2 && t1 < t2)
}

/// Order on variants by key.
pub open spec fn variant_lt(a: VariantV, b: VariantV) -> bool {
    key_lt(a.name, a.tag, b.name, b.tag)
}

/// Whether the variants are in strictly increasing key order.
pub open spec fn variants_sorted(vs: Seq<VariantV>) -> bool {
    forall|i: int, j: int| 0 <= i < j < vs.len() ==> variant_lt(#[trigger] vs[i], #[trigger] vs[j])
}


// ---------------------------------------------------------------------------
// Properties of the order
// ---------------------------------------------------------------------------

/// No byte string is below itself.
pub proof fn lemma_bytes_lt_irreflexive(a: Seq<u8>)
    ensures
        !bytes_lt(a, a),
    decreases a.len(),
{
    if a.len() > 0 {
        lemma_bytes_lt_irreflexive(a.drop_first());
    }
}

/// Two byte strings are not each below the other.
pub proof fn lemma_bytes_lt_asymmetric(a: Seq<u8>, b: Seq<u8>)
    ensures
        bytes_lt(a, b) ==> !bytes_lt(b, a),
    decreases a.len(),
{
    if a.len() > 0 && b.len() > 0 && a[0] == b[0] {
        lemma_bytes_lt_asymmetric(a.drop_first(), b.drop_first());
    }
}

/// The byte order is transitive.
pub proof fn lemma_bytes_lt_transitive(a: Seq<u8>, b: Seq<u8>, c: Seq<u8>)
    ensures
        bytes_lt(a, b) && bytes_lt(b, c) ==> bytes_lt(a, c),
    decreases a.len(),
{
    if a.len() > 0 && b.len() > 0 && c.len() > 0 {
        lemma_bytes_lt_transitive(a.drop_first(), b.drop_first(), c.drop_first());
    }
}

/// Two different byte strings are ordered one way or the other.
pub proof fn lemma_bytes_lt_total(a: Seq<u8>, b: Seq<u8>)
    ensures
        a != b ==> bytes_lt(a, b) || bytes_lt(b, a),
    decreases a.len(),
{
    if a.len() > 0 && b.len() > 0 && a[0] == b[0] {
        lemma_bytes_lt_total(a.drop_first(), b.drop_first());
        if a.drop_first() == b.drop_first() {
            assert(a =~= seq![a[0]] + a.drop_first());
            assert(b =~= seq![b[0]] + b.drop_first());
        }
    } else if a.len() == 0 && b.len() == 0 {
        assert(a =~= b);
    }
}

/// `variant_lt` is a strict total order on keys.
pub proof fn lemma_variant_order(a: VariantV, b: VariantV, c: VariantV)
    ensures
        !variant_lt(a, a),
        variant_lt(a, b) ==> !variant_lt(b, a),
        variant_lt(a, b) && variant_lt(b, c) ==> variant_lt(a, c),
        !variant_lt(a, b) && !variant_lt(b, a) ==> a.name == b.name && a.tag == b.tag,
        a.name == b.name && a.tag == b.tag ==> (variant_lt(a, c) == variant_lt(b, c)) && (
        variant_lt(c, a) == variant_lt(c, b)),
{
    lemma_bytes_lt_irreflexive(a.name);
    lemma_bytes_lt_asymmetric(a.name, b.name);
    lemma_bytes_lt_transitive(a.name, b.name, c.name);
    lemma_bytes_lt_total(a.name, b.name);
    lemma_bytes_lt_irreflexive(b.name);
}

// ---------------------------------------------------------------------------
// Ordered insertion
// ---------------------------------------------------------------------------

/// The number of leading variants whose key is below `v`'s.
pub open spec fn lower_bound(vs: Seq<VariantV>, v: VariantV) -> nat
    decreases vs.len(),
{
    if vs.len() == 0 {
        0
    } else if variant_lt(vs[0], v) {
        1 + lower_bound(vs.drop_first(), v)
    } else {
        0
    }
}

/// Insert `v` into the ordered variants `vs`: a variant with the same key is
/// replaced, otherwise `v` goes before the first variant with a greater key.
pub open spec fn insert_variant(vs: Seq<VariantV>, v: VariantV) -> Seq<VariantV> {
    let j = lower_bound(vs, v) as int;
    if j < vs.len() && vs[j].name == v.name && vs[j].tag == v.tag {
        vs.update(j, v)
    } else {
        vs.insert(j, v)
    }
}

/// The ordered variants obtained by inserting `vs` one after the other into
/// an empty collection, as collecting into an ordered map does.
pub open spec fn from_variants(vs: Seq<VariantV>) -> Seq<VariantV>
    decreases vs.len(),
{
    if vs.len() == 0 {
        Seq::empty()
    } else {
        insert_variant(from_variants(vs.drop_last()), vs.last())
    }
}

/// Everything before the lower bound is below `v`, and the entry at the
/// lower bound is not.
pub proof fn lemma_lower_bound(vs: Seq<VariantV>, v: VariantV)
    ensures
        lower_bound(vs, v) <= vs.len(),
        forall|k: int| 0 <= k < lower_bound(vs, v) ==> variant_lt(#[trigger] vs[k], v),
        lower_bound(vs, v) < vs.len() ==> !variant_lt(vs[lower_bound(vs, v) as int], v),
    decreases vs.len(),
{
    if vs.len() > 0 && variant_lt(vs[0], v) {
        lemma_lower_bound(vs.drop_first(), v);
        assert forall|k: int| 0 <= k < lower_bound(vs, v) implies variant_lt(#[trigger] vs[k], v) by {
            if k > 0 {
                assert(vs[k] == vs.drop_first()[k - 1]);
            }
        }
    }
}

/// The index that a scan stops at is the lower bound.
pub proof fn lemma_lower_bound_at(vs: Seq<VariantV>, v: VariantV, j: int)
    requires
        0 <= j <= vs.len(),
        forall|k: int| 0 <= k < j ==> variant_lt(#[trigger] vs[k], v),
        j < vs.len() ==> !variant_lt(vs[j], v),
    ensures
        lower_bound(vs, v) == j,
    decreases vs.len(),
{
    if vs.len() > 0 && j > 0 {
        assert(variant_lt(vs[0], v));
        assert forall|k: int| 0 <= k < j - 1 implies variant_lt(#[trigger] vs.drop_first()[k], v) by {
            assert(vs.drop_first()[k] == vs[k + 1]);
        }
        lemma_lower_bound_at(vs.drop_first(), v, j - 1);
    }
}

/// Inserting keeps the variants ordered.
pub proof fn lemma_insert_variant_sorted(vs: Seq<VariantV>, v: VariantV)
    requires
        variants_sorted(vs),
    ensures
        variants_sorted(insert_variant(vs, v)),
{
    lemma_lower_bound(vs, v);
    let j = lower_bound(vs, v) as int;
    let r = insert_variant(vs, v);
    if j < vs.len() && vs[j].name == v.name && vs[j].tag == v.tag {
        assert forall|a: int, b: int| 0 <= a < b < r.len() implies variant_lt(#[trigger] r[a], #[trigger] r[b]) by {
            lemma_variant_order(vs[j], v, vs[b]);
            lemma_variant_order(vs[j], v, vs[a]);
            if b == j {
                assert(variant_lt(vs[a], v));
            } else if a == j {
                assert(variant_lt(vs[j], vs[b]));
            } else {
                assert(variant_lt(vs[a], vs[b]));
            }
        }
    } else {
        if j < vs.len() {
            lemma_variant_order(vs[j], v, vs[j]);
            assert(variant_lt(v, vs[j]));
        }
        assert forall|a: int, b: int| 0 <= a < b < r.len() implies variant_lt(#[trigger] r[a], #[trigger] r[b]) by {
            if a < j && b == j {
                assert(variant_lt(vs[a], v));
            } else if a < j && b > j {
                assert(r[b] == vs[b - 1]);
                assert(variant_lt(vs[a], vs[b - 1]));
            } else if a == j {
                assert(r[b] == vs[b - 1]);
                if b - 1 > j {
                    assert(variant_lt(vs[j], vs[b - 1]));
                    lemma_variant_order(v, vs[j], vs[b - 1]);
                }
            } else if a > j {
                assert(r[a] == vs[a - 1] && r[b] == vs[b - 1]);
            } else {
                assert(variant_lt(vs[a], vs[b]));
            }
        }
    }
}

/// Collecting variants yields ordered variants.
pub proof fn lemma_from_variants_sorted(vs: Seq<VariantV>)
    ensures
        variants_sorted(from_variants(vs)),
    decreases vs.len(),
{
    if vs.len() > 0 {
        lemma_from_variants_sorted(vs.drop_last());
        lemma_insert_variant_sorted(from_variants(vs.drop_last()), vs.last());
    }
}

/// Collecting variants that are already ordered gives them back unchanged.
pub proof fn lemma_from_variants_of_sorted(vs: Seq<VariantV>)
    requires
        variants_sorted(vs),
    ensures
        from_variants(vs) == vs,
    decreases vs.len(),
{
    if vs.len() > 0 {
        let p = vs.drop_last();
        assert(variants_sorted(p)) by {
            assert forall|a: int, b: int| 0 <= a < b < p.len() implies variant_lt(#[trigger] p[a], #[trigger] p[b]) by {
                assert(p[a] == vs[a] && p[b] == vs[b]);
            }
        }
        lemma_from_variants_of_sorted(p);
        assert forall|k: int| 0 <= k < p.len() implies variant_lt(#[trigger] p[k], vs.last()) by {
            assert(p[k] == vs[k]);
        }
        lemma_lower_bound_at(p, vs.last(), p.len() as int);
        assert(p.insert(p.len() as int, vs.last()) =~= vs);
    }
}


/// Whether `a` comes before `b` in lexicographic byte order.
pub fn bytes_less(a: &[u8], b: &[u8]) -> (r: bool)
    ensures
        r == bytes_lt(a@, b@),
{
    let mut i: usize = 0;
    assert(a@.skip(0) =~= a@);
    assert(b@.skip(0) =~= b@);
    while i < a.len() && i < b.len()
        invariant
            i <= a@.len(),
            i <= b@.len(),
            bytes_lt(a@, b@) == bytes_lt(a@.skip(i as int), b@.skip(i as int)),
        decreases a@.len() - i,
    {
        if a[i] < b[i] {
            return true;
        }
        if a[i] > b[i] {
            return false;
        }
        assert(a@.skip(i as int).drop_first() =~= a@.skip(i + 1));
        assert(b@.skip(i as int).drop_first() =~= b@.skip(i + 1));
        i = i + 1;
    }
    i == a.len() && i < b.len()
}

} // verus!
