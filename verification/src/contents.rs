//! What a layout tree holds: its field and variant names, its struct tags and
//! its compound subtrees.  These are what interning a tree adds to the tables
//! of a builder.

use vstd::prelude::*;
use crate::language_storage::StructTagV;
use crate::annotated_value::{FieldV, LayoutV, VariantV};

verus! {

/// Names, struct tags and compound trees, as sets.
#[verifier::ext_equal]
pub struct Contents {
    pub names: Set<Seq<u8>>,
    pub tags: Set<StructTagV>,
    pub trees: Set<LayoutV>,
}

/// Nothing at all.
pub open spec fn no_contents() -> Contents {
    Contents { names: Set::empty(), tags: Set::empty(), trees: Set::empty() }
}

/// Everything that `a` or `b` holds.
pub open spec fn join(a: Contents, b: Contents) -> Contents {
    Contents { names: a.names + b.names, tags: a.tags + b.tags, trees: a.trees + b.trees }
}

/// Whether `a` holds nothing that `b` lacks.
pub open spec fn contents_sub(a: Contents, b: Contents) -> bool {
    &&& a.names.subset_of(b.names)
    &&& a.tags.subset_of(b.tags)
    &&& a.trees.subset_of(b.trees)
}

/// Whether all three sets are finite.
pub open spec fn contents_finite(c: Contents) -> bool {
    c.names.finite() && c.tags.finite() && c.trees.finite()
}

/// Whether the sets fit the capacities of a compressed layout's tables:
/// names and tags are indexed by `u16`, nodes by 15 bits.
pub open spec fn fits(c: Contents) -> bool {
    &&& c.names.len() <= 0x10000
    &&& c.tags.len() <= 0x10000
    &&& c.trees.len() <= 0x8000
}

/// The names of a list of fields.
pub open spec fn field_name_set(fs: Seq<FieldV>) -> Set<Seq<u8>> {
    fs.map_values(|f: FieldV| f.name).to_set()
}

/// The names that a variant brings: its own and those of its known fields.
pub open spec fn variant_v_names(v: VariantV) -> Set<Seq<u8>> {
    set![v.name] + match v.fields {
        Some(fs) => field_name_set(fs),
        None => Set::empty(),
    }
}

/// The names that the first `k` variants bring.
pub open spec fn variant_names_upto(vs: Seq<VariantV>, k: int) -> Set<Seq<u8>>
    decreases k,
{
    if k <= 0 {
        Set::empty()
    } else {
        variant_names_upto(vs, k - 1) + variant_v_names(vs[k - 1])
    }
}

/// What a layout tree holds.  A compound tree holds itself among its trees.
pub open spec fn layout_contents(t: LayoutV) -> Contents
    decreases t, 0int,
{
    match t {
        LayoutV::Vector(e) => {
            let c = layout_contents(*e);
            Contents { names: c.names, tags: c.tags, trees: c.trees.insert(t) }
        },
        LayoutV::Struct(tag, fs) => {
            let c = fields_contents(fs, fs.len() as int);
            Contents { names: c.names + field_name_set(fs), tags: c.tags.insert(tag), trees: c.trees.insert(t) }
        },
        LayoutV::Enum(tag, vs) => {
            let c = variants_contents(vs, vs.len() as int);
            Contents {
                names: c.names + variant_names_upto(vs, vs.len() as int),
                tags: c.tags.insert(tag),
                trees: c.trees.insert(t),
            }
        },
        _ => no_contents(),
    }
}

/// What the layouts of the first `k` fields hold.
pub open spec fn fields_contents(fs: Seq<FieldV>, k: int) -> Contents
    decreases fs, k,
{
    if k <= 0 || k > fs.len() {
        no_contents()
    } else {
        join(fields_contents(fs, k - 1), layout_contents(fs[k - 1].layout))
    }
}

/// What the field layouts of the first `k` variants hold.
pub open spec fn variants_contents(vs: Seq<VariantV>, k: int) -> Contents
    decreases vs, k,
{
    if k <= 0 || k > vs.len() {
        no_contents()
    } else {
        join(
            variants_contents(vs, k - 1),
            match vs[k - 1].fields {
                Some(fs) => fields_contents(fs, fs.len() as int),
                None => no_contents(),
            },
        )
    }
}

proof fn lemma_variant_names_upto_finite(vs: Seq<VariantV>, k: int)
    ensures
        variant_names_upto(vs, k).finite(),
    decreases k,
{
    broadcast use vstd::seq_lib::seq_to_set_is_finite;
    if k > 0 {
        lemma_variant_names_upto_finite(vs, k - 1);
    }
}

/// What a layout tree holds is finite.
pub proof fn lemma_layout_contents_finite(t: LayoutV)
    ensures
        contents_finite(layout_contents(t)),
    decreases t, 0int,
{
    broadcast use vstd::seq_lib::seq_to_set_is_finite;
    match t {
        LayoutV::Vector(e) => lemma_layout_contents_finite(*e),
        LayoutV::Struct(_, fs) => lemma_fields_contents_finite(fs, fs.len() as int),
        LayoutV::Enum(_, vs) => {
            lemma_variants_contents_finite(vs, vs.len() as int);
            lemma_variant_names_upto_finite(vs, vs.len() as int);
        },
        _ => {},
    }
}

/// What the layouts of the first `k` fields hold is finite.
pub proof fn lemma_fields_contents_finite(fs: Seq<FieldV>, k: int)
    ensures
        contents_finite(fields_contents(fs, k)),
    decreases fs, k,
{
    if 0 < k <= fs.len() {
        lemma_fields_contents_finite(fs, k - 1);
        lemma_layout_contents_finite(fs[k - 1].layout);
    }
}

/// What the field layouts of the first `k` variants hold is finite.
pub proof fn lemma_variants_contents_finite(vs: Seq<VariantV>, k: int)
    ensures
        contents_finite(variants_contents(vs, k)),
    decreases vs, k,
{
    if 0 < k <= vs.len() {
        lemma_variants_contents_finite(vs, k - 1);
        if let Some(fs) = vs[k - 1].fields {
            lemma_fields_contents_finite(fs, fs.len() as int);
        }
    }
}

/// The first `k` fields hold no more than the first `n`, and the layout of
/// field `j < n` holds no more than the first `n` fields.
pub proof fn lemma_fields_contents_mono(fs: Seq<FieldV>, k: int, n: int)
    requires
        0 <= k <= n <= fs.len(),
    ensures
        contents_sub(fields_contents(fs, k), fields_contents(fs, n)),
        k < n ==> contents_sub(layout_contents(fs[k].layout), fields_contents(fs, n)),
    decreases n - k,
{
    if k < n {
        lemma_fields_contents_mono(fs, k + 1, n);
    }
}

/// The first `k` variants hold no more than the first `n`, and the known
/// fields of variant `j < n` hold no more than the first `n` variants.
pub proof fn lemma_variants_contents_mono(vs: Seq<VariantV>, k: int, n: int)
    requires
        0 <= k <= n <= vs.len(),
    ensures
        contents_sub(variants_contents(vs, k), variants_contents(vs, n)),
        k < n ==> (vs[k].fields matches Some(fs) && contents_sub(
            fields_contents(fs, fs.len() as int),
            variants_contents(vs, n),
        )) || vs[k].fields is None,
        variant_names_upto(vs, k).subset_of(variant_names_upto(vs, n)),
        k < n ==> variant_v_names(vs[k]).subset_of(variant_names_upto(vs, n)),
    decreases n - k,
{
    if k < n {
        lemma_variants_contents_mono(vs, k + 1, n);
    }
}

/// A part of a finite collection that fits the capacities fits them too.
pub proof fn lemma_fits_sub(a: Contents, b: Contents)
    requires
        contents_finite(b),
        contents_sub(a, b),
        fits(b),
    ensures
        contents_finite(a),
        fits(a),
{
    vstd::set_lib::lemma_len_subset(a.names, b.names);
    vstd::set_lib::lemma_len_subset(a.tags, b.tags);
    vstd::set_lib::lemma_len_subset(a.trees, b.trees);
}

/// A finite set inside a finite bound can gain a further element of the
/// bound only while it is smaller than the bound's capacity.
pub proof fn lemma_room_set<A>(s: Set<A>, bound: Set<A>, x: A, m: nat)
    requires
        s.subset_of(bound),
        bound.finite(),
        bound.len() <= m,
        bound.contains(x),
        !s.contains(x),
    ensures
        s.finite(),
        s.len() < m,
{
    vstd::set_lib::lemma_len_subset(s.insert(x), bound);
}

} // verus!
