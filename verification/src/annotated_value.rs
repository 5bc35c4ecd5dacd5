//! Tree-shaped annotated layouts, and the mathematical model shared by the
//! tree and the compressed representations.

use vstd::prelude::*;
use crate::language_storage::{Identifier, StructTag, StructTagV};
use crate::variant_order::{
    bytes_less, from_variants, insert_variant, lemma_from_variants_of_sorted, lemma_from_variants_sorted,
    lemma_lower_bound_at, variant_lt, variants_sorted,
};

verus! {

/// The mathematical value of an annotated layout: a tree whose structs carry
/// their type tag and named fields, and whose enums carry their type tag and
/// named, tagged variants.  A variant whose field layout is not known has
/// `fields == None`.
pub enum LayoutV {
    Bool,
    U8,
    U16,
    U32,
    U64,
    U128,
    U256,
    Address,
    Signer,
    Vector(Box<LayoutV>),
    Struct(StructTagV, Seq<FieldV>),
    Enum(StructTagV, Seq<VariantV>),
}

/// A named field of a struct or of an enum variant.
pub struct FieldV {
    pub name: Seq<u8>,
    pub layout: LayoutV,
}

/// A variant of an enum: its name, its tag, and its fields when known.
pub struct VariantV {
    pub name: Seq<u8>,
    pub tag: u16,
    pub fields: Option<Seq<FieldV>>,
}

/// Whether the layout is the value of a tree layout: every enum's variants
/// have known fields and are strictly ordered by (name, tag), as the keys of
/// an ordered map are.
pub open spec fn tree_wf(t: LayoutV) -> bool
    decreases t,
{
    match t {
        LayoutV::Vector(e) => tree_wf(*e),
        LayoutV::Struct(_, fs) => forall|k: int| 0 <= k < fs.len() ==> tree_wf(#[trigger] fs[k].layout),
        LayoutV::Enum(_, vs) => {
            &&& variants_sorted(vs)
            &&& forall|k: int|
                0 <= k < vs.len() ==> {
                    &&& (#[trigger] vs[k]).fields is Some
                    &&& forall|m: int|
                        0 <= m < vs[k].fields->0.len() ==> tree_wf(#[trigger] vs[k].fields->0[m].layout)
                }
        },
        _ => true,
    }
}

// ---------------------------------------------------------------------------
// Inflation: the tree that a layout with known variants reconstructs to
// ---------------------------------------------------------------------------

/// The tree layout that `t` reconstructs to: `None` when some enum variant's
/// fields are unknown; otherwise `t` with each enum's variants collected into
/// key order (a later variant with the same key replaces an earlier one).
pub open spec fn inflate_layout(t: LayoutV) -> Option<LayoutV>
    decreases t,
{
    match t {
        LayoutV::Vector(e) => match inflate_layout(*e) {
            Some(x) => Some(LayoutV::Vector(Box::new(x))),
            None => None,
        },
        LayoutV::Struct(tag, fs) => match inflate_fields(fs) {
            Some(x) => Some(LayoutV::Struct(tag, x)),
            None => None,
        },
        LayoutV::Enum(tag, vs) => match inflate_variants(vs) {
            Some(x) => Some(LayoutV::Enum(tag, from_variants(x))),
            None => None,
        },
        _ => Some(t),
    }
}

/// The inflated fields: `None` when some field's layout does not inflate.
pub open spec fn inflate_fields(fs: Seq<FieldV>) -> Option<Seq<FieldV>>
    decreases fs,
{
    if fs.len() == 0 {
        Some(Seq::empty())
    } else {
        match (inflate_fields(fs.drop_last()), inflate_layout(fs.last().layout)) {
            (Some(a), Some(b)) => Some(a.push(FieldV { name: fs.last().name, layout: b })),
            _ => None,
        }
    }
}

/// The inflated variants: `None` when some variant's fields are unknown or
/// do not inflate.
pub open spec fn inflate_variants(vs: Seq<VariantV>) -> Option<Seq<VariantV>>
    decreases vs,
{
    if vs.len() == 0 {
        Some(Seq::empty())
    } else {
        match (inflate_variants(vs.drop_last()), vs.last().fields) {
            (Some(a), Some(fs)) => match inflate_fields(fs) {
                Some(f) => Some(a.push(VariantV { name: vs.last().name, tag: vs.last().tag, fields: Some(f) })),
                None => None,
            },
            _ => None,
        }
    }
}

/// Fields inflate exactly when each field's layout does, one for one.
pub proof fn lemma_inflate_fields(fs: Seq<FieldV>)
    ensures
        inflate_fields(fs) is Some <==> forall|k: int| 0 <= k < fs.len() ==> (#[trigger] inflate_layout(fs[k].layout)) is Some,
        inflate_fields(fs) matches Some(r) ==> r.len() == fs.len() && forall|k: int|
            0 <= k < fs.len() ==> #[trigger] r[k] == (FieldV { name: fs[k].name, layout: inflate_layout(fs[k].layout)->0 }),
    decreases fs.len(),
{
    if fs.len() > 0 {
        let p = fs.drop_last();
        lemma_inflate_fields(p);
        assert forall|k: int| 0 <= k < p.len() implies p[k] == fs[k] by {}
        if inflate_fields(fs) is Some {
            let r = inflate_fields(fs)->0;
            assert forall|k: int| 0 <= k < fs.len() implies #[trigger] r[k] == (FieldV {
                name: fs[k].name,
                layout: inflate_layout(fs[k].layout)->0,
            }) by {
                if k < fs.len() - 1 {
                    assert(p[k] == fs[k]);
                }
            }
        }
        if forall|k: int| 0 <= k < fs.len() ==> (#[trigger] inflate_layout(fs[k].layout)) is Some {
            assert forall|k: int| 0 <= k < p.len() implies (#[trigger] inflate_layout(p[k].layout)) is Some by {
                assert(p[k] == fs[k]);
                assert(inflate_layout(fs[k].layout) is Some);
            }
            assert(inflate_layout(fs[fs.len() - 1].layout) is Some);
        }
        if inflate_fields(fs) is None && inflate_fields(p) is Some {
            assert(inflate_layout(fs[fs.len() - 1].layout) is None);
        }
        if inflate_fields(p) is None {
            let k = choose|k: int| 0 <= k < p.len() && (#[trigger] inflate_layout(p[k].layout)) is None;
            assert(p[k] == fs[k]);
        }
    }
}

/// Variants inflate exactly when each is known and its fields inflate, one
/// for one.
pub proof fn lemma_inflate_variants(vs: Seq<VariantV>)
    ensures
        inflate_variants(vs) is Some <==> forall|k: int|
            0 <= k < vs.len() ==> ((#[trigger] vs[k]).fields matches Some(fs) && inflate_fields(fs) is Some),
        inflate_variants(vs) matches Some(r) ==> r.len() == vs.len() && forall|k: int|
            0 <= k < vs.len() ==> #[trigger] r[k] == (VariantV {
                name: vs[k].name,
                tag: vs[k].tag,
                fields: Some(inflate_fields(vs[k].fields->0)->0),
            }),
    decreases vs.len(),
{
    if vs.len() > 0 {
        let p = vs.drop_last();
        lemma_inflate_variants(p);
        if inflate_variants(vs) is Some {
            let r = inflate_variants(vs)->0;
            assert forall|k: int| 0 <= k < vs.len() implies #[trigger] r[k] == (VariantV {
                name: vs[k].name,
                tag: vs[k].tag,
                fields: Some(inflate_fields(vs[k].fields->0)->0),
            }) by {
                if k < vs.len() - 1 {
                    assert(p[k] == vs[k]);
                }
            }
            assert forall|k: int| 0 <= k < vs.len() implies ((#[trigger] vs[k]).fields matches Some(fs)
                && inflate_fields(fs) is Some) by {
                if k < vs.len() - 1 {
                    assert(p[k] == vs[k]);
                }
            }
        }
        if forall|k: int| 0 <= k < vs.len() ==> ((#[trigger] vs[k]).fields matches Some(fs) && inflate_fields(fs) is Some) {
            assert forall|k: int| 0 <= k < p.len() implies ((#[trigger] p[k]).fields matches Some(fs)
                && inflate_fields(fs) is Some) by {
                assert(p[k] == vs[k]);
            }
            assert(vs[vs.len() - 1].fields is Some);
        }
    }
}

/// The value of a tree layout inflates to itself: reconstructing the tree of
/// a layout interned from a tree gives that tree back.
pub proof fn lemma_inflate_tree(t: LayoutV)
    requires
        tree_wf(t),
    ensures
        inflate_layout(t) == Some(t),
    decreases t,
{
    match t {
        LayoutV::Vector(e) => {
            lemma_inflate_tree(*e);
        },
        LayoutV::Struct(tag, fs) => {
            assert forall|k: int| 0 <= k < fs.len() implies #[trigger] inflate_layout(fs[k].layout) == Some(
                fs[k].layout,
            ) by {
                lemma_inflate_tree(fs[k].layout);
            }
            lemma_inflate_fields(fs);
            assert(inflate_fields(fs)->0 =~= fs);
        },
        LayoutV::Enum(tag, vs) => {
            assert forall|k: int| 0 <= k < vs.len() implies #[trigger] inflate_fields(vs[k].fields->0) == Some(
                vs[k].fields->0,
            ) by {
                let fs = vs[k].fields->0;
                assert forall|m: int| 0 <= m < fs.len() implies #[trigger] inflate_layout(fs[m].layout) == Some(
                    fs[m].layout,
                ) by {
                    assert(tree_wf(vs[k].fields->0[m].layout));
                    lemma_inflate_tree(fs[m].layout);
                }
                lemma_inflate_fields(fs);
                assert(inflate_fields(fs)->0 =~= fs);
            }
            lemma_inflate_variants(vs);
            assert(inflate_variants(vs)->0 =~= vs) by {
                assert forall|k: int| 0 <= k < vs.len() implies inflate_variants(vs)->0[k] == vs[k] by {
                    assert(vs[k].fields is Some);
                    assert(inflate_fields(vs[k].fields->0) == Some(vs[k].fields->0));
                }
            }
            lemma_from_variants_of_sorted(vs);
        },
        _ => {},
    }
}

// ---------------------------------------------------------------------------
// Tree layouts
// ---------------------------------------------------------------------------

/// An annotated Move type layout as a tree.
#[derive(Debug)]
pub enum MoveTypeLayout {
    Bool,
    U8,
    U64,
    U128,
    Address,
    Vector(Box<MoveTypeLayout>),
    Struct(Box<MoveStructLayout>),
    Signer,
    U16,
    U32,
    U256,
    Enum(Box<MoveEnumLayout>),
}

/// A struct layout: its type and its named fields in declaration order.
#[derive(Debug)]
pub struct MoveStructLayout {
    pub type_: StructTag,
    pub fields: Vec<MoveFieldLayout>,
}

/// A named field.
#[derive(Debug)]
pub struct MoveFieldLayout {
    pub name: Identifier,
    pub layout: MoveTypeLayout,
}

/// An enum layout: its type and its variants keyed by (name, tag), kept in
/// increasing key order with no key twice.
#[derive(Debug)]
pub struct MoveEnumLayout {
    pub(crate) type_: StructTag,
    pub(crate) variants: Vec<((Identifier, u16), Vec<MoveFieldLayout>)>,
}

/// A layout that is a struct or an enum.
#[derive(Debug)]
pub enum MoveDatatypeLayout {
    Struct(Box<MoveStructLayout>),
    Enum(Box<MoveEnumLayout>),
}

impl MoveDatatypeLayout {
    pub open spec fn view(&self) -> LayoutV {
        match self {
            MoveDatatypeLayout::Struct(s) => LayoutV::Struct(s.type_@, fields_view(s.fields@)),
            MoveDatatypeLayout::Enum(e) => LayoutV::Enum(e.type_v(), e.variants_v()),
        }
    }
}

impl MoveTypeLayout {
    pub open spec fn view(&self) -> LayoutV
        decreases self,
    {
        match self {
            MoveTypeLayout::Bool => LayoutV::Bool,
            MoveTypeLayout::U8 => LayoutV::U8,
            MoveTypeLayout::U16 => LayoutV::U16,
            MoveTypeLayout::U32 => LayoutV::U32,
            MoveTypeLayout::U64 => LayoutV::U64,
            MoveTypeLayout::U128 => LayoutV::U128,
            MoveTypeLayout::U256 => LayoutV::U256,
            MoveTypeLayout::Address => LayoutV::Address,
            MoveTypeLayout::Signer => LayoutV::Signer,
            MoveTypeLayout::Vector(e) => LayoutV::Vector(Box::new((**e).view())),
            MoveTypeLayout::Struct(s) => LayoutV::Struct(s.type_@, fields_view(s.fields@)),
            MoveTypeLayout::Enum(e) => LayoutV::Enum(e.type_v(), e.variants_v()),
        }
    }
}

/// The value of an enum entry: a variant with known fields.
pub open spec fn entry_view(e: ((Identifier, u16), Vec<MoveFieldLayout>)) -> VariantV {
    VariantV { name: e.0.0@, tag: e.0.1, fields: Some(fields_view(e.1@)) }
}

/// Whether entry `a`'s key comes before entry `b`'s.
fn entry_less(a: &((Identifier, u16), Vec<MoveFieldLayout>), b: &((Identifier, u16), Vec<MoveFieldLayout>)) -> (r: bool)
    ensures
        r == variant_lt(entry_view(*a), entry_view(*b)),
{
    if bytes_less(a.0.0.as_bytes(), b.0.0.as_bytes()) {
        true
    } else {
        a.0.0.equals(&b.0.0) && a.0.1 < b.0.1
    }
}

/// Insert an entry into entries kept in key order; an entry with the same key
/// is replaced.
pub(crate) fn insert_entry(
    entries: &mut Vec<((Identifier, u16), Vec<MoveFieldLayout>)>,
    e: ((Identifier, u16), Vec<MoveFieldLayout>),
)
    ensures
        entries_view(final(entries)@) == insert_variant(entries_view(old(entries)@), entry_view(e)),
{
    proof {
        lemma_entries_view(entries@);
    }
    let ghost ev = entries_view(entries@);
    let mut j: usize = 0;
    while j < entries.len() && entry_less(&entries[j], &e)
        invariant
            j <= entries@.len(),
            ev == entries_view(entries@),
            ev.len() == entries@.len(),
            forall|k: int| 0 <= k < ev.len() ==> #[trigger] ev[k] == entry_view(entries@[k]),
            forall|k: int| 0 <= k < j ==> variant_lt(#[trigger] ev[k], entry_view(e)),
        decreases entries@.len() - j,
    {
        j = j + 1;
    }
    proof {
        lemma_lower_bound_at(ev, entry_view(e), j as int);
    }
    if j < entries.len() && entries[j].0.0.equals(&e.0.0) && entries[j].0.1 == e.0.1 {
        entries.set(j, e);
        proof {
            lemma_entries_view(entries@);
            assert(entries_view(entries@) =~= ev.update(j as int, entry_view(e)));
        }
    } else {
        entries.insert(j, e);
        proof {
            lemma_entries_view(entries@);
            assert(entries_view(entries@) =~= ev.insert(j as int, entry_view(e)));
        }
    }
}

impl MoveEnumLayout {
    #[verifier::type_invariant]
    spec fn sorted_variants(self) -> bool {
        variants_sorted(entries_view(self.variants@))
    }

    /// An enum layout whose variants are the given entries, kept in key
    /// order; when two entries have the same key, the later one stays.
    pub fn new(type_: StructTag, variants: Vec<((Identifier, u16), Vec<MoveFieldLayout>)>) -> (r: MoveEnumLayout)
        ensures
            r.type_v() == type_@,
            r.variants_v() == from_variants(entries_view(variants@)),
    {
        let ghost input = entries_view(variants@);
        let mut rest = variants;
        let mut out: Vec<((Identifier, u16), Vec<MoveFieldLayout>)> = Vec::new();
        let ghost mut k: int = 0;
        proof {
            lemma_entries_view(rest@);
            assert(input.take(0) =~= Seq::<VariantV>::empty());
        }
        while rest.len() > 0
            invariant
                0 <= k <= input.len(),
                entries_view(rest@) == input.skip(k),
                entries_view(out@) == from_variants(input.take(k)),
                variants_sorted(entries_view(out@)),
            decreases rest@.len(),
        {
            let ghost old_rest = rest@;
            proof {
                lemma_entries_view(old_rest);
                assert(entries_view(old_rest)[0] == input.skip(k)[0]);
            }
            let e = rest.remove(0);
            proof {
                assert(entry_view(e) == input[k]);
                lemma_from_variants_sorted(input.take(k + 1));
            }
            insert_entry(&mut out, e);
            proof {
                assert(input.take(k + 1).drop_last() =~= input.take(k));
                assert(input.take(k + 1).last() == input[k]);
                k = k + 1;
                lemma_entries_view(rest@);
                assert forall|i: int| 0 <= i < rest@.len() implies entries_view(rest@)[i] == input.skip(k)[i] by {
                    assert(rest@[i] == old_rest[i + 1]);
                    assert(entries_view(old_rest)[i + 1] == input.skip(k - 1)[i + 1]);
                }
                assert(entries_view(rest@) =~= input.skip(k));
            }
        }
        proof {
            lemma_entries_view(rest@);
            assert(input.take(k) =~= input);
        }
        MoveEnumLayout { type_, variants: out }
    }
    /// The variants' value is that of the entries held.
    pub(crate) proof fn lemma_variants_v(&self)
        ensures
            self.variants_v() == entries_view(self.variants@),
            self.type_v() == self.type_@,
    {
    }

    /// The value of the enum's type tag.
    pub closed spec fn type_v(&self) -> StructTagV {
        self.type_@
    }

    /// The values of the enum's variants, in key order.
    pub closed spec fn variants_v(&self) -> Seq<VariantV>
        decreases self,
    {
        entries_view(self.variants@)
    }

    /// An enum layout from entries already in strictly increasing key order.
    pub(crate) fn from_sorted(type_: StructTag, variants: Vec<((Identifier, u16), Vec<MoveFieldLayout>)>) -> (r:
        MoveEnumLayout)
        requires
            variants_sorted(entries_view(variants@)),
        ensures
            r.type_v() == type_@,
            r.variants_v() == entries_view(variants@),
    {
        MoveEnumLayout { type_, variants }
    }

    /// The enum's type tag.
    pub fn type_(&self) -> (r: &StructTag)
        ensures
            r@ == self.type_v(),
    {
        &self.type_
    }

    /// The enum's variants in increasing (name, tag) order.
    pub fn variants(&self) -> (r: &Vec<((Identifier, u16), Vec<MoveFieldLayout>)>)
        ensures
            entries_view(r@) == self.variants_v(),
            variants_sorted(self.variants_v()),
    {
        proof {
            use_type_invariant(self);
        }
        &self.variants
    }
}

impl MoveFieldLayout {
    pub open spec fn view(&self) -> FieldV
        decreases self,
    {
        FieldV { name: self.name@, layout: self.layout.view() }
    }

    /// A field with the given name and layout.
    pub fn new(name: Identifier, layout: MoveTypeLayout) -> (r: MoveFieldLayout)
        ensures
            r.name@ == name@,
            r.layout@ == layout@,
    {
        MoveFieldLayout { name, layout }
    }
}

/// The values of a sequence of fields.
pub open spec fn fields_view(fs: Seq<MoveFieldLayout>) -> Seq<FieldV>
    decreases fs,
{
    if fs.len() == 0 {
        Seq::empty()
    } else {
        fields_view(fs.drop_last()).push(fs.last().view())
    }
}

/// The values of a sequence of enum entries, as variants with known fields.
pub open spec fn entries_view(es: Seq<((Identifier, u16), Vec<MoveFieldLayout>)>) -> Seq<VariantV>
    decreases es,
{
    if es.len() == 0 {
        Seq::empty()
    } else {
        entries_view(es.drop_last()).push(
            VariantV {
                name: es.last().0.0@,
                tag: es.last().0.1,
                fields: Some(fields_view(es.last().1@)),
            },
        )
    }
}

/// `fields_view` maps each field to its value.
pub broadcast proof fn lemma_fields_view(fs: Seq<MoveFieldLayout>)
    ensures
        #[trigger] fields_view(fs).len() == fs.len(),
        forall|i: int| 0 <= i < fs.len() ==> #[trigger] fields_view(fs)[i] == fs[i].view(),
    decreases fs.len(),
{
    if fs.len() > 0 {
        lemma_fields_view(fs.drop_last());
        assert forall|i: int| 0 <= i < fs.len() implies #[trigger] fields_view(fs)[i]
            == fs[i].view() by {
            if i < fs.len() - 1 {
                assert(fs.drop_last()[i] == fs[i]);
            }
        }
    }
}

/// `entries_view` maps each entry to a variant with known fields.
pub broadcast proof fn lemma_entries_view(es: Seq<((Identifier, u16), Vec<MoveFieldLayout>)>)
    ensures
        #[trigger] entries_view(es).len() == es.len(),
        forall|i: int|
            0 <= i < es.len() ==> #[trigger] entries_view(es)[i] == (VariantV {
                name: es[i].0.0@,
                tag: es[i].0.1,
                fields: Some(fields_view(es[i].1@)),
            }),
    decreases es.len(),
{
    if es.len() > 0 {
        lemma_entries_view(es.drop_last());
        assert forall|i: int| 0 <= i < es.len() implies #[trigger] entries_view(es)[i] == (
        VariantV {
            name: es[i].0.0@,
            tag: es[i].0.1,
            fields: Some(fields_view(es[i].1@)),
        }) by {
            if i < es.len() - 1 {
                assert(es.drop_last()[i] == es[i]);
            }
        }
    }
}

} // verus!
