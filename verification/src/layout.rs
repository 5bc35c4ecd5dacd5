//! The compressed layout: a pool of interned nodes, names and struct tags,
//! a tagged 16-bit reference into it, and lazily resolved views.

use std::sync::Arc;
use vstd::prelude::*;
use vstd::string::StringSliceAdditionalSpecFns;
use crate::language_storage::{Identifier, StructTag, StructTagV, TypeTag, TypeTagV};
use crate::annotated_value::{
    entries_view, entry_view, fields_view, inflate_fields, inflate_layout, inflate_variants, insert_entry,
    lemma_fields_view, lemma_inflate_fields, lemma_inflate_variants, FieldV, LayoutV,
    MoveDatatypeLayout as TreeMoveDatatypeLayout, MoveEnumLayout, MoveFieldLayout, MoveStructLayout,
    MoveTypeLayout as TreeMoveTypeLayout, VariantV,
};
use crate::variant_order::{from_variants, lemma_from_variants_sorted};
use crate::display::{field_list_text, layout_text, push_ident, push_struct_tag, push_text, variant_list_text};

verus! {

// ---------------------------------------------------------------------------
// LayoutRef: a tagged u16 that encodes leaf types inline
// ---------------------------------------------------------------------------

/// Bit 15 of a [`LayoutRef`]: set for a leaf, clear for a node-table index.
pub const LEAF_TAG: u16 = 0x8000;

/// Primitive (leaf) Move types, encoded inline in a [`LayoutRef`].
#[derive(Debug, Clone, Copy, PartialEq, Eq, Structural, Hash)]
pub enum LeafType {
    Bool,
    U8,
    U16,
    U32,
    U64,
    U128,
    U256,
    Address,
    Signer,
}

impl LeafType {
    /// The discriminant that a leaf [`LayoutRef`] stores in its low bits.
    pub open spec fn spec_discriminant(self) -> u8 {
        match self {
            LeafType::Bool => 0,
            LeafType::U8 => 1,
            LeafType::U16 => 2,
            LeafType::U32 => 3,
            LeafType::U64 => 4,
            LeafType::U128 => 5,
            LeafType::U256 => 6,
            LeafType::Address => 7,
            LeafType::Signer => 8,
        }
    }

    /// The leaf type with discriminant `v`, if any.
    pub open spec fn spec_from_u8(v: u8) -> Option<LeafType> {
        if v == 0 {
            Some(LeafType::Bool)
        } else if v == 1 {
            Some(LeafType::U8)
        } else if v == 2 {
            Some(LeafType::U16)
        } else if v == 3 {
            Some(LeafType::U32)
        } else if v == 4 {
            Some(LeafType::U64)
        } else if v == 5 {
            Some(LeafType::U128)
        } else if v == 6 {
            Some(LeafType::U256)
        } else if v == 7 {
            Some(LeafType::Address)
        } else if v == 8 {
            Some(LeafType::Signer)
        } else {
            None
        }
    }

    /// The discriminant of this leaf type.
    pub fn discriminant(self) -> (r: u8)
        ensures
            r == self.spec_discriminant(),
            r <= 8,
    {
        match self {
            LeafType::Bool => 0,
            LeafType::U8 => 1,
            LeafType::U16 => 2,
            LeafType::U32 => 3,
            LeafType::U64 => 4,
            LeafType::U128 => 5,
            LeafType::U256 => 6,
            LeafType::Address => 7,
            LeafType::Signer => 8,
        }
    }

    /// The leaf type with discriminant `v`; `None` for `v > 8`.
    pub fn from_u8(v: u8) -> (r: Option<LeafType>)
        ensures
            r == LeafType::spec_from_u8(v),
            r is Some <==> v <= 8,
            r matches Some(t) ==> t.spec_discriminant() == v,
    {
        match v {
            0 => Some(LeafType::Bool),
            1 => Some(LeafType::U8),
            2 => Some(LeafType::U16),
            3 => Some(LeafType::U32),
            4 => Some(LeafType::U64),
            5 => Some(LeafType::U128),
            6 => Some(LeafType::U256),
            7 => Some(LeafType::Address),
            8 => Some(LeafType::Signer),
            _ => None,
        }
    }
}

/// Decoding a discriminant gives back the leaf type.
pub proof fn lemma_leaf_discriminant_roundtrip(t: LeafType)
    ensures
        LeafType::spec_from_u8(t.spec_discriminant()) == Some(t),
{
}

/// A compact reference to a layout node.  Bit 15 set: the low byte is a
/// [`LeafType`] discriminant.  Bit 15 clear: the value indexes the node table.
#[derive(Debug, Clone, Copy, PartialEq, Eq, Structural, Hash)]
pub struct LayoutRef(pub u16);

/// The result of resolving a [`LayoutRef`].
#[derive(Debug, Clone, Copy, PartialEq, Eq, Structural)]
pub enum ResolvedRef {
    Leaf(LeafType),
    Index(usize),
}

impl LayoutRef {
    /// Whether the reference encodes a leaf (bit 15 set).
    pub open spec fn is_leaf(self) -> bool {
        self.0 >= 0x8000
    }

    /// The leaf discriminant: the low byte of the bits below bit 15.
    pub open spec fn leaf_discriminant(self) -> u8 {
        ((self.0 - 0x8000) % 256) as u8
    }

    /// 0 for a leaf, one more than the table index otherwise.  A node only
    /// refers to references of lower rank than its own.
    pub open spec fn rank(self) -> nat {
        if self.is_leaf() {
            0
        } else {
            self.0 as nat + 1
        }
    }

    /// Whether the reference resolves against a table of `n` nodes.
    pub open spec fn valid(self, n: nat) -> bool {
        if self.is_leaf() {
            self.leaf_discriminant() <= 8
        } else {
            self.0 < n
        }
    }

    /// What the reference decodes to.  A leaf reference with an unknown
    /// discriminant never resolves; its value here is arbitrary.
    pub open spec fn spec_resolve(self) -> ResolvedRef {
        if self.is_leaf() {
            match LeafType::spec_from_u8(self.leaf_discriminant()) {
                Some(t) => ResolvedRef::Leaf(t),
                None => ResolvedRef::Index(0),
            }
        } else {
            ResolvedRef::Index(self.0 as usize)
        }
    }

    /// The reference that encodes leaf type `ty`.
    pub fn leaf(ty: LeafType) -> (r: LayoutRef)
        ensures
            r.is_leaf(),
            r.0 == 0x8000 + ty.spec_discriminant(),
            r.leaf_discriminant() == ty.spec_discriminant(),
            LeafType::spec_from_u8(r.leaf_discriminant()) == Some(ty),
    {
        let d = ty.discriminant() as u16;
        let v = LEAF_TAG | d;
        assert(v >= 0x8000 && v == 0x8000 + d && ((v - 0x8000) % 256) == d) by (bit_vector)
            requires
                v == 0x8000u16 | d,
                d <= 8,
        ;
        LayoutRef(v)
    }

    /// The reference to node-table entry `idx`; the index must fit in 15 bits.
    pub fn index(idx: usize) -> (r: LayoutRef)
        requires
            idx <= 0x7FFF,
        ensures
            !r.is_leaf(),
            r.0 == idx,
            r.rank() == idx + 1,
    {
        LayoutRef(idx as u16)
    }

    /// Decode the reference.  A leaf reference must carry a valid
    /// discriminant.
    pub fn resolve(self) -> (r: ResolvedRef)
        requires
            self.is_leaf() ==> self.leaf_discriminant() <= 8,
        ensures
            r == self.spec_resolve(),
            self.is_leaf() ==> LeafType::spec_from_u8(self.leaf_discriminant()) is Some,
    {
        let x = self.0;
        assert((x & 0x8000u16 != 0) == (x >= 0x8000)) by (bit_vector);
        if x & LEAF_TAG != 0 {
            let disc = (x & !LEAF_TAG) as u8;
            assert(((x & !0x8000u16) as u8) == (((x - 0x8000u16) as u16) % 256) as u8) by (bit_vector)
                requires
                    x >= 0x8000,
            ;
            match LeafType::from_u8(disc) {
                Some(t) => ResolvedRef::Leaf(t),
                None => ResolvedRef::Index(0),
            }
        } else {
            ResolvedRef::Index(x as usize)
        }
    }
}


/// Decoding undoes encoding: the reference [`LayoutRef::leaf`] makes for a
/// leaf type resolves to that leaf type, and the reference
/// [`LayoutRef::index`] makes for a 15-bit index resolves to that index.
pub proof fn lemma_resolve_encoding(ty: LeafType, idx: u16)
    requires
        idx <= 0x7FFF,
    ensures
        LayoutRef((0x8000 + ty.spec_discriminant()) as u16).spec_resolve() == ResolvedRef::Leaf(ty),
        LayoutRef(idx).spec_resolve() == ResolvedRef::Index(idx as usize),
{
    let r = LayoutRef((0x8000 + ty.spec_discriminant()) as u16);
    assert(r.leaf_discriminant() == ty.spec_discriminant());
    lemma_leaf_discriminant_roundtrip(ty);
}

// ---------------------------------------------------------------------------
// Nodes and the pool
// ---------------------------------------------------------------------------

/// A struct node: the index of its type tag and its fields as
/// (name index, layout) pairs.
#[derive(Debug)]
pub struct MoveStructNode {
    pub type_: u16,
    pub fields: Vec<(u16, LayoutRef)>,
}

/// An enum node: the index of its type tag and its variants as
/// (name index, tag, fields when known).
#[derive(Debug)]
pub struct MoveEnumNode {
    pub type_: u16,
    pub variants: Vec<(u16, u16, Option<Vec<(u16, LayoutRef)>>)>,
}

/// A compound node of the table.  Leaf types never appear in the table.
#[derive(Debug)]
pub enum MoveTypeNode {
    Vector(LayoutRef),
    Struct(MoveStructNode),
    Enum(MoveEnumNode),
}

/// The value of an enum node's variant entry.
pub type VariantEntryV = (u16, u16, Option<Seq<(u16, LayoutRef)>>);

/// The value of a node.
pub enum NodeV {
    Vector(LayoutRef),
    Struct(u16, Seq<(u16, LayoutRef)>),
    Enum(u16, Seq<VariantEntryV>),
}

/// The value of a variant entry of an enum node.
pub open spec fn variant_entry_view(e: (u16, u16, Option<Vec<(u16, LayoutRef)>>)) -> VariantEntryV {
    (
        e.0,
        e.1,
        match e.2 {
            Some(f) => Some(f@),
            None => None,
        },
    )
}

impl MoveTypeNode {
    pub open spec fn view(&self) -> NodeV {
        match self {
            MoveTypeNode::Vector(r) => NodeV::Vector(*r),
            MoveTypeNode::Struct(s) => NodeV::Struct(s.type_, s.fields@),
            MoveTypeNode::Enum(e) => NodeV::Enum(
                e.type_,
                e.variants@.map_values(|v: (u16, u16, Option<Vec<(u16, LayoutRef)>>)| variant_entry_view(v)),
            ),
        }
    }
}

/// The value of a pool: its node, name and tag tables.
pub struct PoolV {
    pub nodes: Seq<NodeV>,
    pub strings: Seq<Seq<u8>>,
    pub tags: Seq<StructTagV>,
}

/// Whether field entries refer to known names and to references of rank at
/// most `bound`.
pub open spec fn fields_ok(p: PoolV, fs: Seq<(u16, LayoutRef)>, bound: nat) -> bool {
    forall|k: int|
        0 <= k < fs.len() ==> {
            &&& (#[trigger] fs[k]).0 < p.strings.len()
            &&& fs[k].1.valid(p.nodes.len())
            &&& fs[k].1.rank() <= bound
        }
}

/// Whether variant entries refer to known names and well-formed fields.
pub open spec fn variants_ok(p: PoolV, vs: Seq<VariantEntryV>, bound: nat) -> bool {
    forall|k: int|
        0 <= k < vs.len() ==> {
            &&& (#[trigger] vs[k]).0 < p.strings.len()
            &&& (vs[k].2 matches Some(fs) ==> fields_ok(p, fs, bound))
        }
}

/// Whether node `i` is well formed: its tag and names exist, and it only
/// refers to nodes placed before it.
pub open spec fn node_ok(p: PoolV, i: int) -> bool {
    match p.nodes[i] {
        NodeV::Vector(e) => e.valid(p.nodes.len()) && e.rank() <= i,
        NodeV::Struct(t, fs) => t < p.tags.len() && fields_ok(p, fs, i as nat),
        NodeV::Enum(t, vs) => t < p.tags.len() && variants_ok(p, vs, i as nat),
    }
}

/// Whether every reference in the pool resolves, and the node graph is
/// acyclic (each node refers only to earlier nodes).
pub open spec fn pool_wf(p: PoolV) -> bool {
    &&& p.nodes.len() <= 0x8000
    &&& forall|i: int| 0 <= i < p.nodes.len() ==> #[trigger] node_ok(p, i)
}

/// The layout tree of a leaf type.
pub open spec fn leaf_layout(t: LeafType) -> LayoutV {
    match t {
        LeafType::Bool => LayoutV::Bool,
        LeafType::U8 => LayoutV::U8,
        LeafType::U16 => LayoutV::U16,
        LeafType::U32 => LayoutV::U32,
        LeafType::U64 => LayoutV::U64,
        LeafType::U128 => LayoutV::U128,
        LeafType::U256 => LayoutV::U256,
        LeafType::Address => LayoutV::Address,
        LeafType::Signer => LayoutV::Signer,
    }
}

/// The layout tree that reference `r` denotes in pool `p`.
pub open spec fn tree_at(p: PoolV, r: LayoutRef) -> LayoutV
    decreases r.rank(), 2nat, 0nat,
{
    if r.is_leaf() {
        match LeafType::spec_from_u8(r.leaf_discriminant()) {
            Some(t) => leaf_layout(t),
            None => LayoutV::Bool,
        }
    } else if r.0 < p.nodes.len() {
        match p.nodes[r.0 as int] {
            NodeV::Vector(e) => if e.rank() < r.rank() {
                LayoutV::Vector(Box::new(tree_at(p, e)))
            } else {
                LayoutV::Bool
            },
            NodeV::Struct(t, fs) => LayoutV::Struct(p.tags[t as int], fields_at(p, fs, r.rank())),
            NodeV::Enum(t, vs) => LayoutV::Enum(p.tags[t as int], variants_at(p, vs, r.rank())),
        }
    } else {
        LayoutV::Bool
    }
}

/// The field that entry `f` denotes; `bound` bounds the ranks that may be
/// followed.
pub open spec fn field_at(p: PoolV, f: (u16, LayoutRef), bound: nat) -> FieldV
    decreases bound, 0nat, 0nat,
{
    FieldV {
        name: p.strings[f.0 as int],
        layout: if f.1.rank() < bound {
            tree_at(p, f.1)
        } else {
            LayoutV::Bool
        },
    }
}

/// The fields that entries `fs` denote.
pub open spec fn fields_at(p: PoolV, fs: Seq<(u16, LayoutRef)>, bound: nat) -> Seq<FieldV>
    decreases bound, 0nat, fs.len(),
{
    if fs.len() == 0 {
        Seq::empty()
    } else {
        fields_at(p, fs.drop_last(), bound).push(field_at(p, fs.last(), bound))
    }
}

/// The variant that entry `v` denotes.
pub open spec fn variant_at(p: PoolV, v: VariantEntryV, bound: nat) -> VariantV
    decreases bound, 1nat, 0nat,
{
    VariantV {
        name: p.strings[v.0 as int],
        tag: v.1,
        fields: match v.2 {
            Some(fs) => Some(fields_at(p, fs, bound)),
            None => None,
        },
    }
}

/// The variants that entries `vs` denote.
pub open spec fn variants_at(p: PoolV, vs: Seq<VariantEntryV>, bound: nat) -> Seq<VariantV>
    decreases bound, 1nat, vs.len(),
{
    if vs.len() == 0 {
        Seq::empty()
    } else {
        variants_at(p, vs.drop_last(), bound).push(variant_at(p, vs.last(), bound))
    }
}

/// `fields_at` maps each entry to the field it denotes.
pub proof fn lemma_fields_at(p: PoolV, fs: Seq<(u16, LayoutRef)>, bound: nat)
    ensures
        fields_at(p, fs, bound).len() == fs.len(),
        forall|k: int| 0 <= k < fs.len() ==> #[trigger] fields_at(p, fs, bound)[k] == field_at(p, fs[k], bound),
    decreases fs.len(),
{
    if fs.len() > 0 {
        lemma_fields_at(p, fs.drop_last(), bound);
        assert forall|k: int| 0 <= k < fs.len() implies #[trigger] fields_at(p, fs, bound)[k]
            == field_at(p, fs[k], bound) by {
            if k < fs.len() - 1 {
                assert(fs.drop_last()[k] == fs[k]);
            }
        }
    }
}

/// `variants_at` maps each entry to the variant it denotes.
pub proof fn lemma_variants_at(p: PoolV, vs: Seq<VariantEntryV>, bound: nat)
    ensures
        variants_at(p, vs, bound).len() == vs.len(),
        forall|k: int| 0 <= k < vs.len() ==> #[trigger] variants_at(p, vs, bound)[k] == variant_at(p, vs[k], bound),
    decreases vs.len(),
{
    if vs.len() > 0 {
        lemma_variants_at(p, vs.drop_last(), bound);
        assert forall|k: int| 0 <= k < vs.len() implies #[trigger] variants_at(p, vs, bound)[k]
            == variant_at(p, vs[k], bound) by {
            if k < vs.len() - 1 {
                assert(vs.drop_last()[k] == vs[k]);
            }
        }
    }
}

/// The fields do not depend on the bound, once it exceeds every rank.
pub proof fn lemma_fields_at_bound(p: PoolV, fs: Seq<(u16, LayoutRef)>, b1: nat, b2: nat)
    requires
        forall|k: int| 0 <= k < fs.len() ==> (#[trigger] fs[k]).1.rank() < b1 && fs[k].1.rank() < b2,
    ensures
        fields_at(p, fs, b1) == fields_at(p, fs, b2),
{
    lemma_fields_at(p, fs, b1);
    lemma_fields_at(p, fs, b2);
    assert(fields_at(p, fs, b1) =~= fields_at(p, fs, b2));
}

/// The variants do not depend on the bound, once it exceeds every rank.
pub proof fn lemma_variants_at_bound(p: PoolV, vs: Seq<VariantEntryV>, b1: nat, b2: nat)
    requires
        forall|k: int|
            0 <= k < vs.len() ==> ((#[trigger] vs[k]).2 matches Some(fs) ==> forall|j: int|
                0 <= j < fs.len() ==> (#[trigger] fs[j]).1.rank() < b1 && fs[j].1.rank() < b2),
    ensures
        variants_at(p, vs, b1) == variants_at(p, vs, b2),
{
    lemma_variants_at(p, vs, b1);
    lemma_variants_at(p, vs, b2);
    assert forall|k: int| 0 <= k < vs.len() implies variants_at(p, vs, b1)[k] == variants_at(p, vs, b2)[k] by {
        if let Some(fs) = vs[k].2 {
            lemma_fields_at_bound(p, fs, b1, b2);
        }
    }
    assert(variants_at(p, vs, b1) =~= variants_at(p, vs, b2));
}


/// The value of a pool with the given tables.
pub open spec fn pool_view_of(nodes: Seq<MoveTypeNode>, strings: Seq<Identifier>, tags: Seq<StructTag>) -> PoolV {
    PoolV {
        nodes: nodes.map_values(|n: MoveTypeNode| n.view()),
        strings: strings.map_values(|s: Identifier| s@),
        tags: tags.map_values(|t: StructTag| t@),
    }
}

/// The shared pool of interned nodes, names and struct tags behind a
/// [`MoveTypeLayout`].
#[derive(Debug)]
pub struct MoveTypeLayoutPool {
    nodes: Vec<MoveTypeNode>,
    strings: Vec<Identifier>,
    tags: Vec<StructTag>,
}

impl View for MoveTypeLayoutPool {
    type V = PoolV;

    closed spec fn view(&self) -> PoolV {
        pool_view_of(self.nodes@, self.strings@, self.tags@)
    }
}

impl MoveTypeLayoutPool {
    #[verifier::type_invariant]
    spec fn inv(self) -> bool {
        pool_wf(self@)
    }

    /// A pool with no nodes, names or tags.
    pub fn empty() -> (r: MoveTypeLayoutPool)
        ensures
            r@.nodes.len() == 0,
            r@.strings.len() == 0,
            r@.tags.len() == 0,
    {
        let r = MoveTypeLayoutPool { nodes: Vec::new(), strings: Vec::new(), tags: Vec::new() };
        assert(r@.nodes.len() == 0);
        r
    }

    /// A pool made of the given tables, which must be well formed.
    pub(crate) fn from_parts(nodes: Vec<MoveTypeNode>, strings: Vec<Identifier>, tags: Vec<StructTag>) -> (r:
        MoveTypeLayoutPool)
        requires
            pool_wf(pool_view_of(nodes@, strings@, tags@)),
        ensures
            r@ == pool_view_of(nodes@, strings@, tags@),
    {
        MoveTypeLayoutPool { nodes, strings, tags }
    }

    /// Number of nodes in the table.
    pub fn node_count(&self) -> (r: usize)
        ensures
            r == self@.nodes.len(),
    {
        self.nodes.len()
    }

    /// Number of interned names.
    pub fn string_count(&self) -> (r: usize)
        ensures
            r == self@.strings.len(),
    {
        self.strings.len()
    }

    /// Number of interned struct tags.
    pub fn tag_count(&self) -> (r: usize)
        ensures
            r == self@.tags.len(),
    {
        self.tags.len()
    }
}


/// Whether pool `q` keeps every table entry of pool `p` in place.
pub open spec fn pool_extends(p: PoolV, q: PoolV) -> bool {
    &&& p.nodes.len() <= q.nodes.len()
    &&& p.strings.len() <= q.strings.len()
    &&& p.tags.len() <= q.tags.len()
    &&& forall|i: int| 0 <= i < p.nodes.len() ==> #[trigger] q.nodes[i] == p.nodes[i]
    &&& forall|i: int| 0 <= i < p.strings.len() ==> #[trigger] q.strings[i] == p.strings[i]
    &&& forall|i: int| 0 <= i < p.tags.len() ==> #[trigger] q.tags[i] == p.tags[i]
}

/// A reference keeps its tree when the pool is extended.
pub proof fn lemma_tree_at_extends(p: PoolV, q: PoolV, r: LayoutRef)
    requires
        pool_wf(p),
        pool_extends(p, q),
        r.valid(p.nodes.len()),
    ensures
        tree_at(q, r) == tree_at(p, r),
    decreases r.rank(),
{
    if !r.is_leaf() {
        let i = r.0 as int;
        assert(node_ok(p, i));
        match p.nodes[i] {
            NodeV::Vector(e) => {
                lemma_tree_at_extends(p, q, e);
            },
            NodeV::Struct(t, fs) => {
                lemma_fields_at(p, fs, r.rank());
                lemma_fields_at(q, fs, r.rank());
                assert forall|k: int| 0 <= k < fs.len() implies fields_at(q, fs, r.rank())[k] == fields_at(p, fs, r.rank())[k] by {
                    lemma_tree_at_extends(p, q, fs[k].1);
                }
                assert(fields_at(q, fs, r.rank()) =~= fields_at(p, fs, r.rank()));
            },
            NodeV::Enum(t, vs) => {
                lemma_variants_at(p, vs, r.rank());
                lemma_variants_at(q, vs, r.rank());
                assert forall|k: int| 0 <= k < vs.len() implies variants_at(q, vs, r.rank())[k] == variants_at(p, vs, r.rank())[k] by {
                    if let Some(fs) = vs[k].2 {
                        lemma_fields_at(p, fs, r.rank());
                        lemma_fields_at(q, fs, r.rank());
                        assert(fields_ok(p, fs, i as nat));
                        assert forall|j: int| 0 <= j < fs.len() implies fields_at(q, fs, r.rank())[j] == fields_at(p, fs, r.rank())[j] by {
                            lemma_tree_at_extends(p, q, fs[j].1);
                        }
                        assert(fields_at(q, fs, r.rank()) =~= fields_at(p, fs, r.rank()));
                    }
                }
                assert(variants_at(q, vs, r.rank()) =~= variants_at(p, vs, r.rank()));
            },
        }
    }
}

/// A node's tree is compound: a vector, a struct or an enum.
pub proof fn lemma_node_tree_compound(p: PoolV, r: LayoutRef)
    requires
        pool_wf(p),
        !r.is_leaf(),
        r.valid(p.nodes.len()),
    ensures
        tree_at(p, r) is Vector || tree_at(p, r) is Struct || tree_at(p, r) is Enum,
{
    assert(node_ok(p, r.0 as int));
}

// ---------------------------------------------------------------------------
// Views
// ---------------------------------------------------------------------------

/// A resolved view of one layer of an annotated layout.  Compound views give
/// access to their parts, resolving one layer at a time.
#[derive(Debug, Clone, Copy)]
pub enum MoveLayoutView<'a> {
    Bool,
    U8,
    U16,
    U32,
    U64,
    U128,
    U256,
    Address,
    Signer,
    Vector(MoveVectorView<'a>),
    Struct(MoveStructView<'a>),
    Enum(MoveEnumView<'a>),
}

/// A view over a vector layout's element type.
#[derive(Debug, Clone, Copy)]
pub struct MoveVectorView<'a> {
    pool: &'a MoveTypeLayoutPool,
    element: LayoutRef,
}

/// A view over a list of named, typed fields (of a struct or an enum
/// variant).
#[derive(Debug, Clone, Copy)]
pub struct MoveFieldView<'a> {
    pool: &'a MoveTypeLayoutPool,
    fields: &'a [(u16, LayoutRef)],
}

/// A view over a struct layout: its type tag and its fields.
#[derive(Debug, Clone, Copy)]
pub struct MoveStructView<'a> {
    type_: &'a StructTag,
    fields: MoveFieldView<'a>,
}

/// The fields of an enum variant, when its layout is known.
#[derive(Debug, Clone, Copy)]
pub enum VariantFieldView<'a> {
    /// The variant's field layout is known.
    Known(MoveFieldView<'a>),
    /// The variant exists but its field layout is not available.
    Unknown,
}

/// A view over an enum layout's type tag and variants.
#[derive(Debug, Clone, Copy)]
pub struct MoveEnumView<'a> {
    pool: &'a MoveTypeLayoutPool,
    type_: &'a StructTag,
    variants: &'a [(u16, u16, Option<Vec<(u16, LayoutRef)>>)],
}

/// A view over a single named field.
#[derive(Debug, Clone, Copy)]
pub struct MoveFieldLayoutView<'a> {
    name: &'a Identifier,
    layout: MoveLayoutView<'a>,
}

impl<'a> MoveVectorView<'a> {
    #[verifier::type_invariant]
    spec fn inv(self) -> bool {
        self.element.valid(self.pool@.nodes.len())
    }

    /// The pool the view reads.
    pub closed spec fn pool_v(self) -> PoolV {
        self.pool@
    }

    /// The reference to the element layout.
    pub closed spec fn element_ref(self) -> LayoutRef {
        self.element
    }

    /// The element's layout tree.
    pub open spec fn element_tree(self) -> LayoutV {
        tree_at(self.pool_v(), self.element_ref())
    }
}

impl<'a> MoveFieldView<'a> {
    #[verifier::type_invariant]
    spec fn inv(self) -> bool {
        fields_ok(self.pool@, self.fields@, self.pool@.nodes.len())
    }

    /// The pool the view reads.
    pub closed spec fn pool_v(self) -> PoolV {
        self.pool@
    }

    /// The raw field entries.
    pub closed spec fn entries(self) -> Seq<(u16, LayoutRef)> {
        self.fields@
    }

    /// The fields as trees, in order.
    pub open spec fn fields_tree(self) -> Seq<FieldV> {
        fields_at(self.pool_v(), self.entries(), (self.pool_v().nodes.len() + 1) as nat)
    }
}

impl<'a> MoveStructView<'a> {
    /// The value of the struct's type tag.
    pub closed spec fn tag_v(self) -> StructTagV {
        self.type_@
    }

    /// The view of the struct's fields.
    pub closed spec fn field_view_v(self) -> MoveFieldView<'a> {
        self.fields
    }

    /// The struct's fields as trees, in order.
    pub open spec fn fields_tree(self) -> Seq<FieldV> {
        self.field_view_v().fields_tree()
    }
}

impl<'a> VariantFieldView<'a> {
    /// The fields as trees when known.
    pub open spec fn fields_tree(self) -> Option<Seq<FieldV>> {
        match self {
            VariantFieldView::Known(fv) => Some(fv.fields_tree()),
            VariantFieldView::Unknown => None,
        }
    }
}

impl<'a> MoveEnumView<'a> {
    #[verifier::type_invariant]
    spec fn inv(self) -> bool {
        variants_ok(self.pool@, self.entries(), self.pool@.nodes.len())
    }

    /// The pool the view reads.
    pub closed spec fn pool_v(self) -> PoolV {
        self.pool@
    }

    /// The value of the enum's type tag.
    pub closed spec fn tag_v(self) -> StructTagV {
        self.type_@
    }

    /// The raw variant entries.
    pub closed spec fn entries(self) -> Seq<VariantEntryV> {
        self.variants@.map_values(|v: (u16, u16, Option<Vec<(u16, LayoutRef)>>)| variant_entry_view(v))
    }

    /// The enum's variants as trees, in stored order.
    pub open spec fn variants_tree(self) -> Seq<VariantV> {
        variants_at(self.pool_v(), self.entries(), (self.pool_v().nodes.len() + 1) as nat)
    }
}

impl<'a> MoveFieldLayoutView<'a> {
    pub closed spec fn name_v(self) -> Seq<u8> {
        self.name@
    }

    pub closed spec fn layout_v(self) -> MoveLayoutView<'a> {
        self.layout
    }
}

impl<'a> MoveLayoutView<'a> {
    /// The layout tree that the view shows.
    pub open spec fn tree(self) -> LayoutV {
        match self {
            MoveLayoutView::Bool => LayoutV::Bool,
            MoveLayoutView::U8 => LayoutV::U8,
            MoveLayoutView::U16 => LayoutV::U16,
            MoveLayoutView::U32 => LayoutV::U32,
            MoveLayoutView::U64 => LayoutV::U64,
            MoveLayoutView::U128 => LayoutV::U128,
            MoveLayoutView::U256 => LayoutV::U256,
            MoveLayoutView::Address => LayoutV::Address,
            MoveLayoutView::Signer => LayoutV::Signer,
            MoveLayoutView::Vector(vv) => LayoutV::Vector(Box::new(vv.element_tree())),
            MoveLayoutView::Struct(sv) => LayoutV::Struct(sv.tag_v(), sv.fields_tree()),
            MoveLayoutView::Enum(ev) => LayoutV::Enum(ev.tag_v(), ev.variants_tree()),
        }
    }

    /// Whether a compound view reads pool `p`.
    pub open spec fn reads(self, p: PoolV) -> bool {
        match self {
            MoveLayoutView::Vector(vv) => vv.pool_v() == p,
            MoveLayoutView::Struct(sv) => sv.field_view_v().pool_v() == p,
            MoveLayoutView::Enum(ev) => ev.pool_v() == p,
            _ => true,
        }
    }
}

/// The view of a leaf type.
fn leaf_to_layout_view(leaf: LeafType) -> (v: MoveLayoutView<'static>)
    ensures
        v.tree() == leaf_layout(leaf),
{
    match leaf {
        LeafType::Bool => MoveLayoutView::Bool,
        LeafType::U8 => MoveLayoutView::U8,
        LeafType::U16 => MoveLayoutView::U16,
        LeafType::U32 => MoveLayoutView::U32,
        LeafType::U64 => MoveLayoutView::U64,
        LeafType::U128 => MoveLayoutView::U128,
        LeafType::U256 => MoveLayoutView::U256,
        LeafType::Address => MoveLayoutView::Address,
        LeafType::Signer => MoveLayoutView::Signer,
    }
}

/// Resolve a reference against the pool into a view of its top layer, with
/// the type tag and field names of a compound node resolved.
pub(crate) fn resolve_ref<'a>(pool: &'a MoveTypeLayoutPool, r: LayoutRef) -> (v: MoveLayoutView<'a>)
    requires
        r.valid(pool@.nodes.len()),
    ensures
        v.tree() == tree_at(pool@, r),
        v.reads(pool@),
        !r.is_leaf() ==> match pool@.nodes[r.0 as int] {
            NodeV::Vector(e) => v matches MoveLayoutView::Vector(vv) && vv.element_ref() == e,
            NodeV::Struct(t, fs) => v matches MoveLayoutView::Struct(sv) && sv.tag_v() == pool@.tags[t as int]
                && sv.field_view_v().entries() == fs,
            NodeV::Enum(t, vs) => v matches MoveLayoutView::Enum(ev) && ev.tag_v() == pool@.tags[t as int]
                && ev.entries() == vs,
        },
{
    proof {
        use_type_invariant(pool);
    }
    match r.resolve() {
        ResolvedRef::Leaf(leaf) => leaf_to_layout_view(leaf),
        ResolvedRef::Index(idx) => {
            let ghost p = pool@;
            proof {
                assert(node_ok(p, idx as int));
                assert(p.nodes[idx as int] == pool.nodes@[idx as int].view());
            }
            match &pool.nodes[idx] {
                MoveTypeNode::Vector(inner) => {
                    MoveLayoutView::Vector(MoveVectorView { pool, element: *inner })
                },
                MoveTypeNode::Struct(st) => {
                    proof {
                        assert(p.tags[st.type_ as int] == pool.tags@[st.type_ as int]@);
                        lemma_fields_at_bound(p, st.fields@, (idx + 1) as nat, (p.nodes.len() + 1) as nat);
                    }
                    MoveLayoutView::Struct(
                        MoveStructView {
                            type_: &pool.tags[st.type_ as usize],
                            fields: MoveFieldView { pool, fields: st.fields.as_slice() },
                        },
                    )
                },
                MoveTypeNode::Enum(en) => {
                    let ghost es = en.variants@.map_values(
                        |v: (u16, u16, Option<Vec<(u16, LayoutRef)>>)| variant_entry_view(v),
                    );
                    proof {
                        assert(p.tags[en.type_ as int] == pool.tags@[en.type_ as int]@);
                        assert forall|k: int| 0 <= k < es.len() implies ((#[trigger] es[k]).2 matches Some(
                            fs,
                        ) ==> forall|j: int|
                            0 <= j < fs.len() ==> (#[trigger] fs[j]).1.rank() < idx + 1 && fs[j].1.rank()
                                < p.nodes.len() + 1) by {
                            assert(variants_ok(p, es, idx as nat));
                        }
                        lemma_variants_at_bound(p, es, (idx + 1) as nat, (p.nodes.len() + 1) as nat);
                    }
                    MoveLayoutView::Enum(
                        MoveEnumView {
                            pool,
                            type_: &pool.tags[en.type_ as usize],
                            variants: en.variants.as_slice(),
                        },
                    )
                },
            }
        },
    }
}


/// `k` is the first position whose field is named `n`.
pub open spec fn first_field_named(fs: Seq<FieldV>, n: Seq<u8>, k: int) -> bool {
    &&& 0 <= k < fs.len()
    &&& fs[k].name == n
    &&& forall|j: int| 0 <= j < k ==> (#[trigger] fs[j]).name != n
}

/// `k` is the first position whose variant has tag `t`.
pub open spec fn first_variant_tagged(vs: Seq<VariantV>, t: u16, k: int) -> bool {
    &&& 0 <= k < vs.len()
    &&& vs[k].tag == t
    &&& forall|j: int| 0 <= j < k ==> (#[trigger] vs[j]).tag != t
}

impl<'a> MoveVectorView<'a> {
    /// Resolve the element type.
    pub fn element(&self) -> (r: MoveLayoutView<'a>)
        ensures
            r.tree() == self.element_tree(),
            r.reads(self.pool_v()),
    {
        proof {
            use_type_invariant(self);
        }
        resolve_ref(self.pool, self.element)
    }

    /// The raw element reference.
    pub(crate) fn raw_element(&self) -> (r: LayoutRef)
        ensures
            r == self.element_ref(),
            r.valid(self.pool_v().nodes.len()),
    {
        proof {
            use_type_invariant(self);
        }
        self.element
    }
}

impl<'a> MoveFieldView<'a> {
    /// Number of fields.
    pub fn field_count(&self) -> (r: usize)
        ensures
            r == self.fields_tree().len(),
    {
        proof {
            lemma_fields_at(self.pool_v(), self.entries(), (self.pool_v().nodes.len() + 1) as nat);
        }
        self.fields.len()
    }

    /// The name and layout of field `i`, or `None` when out of range.
    pub fn field(&self, i: usize) -> (r: Option<(&'a Identifier, MoveLayoutView<'a>)>)
        ensures
            r is Some <==> i < self.fields_tree().len(),
            r matches Some((n, v)) ==> n@ == self.fields_tree()[i as int].name && v.tree()
                == self.fields_tree()[i as int].layout && v.reads(self.pool_v()),
    {
        proof {
            use_type_invariant(self);
            lemma_fields_at(self.pool_v(), self.entries(), (self.pool_v().nodes.len() + 1) as nat);
        }
        if i < self.fields.len() {
            let (name_idx, layout_ref) = self.fields[i];
            proof {
                assert(self.pool@.strings[name_idx as int] == self.pool.strings@[name_idx as int]@);
            }
            Some((&self.pool.strings[name_idx as usize], resolve_ref(self.pool, layout_ref)))
        } else {
            None
        }
    }

    /// The name and raw layout reference of field `i`.
    pub(crate) fn raw_field(&self, i: usize) -> (r: Option<(&'a Identifier, LayoutRef)>)
        ensures
            r is Some <==> i < self.fields_tree().len(),
            r matches Some((n, lr)) ==> n@ == self.fields_tree()[i as int].name && lr.valid(
                self.pool_v().nodes.len(),
            ) && tree_at(self.pool_v(), lr) == self.fields_tree()[i as int].layout,
    {
        proof {
            use_type_invariant(self);
            lemma_fields_at(self.pool_v(), self.entries(), (self.pool_v().nodes.len() + 1) as nat);
        }
        if i < self.fields.len() {
            let (name_idx, layout_ref) = self.fields[i];
            proof {
                assert(self.pool@.strings[name_idx as int] == self.pool.strings@[name_idx as int]@);
            }
            Some((&self.pool.strings[name_idx as usize], layout_ref))
        } else {
            None
        }
    }

    /// The layout of the first field named `name`, if any.
    pub fn field_by_name(&self, name: &str) -> (r: Option<MoveLayoutView<'a>>)
        ensures
            r is None <==> forall|k: int|
                0 <= k < self.fields_tree().len() ==> (#[trigger] self.fields_tree()[k]).name
                    != name.spec_bytes(),
            r matches Some(v) ==> exists|k: int|
                first_field_named(self.fields_tree(), name.spec_bytes(), k) && v.tree()
                    == self.fields_tree()[k].layout,
    {
        proof {
            use_type_invariant(self);
            lemma_fields_at(self.pool_v(), self.entries(), (self.pool_v().nodes.len() + 1) as nat);
        }
        let ghost ft = self.fields_tree();
        let target = name.as_bytes();
        let mut k: usize = 0;
        while k < self.fields.len()
            invariant
                k <= self.fields@.len(),
                ft == self.fields_tree(),
                ft.len() == self.fields@.len(),
                target@ == name.spec_bytes(),
                fields_ok(self.pool@, self.fields@, self.pool@.nodes.len()),
                forall|j: int| 0 <= j < self.fields@.len() ==> #[trigger] ft[j] == field_at(self.pool@, self.fields@[j], (self.pool@.nodes.len() + 1) as nat),
                forall|j: int| 0 <= j < k ==> (#[trigger] ft[j]).name != name.spec_bytes(),
            decreases self.fields@.len() - k,
        {
            let (name_idx, layout_ref) = self.fields[k];
            proof {
                assert(self.pool@.strings[name_idx as int] == self.pool.strings@[name_idx as int]@);
            }
            if crate::language_storage::bytes_equal(self.pool.strings[name_idx as usize].as_bytes(), target) {
                let v = resolve_ref(self.pool, layout_ref);
                assert(first_field_named(ft, name.spec_bytes(), k as int));
                return Some(v);
            }
            k = k + 1;
        }
        None
    }

    /// All fields as (name, layout) pairs, in order.
    pub fn fields(&self) -> (r: Vec<(&'a Identifier, MoveLayoutView<'a>)>)
        ensures
            r@.len() == self.fields_tree().len(),
            forall|k: int|
                0 <= k < r@.len() ==> (#[trigger] r@[k]).0@ == self.fields_tree()[k].name && r@[k].1.tree()
                    == self.fields_tree()[k].layout && r@[k].1.reads(self.pool_v()),
    {
        proof {
            use_type_invariant(self);
            lemma_fields_at(self.pool_v(), self.entries(), (self.pool_v().nodes.len() + 1) as nat);
        }
        let mut out: Vec<(&'a Identifier, MoveLayoutView<'a>)> = Vec::new();
        let mut k: usize = 0;
        while k < self.fields.len()
            invariant
                k <= self.fields@.len(),
                out@.len() == k,
                fields_ok(self.pool@, self.fields@, self.pool@.nodes.len()),
                self.fields_tree().len() == self.fields@.len(),
                forall|j: int| 0 <= j < self.fields@.len() ==> #[trigger] self.fields_tree()[j] == field_at(self.pool@, self.fields@[j], (self.pool@.nodes.len() + 1) as nat),
                forall|j: int|
                    0 <= j < k ==> (#[trigger] out@[j]).0@ == self.fields_tree()[j].name && out@[j].1.tree()
                        == self.fields_tree()[j].layout && out@[j].1.reads(self.pool_v()),
            decreases self.fields@.len() - k,
        {
            let (name_idx, layout_ref) = self.fields[k];
            proof {
                assert(self.pool@.strings[name_idx as int] == self.pool.strings@[name_idx as int]@);
            }
            out.push((&self.pool.strings[name_idx as usize], resolve_ref(self.pool, layout_ref)));
            k = k + 1;
        }
        out
    }
}


impl<'a> MoveStructView<'a> {
    /// The struct's type tag.
    pub fn type_(&self) -> (r: &'a StructTag)
        ensures
            r@ == self.tag_v(),
    {
        self.type_
    }

    /// A view of the struct's fields.
    pub fn field_view(&self) -> (r: MoveFieldView<'a>)
        ensures
            r == self.field_view_v(),
    {
        self.fields
    }

    /// Number of fields.
    pub fn field_count(&self) -> (r: usize)
        ensures
            r == self.fields_tree().len(),
    {
        self.fields.field_count()
    }

    /// The name and layout of field `i`, or `None` when out of range.
    pub fn field(&self, i: usize) -> (r: Option<(&'a Identifier, MoveLayoutView<'a>)>)
        ensures
            r is Some <==> i < self.fields_tree().len(),
            r matches Some((n, v)) ==> n@ == self.fields_tree()[i as int].name && v.tree()
                == self.fields_tree()[i as int].layout,
    {
        self.fields.field(i)
    }

    /// All fields as (name, layout) pairs, in order.
    pub fn fields(&self) -> (r: Vec<(&'a Identifier, MoveLayoutView<'a>)>)
        ensures
            r@.len() == self.fields_tree().len(),
            forall|k: int|
                0 <= k < r@.len() ==> (#[trigger] r@[k]).0@ == self.fields_tree()[k].name && r@[k].1.tree()
                    == self.fields_tree()[k].layout,
    {
        self.fields.fields()
    }
}

impl<'a> MoveEnumView<'a> {
    /// The enum's type tag.
    pub fn type_(&self) -> (r: &'a StructTag)
        ensures
            r@ == self.tag_v(),
    {
        self.type_
    }

    /// Number of variants.
    pub fn variant_count(&self) -> (r: usize)
        ensures
            r == self.variants_tree().len(),
    {
        proof {
            lemma_variants_at(self.pool_v(), self.entries(), (self.pool_v().nodes.len() + 1) as nat);
        }
        self.variants.len()
    }

    /// The name, tag and fields of the variant at entry `i`.
    fn entry_view(&self, i: usize) -> (r: (&'a Identifier, u16, VariantFieldView<'a>))
        requires
            i < self.variants_tree().len(),
        ensures
            r.0@ == self.variants_tree()[i as int].name,
            r.1 == self.variants_tree()[i as int].tag,
            r.2.fields_tree() == self.variants_tree()[i as int].fields,
            r.2 matches VariantFieldView::Known(fv) ==> fv.pool_v() == self.pool_v(),
    {
        proof {
            use_type_invariant(self);
            lemma_variants_at(self.pool_v(), self.entries(), (self.pool_v().nodes.len() + 1) as nat);
            assert(self.entries()[i as int] == variant_entry_view(self.variants@[i as int]));
        }
        let entry = &self.variants[i];
        proof {
            assert(self.pool@.strings[entry.0 as int] == self.pool.strings@[entry.0 as int]@);
        }
        let name = &self.pool.strings[entry.0 as usize];
        let vfv = match &entry.2 {
            Some(fields) => VariantFieldView::Known(MoveFieldView { pool: self.pool, fields: fields.as_slice() }),
            None => VariantFieldView::Unknown,
        };
        (name, entry.1, vfv)
    }

    /// The name, tag and fields of the variant at position `i`, or `None`
    /// when out of range.
    pub fn variant(&self, i: usize) -> (r: Option<(&'a Identifier, u16, VariantFieldView<'a>)>)
        ensures
            r is Some <==> i < self.variants_tree().len(),
            r matches Some((n, t, vfv)) ==> n@ == self.variants_tree()[i as int].name && t
                == self.variants_tree()[i as int].tag && vfv.fields_tree() == self.variants_tree()[i as int].fields,
    {
        proof {
            lemma_variants_at(self.pool_v(), self.entries(), (self.pool_v().nodes.len() + 1) as nat);
        }
        if i < self.variants.len() {
            Some(self.entry_view(i))
        } else {
            None
        }
    }

    /// The name and fields of the first variant with tag `tag`, if any.
    pub fn variant_by_tag(&self, tag: u16) -> (r: Option<(&'a Identifier, VariantFieldView<'a>)>)
        ensures
            r is None <==> forall|k: int|
                0 <= k < self.variants_tree().len() ==> (#[trigger] self.variants_tree()[k]).tag != tag,
            r matches Some((n, vfv)) ==> exists|k: int|
                first_variant_tagged(self.variants_tree(), tag, k) && n@ == self.variants_tree()[k].name
                    && vfv.fields_tree() == self.variants_tree()[k].fields,
            r matches Some((_, vfv)) ==> (vfv matches VariantFieldView::Known(fv) ==> fv.pool_v()
                == self.pool_v()),
    {
        proof {
            lemma_variants_at(self.pool_v(), self.entries(), (self.pool_v().nodes.len() + 1) as nat);
        }
        let ghost vt = self.variants_tree();
        let mut k: usize = 0;
        while k < self.variants.len()
            invariant
                k <= self.variants@.len(),
                vt == self.variants_tree(),
                vt.len() == self.variants@.len(),
                forall|j: int| 0 <= j < k ==> (#[trigger] vt[j]).tag != tag,
            decreases self.variants@.len() - k,
        {
            let (name, t, vfv) = self.entry_view(k);
            if t == tag {
                assert(first_variant_tagged(vt, tag, k as int));
                return Some((name, vfv));
            }
            k = k + 1;
        }
        None
    }

    /// All variants as (name, tag, fields) triples, in stored order.
    pub fn variants(&self) -> (r: Vec<(&'a Identifier, u16, VariantFieldView<'a>)>)
        ensures
            r@.len() == self.variants_tree().len(),
            forall|k: int|
                0 <= k < r@.len() ==> (#[trigger] r@[k]).0@ == self.variants_tree()[k].name && r@[k].1
                    == self.variants_tree()[k].tag && r@[k].2.fields_tree() == self.variants_tree()[k].fields,
    {
        proof {
            lemma_variants_at(self.pool_v(), self.entries(), (self.pool_v().nodes.len() + 1) as nat);
        }
        let mut out: Vec<(&'a Identifier, u16, VariantFieldView<'a>)> = Vec::new();
        let mut k: usize = 0;
        while k < self.variants.len()
            invariant
                k <= self.variants@.len(),
                self.variants_tree().len() == self.variants@.len(),
                out@.len() == k,
                forall|j: int|
                    0 <= j < k ==> (#[trigger] out@[j]).0@ == self.variants_tree()[j].name && out@[j].1
                        == self.variants_tree()[j].tag && out@[j].2.fields_tree() == self.variants_tree()[j].fields,
            decreases self.variants@.len() - k,
        {
            out.push(self.entry_view(k));
            k = k + 1;
        }
        out
    }
}

impl<'a> MoveFieldLayoutView<'a> {
    /// A view of a field with the given name and layout.
    pub fn new(name: &'a Identifier, layout: MoveLayoutView<'a>) -> (r: MoveFieldLayoutView<'a>)
        ensures
            r.name_v() == name@,
            r.layout_v() == layout,
    {
        MoveFieldLayoutView { name, layout }
    }

    /// The field's name.
    pub fn name(&self) -> (r: &'a Identifier)
        ensures
            r@ == self.name_v(),
    {
        self.name
    }

    /// The field's layout.
    pub fn layout(&self) -> (r: MoveLayoutView<'a>)
        ensures
            r == self.layout_v(),
    {
        self.layout
    }
}


// ---------------------------------------------------------------------------
// Compressed layouts
// ---------------------------------------------------------------------------

/// Another handle on the same shared pool.
#[verifier::external_body]
fn share_pool(pool: &Arc<MoveTypeLayoutPool>) -> (r: Arc<MoveTypeLayoutPool>)
    ensures
        r == *pool,
{
    Arc::clone(pool)
}

/// A deduplicated, flat representation of an annotated layout tree.  Names
/// and struct tags are interned in a pool that sub-layouts share.
#[derive(Debug)]
pub struct MoveTypeLayout {
    pool: Arc<MoveTypeLayoutPool>,
    root: LayoutRef,
}

impl Clone for MoveTypeLayout {
    /// Another handle on the same layout; the pool is shared, not copied.
    fn clone(&self) -> (r: MoveTypeLayout)
        ensures
            r.pool_v() == self.pool_v(),
            r.root_ref() == self.root_ref(),
    {
        proof {
            use_type_invariant(self);
        }
        MoveTypeLayout { pool: share_pool(&self.pool), root: self.root }
    }
}

impl MoveTypeLayout {
    #[verifier::type_invariant]
    spec fn inv(self) -> bool {
        self.root.valid(self.pool@.nodes.len())
    }

    /// The value of the shared pool.
    pub closed spec fn pool_v(&self) -> PoolV {
        self.pool@
    }

    /// The reference to the root node.
    pub closed spec fn root_ref(&self) -> LayoutRef {
        self.root
    }

    /// The layout tree that this compressed layout denotes.
    pub open spec fn tree(&self) -> LayoutV {
        tree_at(self.pool_v(), self.root_ref())
    }

    /// A layout made of a pool and a root reference that resolves in it.
    pub(crate) fn from_parts(pool: MoveTypeLayoutPool, root: LayoutRef) -> (r: MoveTypeLayout)
        requires
            root.valid(pool@.nodes.len()),
        ensures
            r.pool_v() == pool@,
            r.root_ref() == root,
    {
        MoveTypeLayout { pool: Arc::new(pool), root }
    }

    /// Number of compound nodes in the table (leaf types are inline).
    pub fn node_count(&self) -> (r: usize)
        ensures
            r == self.pool_v().nodes.len(),
    {
        self.pool.node_count()
    }

    /// Number of unique interned names (of fields and variants).
    pub fn string_count(&self) -> (r: usize)
        ensures
            r == self.pool_v().strings.len(),
    {
        self.pool.string_count()
    }

    /// Number of unique interned struct tags.
    pub fn tag_count(&self) -> (r: usize)
        ensures
            r == self.pool_v().tags.len(),
    {
        self.pool.tag_count()
    }

    fn leaf(ty: LeafType) -> (r: MoveTypeLayout)
        ensures
            r.tree() == leaf_layout(ty),
            r.pool_v().nodes.len() == 0,
            r.pool_v().strings.len() == 0,
            r.pool_v().tags.len() == 0,
    {
        let root = LayoutRef::leaf(ty);
        MoveTypeLayout { pool: Arc::new(MoveTypeLayoutPool::empty()), root }
    }

    /// The `bool` layout, with an empty pool.
    pub fn bool() -> (r: MoveTypeLayout)
        ensures
            r.tree() == LayoutV::Bool,
            r.pool_v().nodes.len() == 0 && r.pool_v().strings.len() == 0 && r.pool_v().tags.len() == 0,
    {
        Self::leaf(LeafType::Bool)
    }

    /// The `u8` layout, with an empty pool.
    pub fn u8() -> (r: MoveTypeLayout)
        ensures
            r.tree() == LayoutV::U8,
            r.pool_v().nodes.len() == 0 && r.pool_v().strings.len() == 0 && r.pool_v().tags.len() == 0,
    {
        Self::leaf(LeafType::U8)
    }

    /// The `u16` layout, with an empty pool.
    pub fn u16() -> (r: MoveTypeLayout)
        ensures
            r.tree() == LayoutV::U16,
            r.pool_v().nodes.len() == 0 && r.pool_v().strings.len() == 0 && r.pool_v().tags.len() == 0,
    {
        Self::leaf(LeafType::U16)
    }

    /// The `u32` layout, with an empty pool.
    pub fn u32() -> (r: MoveTypeLayout)
        ensures
            r.tree() == LayoutV::U32,
            r.pool_v().nodes.len() == 0 && r.pool_v().strings.len() == 0 && r.pool_v().tags.len() == 0,
    {
        Self::leaf(LeafType::U32)
    }

    /// The `u64` layout, with an empty pool.
    pub fn u64() -> (r: MoveTypeLayout)
        ensures
            r.tree() == LayoutV::U64,
            r.pool_v().nodes.len() == 0 && r.pool_v().strings.len() == 0 && r.pool_v().tags.len() == 0,
    {
        Self::leaf(LeafType::U64)
    }

    /// The `u128` layout, with an empty pool.
    pub fn u128() -> (r: MoveTypeLayout)
        ensures
            r.tree() == LayoutV::U128,
            r.pool_v().nodes.len() == 0 && r.pool_v().strings.len() == 0 && r.pool_v().tags.len() == 0,
    {
        Self::leaf(LeafType::U128)
    }

    /// The `u256` layout, with an empty pool.
    pub fn u256() -> (r: MoveTypeLayout)
        ensures
            r.tree() == LayoutV::U256,
            r.pool_v().nodes.len() == 0 && r.pool_v().strings.len() == 0 && r.pool_v().tags.len() == 0,
    {
        Self::leaf(LeafType::U256)
    }

    /// The `address` layout, with an empty pool.
    pub fn address() -> (r: MoveTypeLayout)
        ensures
            r.tree() == LayoutV::Address,
            r.pool_v().nodes.len() == 0 && r.pool_v().strings.len() == 0 && r.pool_v().tags.len() == 0,
    {
        Self::leaf(LeafType::Address)
    }

    /// The `signer` layout, with an empty pool.
    pub fn signer() -> (r: MoveTypeLayout)
        ensures
            r.tree() == LayoutV::Signer,
            r.pool_v().nodes.len() == 0 && r.pool_v().strings.len() == 0 && r.pool_v().tags.len() == 0,
    {
        Self::leaf(LeafType::Signer)
    }

    /// A layout rooted at another reference of the same shared pool.
    pub(crate) fn sublayout(&self, root: LayoutRef) -> (r: MoveTypeLayout)
        requires
            root.valid(self.pool_v().nodes.len()),
        ensures
            r.pool_v() == self.pool_v(),
            r.root_ref() == root,
    {
        MoveTypeLayout { pool: share_pool(&self.pool), root }
    }

    /// A view for navigating this layout.
    pub fn as_view(&self) -> (r: MoveLayoutView<'_>)
        ensures
            r.tree() == self.tree(),
            r.reads(self.pool_v()),
    {
        proof {
            use_type_invariant(self);
        }
        resolve_ref(&*self.pool, self.root)
    }

    /// For a struct, the layout of field `index`, sharing this pool.
    pub fn struct_field_sublayout(&self, index: usize) -> (r: Option<MoveTypeLayout>)
        ensures
            r is Some <==> (self.tree() matches LayoutV::Struct(_, fs) && index < fs.len()),
            r matches Some(l) ==> l.pool_v() == self.pool_v() && (self.tree() matches LayoutV::Struct(_, fs)
                && l.tree() == fs[index as int].layout),
    {
        match self.as_view() {
            MoveLayoutView::Struct(sv) => {
                match sv.fields.raw_field(index) {
                    Some((_, field_ref)) => Some(self.sublayout(field_ref)),
                    None => None,
                }
            },
            _ => None,
        }
    }

    /// For a vector, the layout of its element, sharing this pool.
    pub fn vector_element_sublayout(&self) -> (r: Option<MoveTypeLayout>)
        ensures
            r is Some <==> self.tree() is Vector,
            r matches Some(l) ==> l.pool_v() == self.pool_v() && (self.tree() matches LayoutV::Vector(e)
                && l.tree() == *e),
    {
        match self.as_view() {
            MoveLayoutView::Vector(vv) => Some(self.sublayout(vv.raw_element())),
            _ => None,
        }
    }

    /// For an enum, the layout of field `field_index` of the first variant
    /// tagged `variant_tag`, sharing this pool.  `None` when there is no such
    /// variant, its fields are unknown, or the index is out of range.
    pub fn enum_variant_field_sublayout(&self, variant_tag: u16, field_index: usize) -> (r: Option<
        MoveTypeLayout,
    >)
        ensures
            r is Some <==> (self.tree() matches LayoutV::Enum(_, vs) && exists|k: int|
                first_variant_tagged(vs, variant_tag, k) && (vs[k].fields matches Some(fs)
                    && field_index < fs.len())),
            r matches Some(l) ==> l.pool_v() == self.pool_v() && (self.tree() matches LayoutV::Enum(_, vs)
                && exists|k: int|
                first_variant_tagged(vs, variant_tag, k) && (vs[k].fields matches Some(fs) && l.tree()
                    == fs[field_index as int].layout)),
    {
        match self.as_view() {
            MoveLayoutView::Enum(ev) => {
                let (_, vfv) = match ev.variant_by_tag(variant_tag) {
                    Some(x) => x,
                    None => {
                        return None;
                    },
                };
                let fv = match vfv {
                    VariantFieldView::Known(fv) => fv,
                    VariantFieldView::Unknown => {
                        return None;
                    },
                };
                match fv.raw_field(field_index) {
                    Some((_, field_ref)) => Some(self.sublayout(field_ref)),
                    None => None,
                }
            },
            _ => None,
        }
    }
}


// ---------------------------------------------------------------------------
// Inflation back to trees
// ---------------------------------------------------------------------------

/// Why a compressed layout could not be turned back into a tree.
#[derive(Debug, Clone, Copy, PartialEq, Eq, Structural)]
pub enum LayoutError {
    /// An enum variant's field layout is not known.
    UnknownVariantLayout,
}

impl LayoutError {
    /// The error's message.
    pub fn message(&self) -> (r: &'static str)
        ensures
            r@ == "cannot inflate enum with unknown variant layout"@,
    {
        match self {
            LayoutError::UnknownVariantLayout => "cannot inflate enum with unknown variant layout",
        }
    }
}

/// The tree of a leaf type.
fn leaf_to_tree(leaf: LeafType) -> (r: TreeMoveTypeLayout)
    ensures
        r@ == leaf_layout(leaf),
{
    match leaf {
        LeafType::Bool => TreeMoveTypeLayout::Bool,
        LeafType::U8 => TreeMoveTypeLayout::U8,
        LeafType::U16 => TreeMoveTypeLayout::U16,
        LeafType::U32 => TreeMoveTypeLayout::U32,
        LeafType::U64 => TreeMoveTypeLayout::U64,
        LeafType::U128 => TreeMoveTypeLayout::U128,
        LeafType::U256 => TreeMoveTypeLayout::U256,
        LeafType::Address => TreeMoveTypeLayout::Address,
        LeafType::Signer => TreeMoveTypeLayout::Signer,
    }
}

/// Inflate the layout that `r` denotes.
fn inflate_ref(pool: &MoveTypeLayoutPool, r: LayoutRef) -> (res: Result<TreeMoveTypeLayout, LayoutError>)
    requires
        r.valid(pool@.nodes.len()),
    ensures
        match res {
            Ok(t) => inflate_layout(tree_at(pool@, r)) == Some(t@),
            Err(e) => inflate_layout(tree_at(pool@, r)) is None && e == LayoutError::UnknownVariantLayout,
        },
    decreases r.rank(), 2nat,
{
    proof {
        use_type_invariant(pool);
    }
    match r.resolve() {
        ResolvedRef::Leaf(leaf) => Ok(leaf_to_tree(leaf)),
        ResolvedRef::Index(idx) => {
            let ghost p = pool@;
            proof {
                assert(node_ok(p, idx as int));
                assert(p.nodes[idx as int] == pool.nodes@[idx as int].view());
            }
            match &pool.nodes[idx] {
                MoveTypeNode::Vector(inner) => {
                    let e = inflate_ref(pool, *inner)?;
                    Ok(TreeMoveTypeLayout::Vector(Box::new(e)))
                },
                MoveTypeNode::Struct(st) => {
                    proof {
                        assert(p.tags[st.type_ as int] == pool.tags@[st.type_ as int]@);
                    }
                    let fields = inflate_field_list(pool, st.fields.as_slice(), Ghost((idx + 1) as nat))?;
                    let type_ = pool.tags[st.type_ as usize].duplicate();
                    Ok(TreeMoveTypeLayout::Struct(Box::new(MoveStructLayout { type_, fields })))
                },
                MoveTypeNode::Enum(en) => {
                    proof {
                        assert(p.tags[en.type_ as int] == pool.tags@[en.type_ as int]@);
                        lemma_entries_below(p, en.variants@.map_values(
                            |v: (u16, u16, Option<Vec<(u16, LayoutRef)>>)| variant_entry_view(v),
                        ), idx as nat);
                    }
                    let entries = inflate_variant_list(pool, en.variants.as_slice(), Ghost((idx + 1) as nat))?;
                    let type_ = pool.tags[en.type_ as usize].duplicate();
                    Ok(TreeMoveTypeLayout::Enum(Box::new(MoveEnumLayout::from_sorted(type_, entries))))
                },
            }
        },
    }
}

/// Inflate a list of fields whose references all have rank below `bound`.
fn inflate_field_list(pool: &MoveTypeLayoutPool, fs: &[(u16, LayoutRef)], Ghost(bound): Ghost<nat>) -> (res:
    Result<Vec<MoveFieldLayout>, LayoutError>)
    requires
        fields_ok(pool@, fs@, pool@.nodes.len()),
        forall|k: int| 0 <= k < fs@.len() ==> (#[trigger] fs@[k]).1.rank() < bound,
    ensures
        match res {
            Ok(v) => inflate_fields(fields_at(pool@, fs@, bound)) == Some(fields_view(v@)),
            Err(e) => inflate_fields(fields_at(pool@, fs@, bound)) is None && e == LayoutError::UnknownVariantLayout,
        },
    decreases bound, 0nat,
{
    let ghost p = pool@;
    let ghost ft = fields_at(p, fs@, bound);
    proof {
        lemma_fields_at(p, fs@, bound);
        lemma_inflate_fields(ft);
    }
    let mut out: Vec<MoveFieldLayout> = Vec::new();
    let mut k: usize = 0;
    while k < fs.len()
        invariant
            p == pool@,
            ft == fields_at(p, fs@, bound),
            ft.len() == fs@.len(),
            fields_ok(p, fs@, p.nodes.len()),
            forall|j: int| 0 <= j < fs@.len() ==> (#[trigger] fs@[j]).1.rank() < bound,
            forall|j: int| 0 <= j < fs@.len() ==> #[trigger] ft[j] == field_at(p, fs@[j], bound),
            k <= fs@.len(),
            out@.len() == k,
            forall|j: int|
                0 <= j < k ==> inflate_layout((#[trigger] ft[j]).layout) == Some(out@[j].layout@) && out@[j].name@
                    == ft[j].name,
        decreases fs@.len() - k,
    {
        let (name_idx, layout_ref) = fs[k];
        proof {
            assert(p.strings[name_idx as int] == pool.strings@[name_idx as int]@);
            assert(ft[k as int] == field_at(p, fs@[k as int], bound));
        }
        let layout = match inflate_ref(pool, layout_ref) {
            Ok(l) => l,
            Err(e) => {
                proof {
                    assert(inflate_layout(ft[k as int].layout) is None);
                    lemma_inflate_fields(ft);
                }
                return Err(e);
            },
        };
        let name = pool.strings[name_idx as usize].duplicate();
        out.push(MoveFieldLayout { name, layout });
        k = k + 1;
    }
    proof {
        lemma_fields_view(out@);
        let r = inflate_fields(ft)->0;
        assert(inflate_fields(ft) is Some);
        assert(r =~= fields_view(out@));
    }
    Ok(out)
}

/// Whether every field reference of the known variants has rank below
/// `bound`.
pub open spec fn entries_below(es: Seq<VariantEntryV>, bound: nat) -> bool {
    forall|k: int|
        0 <= k < es.len() ==> ((#[trigger] es[k]).2 matches Some(fs) ==> forall|j: int|
            0 <= j < fs.len() ==> (#[trigger] fs[j]).1.rank() < bound)
}

proof fn lemma_entries_below(p: PoolV, es: Seq<VariantEntryV>, b: nat)
    requires
        variants_ok(p, es, b),
    ensures
        entries_below(es, b + 1),
{
    assert forall|k: int| 0 <= k < es.len() implies ((#[trigger] es[k]).2 matches Some(fs) ==> forall|j: int|
        0 <= j < fs.len() ==> (#[trigger] fs[j]).1.rank() < b + 1) by {
        if let Some(fs) = es[k].2 {
            assert(fields_ok(p, fs, b));
        }
    }
}

/// Inflate a list of enum variants whose references all have rank below
/// `bound`, collecting them into key order.
fn inflate_variant_list(
    pool: &MoveTypeLayoutPool,
    vs: &[(u16, u16, Option<Vec<(u16, LayoutRef)>>)],
    Ghost(bound): Ghost<nat>,
) -> (res: Result<Vec<((Identifier, u16), Vec<MoveFieldLayout>)>, LayoutError>)
    requires
        variants_ok(pool@, vs@.map_values(|v: (u16, u16, Option<Vec<(u16, LayoutRef)>>)| variant_entry_view(v)), pool@.nodes.len()),
        entries_below(vs@.map_values(|v: (u16, u16, Option<Vec<(u16, LayoutRef)>>)| variant_entry_view(v)), bound),
    ensures
        match res {
            Ok(es) => inflate_variants(
                variants_at(pool@, vs@.map_values(|v: (u16, u16, Option<Vec<(u16, LayoutRef)>>)| variant_entry_view(v)), bound),
            ) matches Some(x) && entries_view(es@) == from_variants(x) && crate::variant_order::variants_sorted(entries_view(es@)),
            Err(e) => inflate_variants(
                variants_at(pool@, vs@.map_values(|v: (u16, u16, Option<Vec<(u16, LayoutRef)>>)| variant_entry_view(v)), bound),
            ) is None && e == LayoutError::UnknownVariantLayout,
        },
    decreases bound, 1nat,
{
    let ghost p = pool@;
    let ghost es = vs@.map_values(|v: (u16, u16, Option<Vec<(u16, LayoutRef)>>)| variant_entry_view(v));
    let ghost vt = variants_at(p, es, bound);
    proof {
        lemma_variants_at(p, es, bound);
        lemma_inflate_variants(vt);
    }
    let mut entries: Vec<((Identifier, u16), Vec<MoveFieldLayout>)> = Vec::new();
    let ghost mut infl: Seq<VariantV> = Seq::empty();
    let mut k: usize = 0;
    while k < vs.len()
        invariant
            p == pool@,
            es == vs@.map_values(|v: (u16, u16, Option<Vec<(u16, LayoutRef)>>)| variant_entry_view(v)),
            vt == variants_at(p, es, bound),
            vt.len() == vs@.len(),
            variants_ok(p, es, p.nodes.len()),
            entries_below(es, bound),
            inflate_variants(vt) is Some <==> forall|k: int|
                0 <= k < vt.len() ==> ((#[trigger] vt[k]).fields matches Some(fs) && inflate_fields(fs) is Some),
            forall|j: int| 0 <= j < vs@.len() ==> #[trigger] vt[j] == variant_at(p, es[j], bound),
            k <= vs@.len(),
            infl.len() == k,
            forall|j: int|
                0 <= j < k ==> ((#[trigger] vt[j]).fields matches Some(fs) && inflate_fields(fs) matches Some(f)
                    && infl[j] == (VariantV { name: vt[j].name, tag: vt[j].tag, fields: Some(f) })),
            entries_view(entries@) == from_variants(infl),
        decreases vs@.len() - k,
    {
        let entry = &vs[k];
        proof {
            assert(es[k as int] == variant_entry_view(vs@[k as int]));
            assert(vt[k as int] == variant_at(p, es[k as int], bound));
            assert(p.strings[entry.0 as int] == pool.strings@[entry.0 as int]@);
        }
        let fields = match &entry.2 {
            Some(f) => {
                proof {
                    assert(fields_ok(p, f@, p.nodes.len()));
                    assert(es[k as int].2 == Some(f@));
                }
                match inflate_field_list(pool, f.as_slice(), Ghost(bound)) {
                    Ok(fl) => fl,
                    Err(e) => {
                        proof {
                            assert(!(vt[k as int].fields matches Some(fs) && inflate_fields(fs) is Some));
                        }
                        return Err(e);
                    },
                }
            },
            None => {
                proof {
                    assert(!(vt[k as int].fields matches Some(fs) && inflate_fields(fs) is Some));
                }
                return Err(LayoutError::UnknownVariantLayout);
            },
        };
        let name = pool.strings[entry.0 as usize].duplicate();
        let e = ((name, entry.1), fields);
        let ghost x = entry_view(e);
        insert_entry(&mut entries, e);
        proof {
            let infl2 = infl.push(x);
            assert(infl2.drop_last() =~= infl);
            infl = infl2;
        }
        k = k + 1;
    }
    proof {
        let r = inflate_variants(vt)->0;
        assert(inflate_variants(vt) is Some);
        assert(r =~= infl);
        lemma_from_variants_sorted(infl);
    }
    Ok(entries)
}

impl<'a> MoveLayoutView<'a> {
    /// Reconstruct the equivalent tree layout.  Fails when some enum
    /// variant's layout is unknown.
    pub fn inflate(&self) -> (res: Result<TreeMoveTypeLayout, LayoutError>)
        ensures
            match res {
                Ok(t) => inflate_layout(self.tree()) == Some(t@),
                Err(e) => inflate_layout(self.tree()) is None && e == LayoutError::UnknownVariantLayout,
            },
    {
        match self {
            MoveLayoutView::Bool => Ok(TreeMoveTypeLayout::Bool),
            MoveLayoutView::U8 => Ok(TreeMoveTypeLayout::U8),
            MoveLayoutView::U16 => Ok(TreeMoveTypeLayout::U16),
            MoveLayoutView::U32 => Ok(TreeMoveTypeLayout::U32),
            MoveLayoutView::U64 => Ok(TreeMoveTypeLayout::U64),
            MoveLayoutView::U128 => Ok(TreeMoveTypeLayout::U128),
            MoveLayoutView::U256 => Ok(TreeMoveTypeLayout::U256),
            MoveLayoutView::Address => Ok(TreeMoveTypeLayout::Address),
            MoveLayoutView::Signer => Ok(TreeMoveTypeLayout::Signer),
            MoveLayoutView::Vector(vv) => {
                proof {
                    use_type_invariant(vv);
                }
                let e = inflate_ref(vv.pool, vv.element)?;
                Ok(TreeMoveTypeLayout::Vector(Box::new(e)))
            },
            MoveLayoutView::Struct(sv) => {
                proof {
                    use_type_invariant(&sv.fields);
                }
                let fields = inflate_field_list(
                    sv.fields.pool,
                    sv.fields.fields,
                    Ghost((sv.fields.pool@.nodes.len() + 1) as nat),
                )?;
                Ok(TreeMoveTypeLayout::Struct(Box::new(MoveStructLayout { type_: sv.type_.duplicate(), fields })))
            },
            MoveLayoutView::Enum(ev) => {
                proof {
                    use_type_invariant(ev);
                    lemma_entries_below(ev.pool@, ev.entries(), ev.pool@.nodes.len());
                }
                let entries = inflate_variant_list(
                    ev.pool,
                    ev.variants,
                    Ghost((ev.pool@.nodes.len() + 1) as nat),
                )?;
                Ok(TreeMoveTypeLayout::Enum(Box::new(MoveEnumLayout::from_sorted(ev.type_.duplicate(), entries))))
            },
        }
    }
}

impl MoveTypeLayout {
    /// Inflate back into a tree layout.
    pub fn inflate(&self) -> (res: Result<TreeMoveTypeLayout, LayoutError>)
        ensures
            match res {
                Ok(t) => inflate_layout(self.tree()) == Some(t@),
                Err(e) => inflate_layout(self.tree()) is None && e == LayoutError::UnknownVariantLayout,
            },
    {
        self.as_view().inflate()
    }
}


// ---------------------------------------------------------------------------
// Display text
// ---------------------------------------------------------------------------

/// Append the name of a leaf type.
fn push_leaf_text(out: &mut String, leaf: LeafType)
    ensures
        final(out)@ == old(out)@ + layout_text(leaf_layout(leaf)),
{
    match leaf {
        LeafType::Bool => push_text(out, "bool"),
        LeafType::U8 => push_text(out, "u8"),
        LeafType::U16 => push_text(out, "u16"),
        LeafType::U32 => push_text(out, "u32"),
        LeafType::U64 => push_text(out, "u64"),
        LeafType::U128 => push_text(out, "u128"),
        LeafType::U256 => push_text(out, "u256"),
        LeafType::Address => push_text(out, "address"),
        LeafType::Signer => push_text(out, "signer"),
    }
}

/// Append the text of the layout that `r` denotes.
fn push_ref_text(out: &mut String, pool: &MoveTypeLayoutPool, r: LayoutRef)
    requires
        r.valid(pool@.nodes.len()),
    ensures
        final(out)@ == old(out)@ + layout_text(tree_at(pool@, r)),
    decreases r.rank(), 2nat,
{
    proof {
        use_type_invariant(pool);
    }
    let ghost start = old(out)@;
    match r.resolve() {
        ResolvedRef::Leaf(leaf) => push_leaf_text(out, leaf),
        ResolvedRef::Index(idx) => {
            let ghost p = pool@;
            proof {
                assert(node_ok(p, idx as int));
                assert(p.nodes[idx as int] == pool.nodes@[idx as int].view());
            }
            match &pool.nodes[idx] {
                MoveTypeNode::Vector(inner) => {
                    push_text(out, "vector<");
                    push_ref_text(out, pool, *inner);
                    push_text(out, ">");
                    proof {
                        assert(out@ =~= start + layout_text(tree_at(p, r)));
                    }
                },
                MoveTypeNode::Struct(st) => {
                    proof {
                        assert(p.tags[st.type_ as int] == pool.tags@[st.type_ as int]@);
                    }
                    push_struct_tag(out, &pool.tags[st.type_ as usize]);
                    push_text(out, " { ");
                    push_field_list_text(out, pool, st.fields.as_slice(), Ghost((idx + 1) as nat));
                    push_text(out, " }");
                    proof {
                        lemma_fields_at(p, st.fields@, (idx + 1) as nat);
                        assert(out@ =~= start + layout_text(tree_at(p, r)));
                    }
                },
                MoveTypeNode::Enum(en) => {
                    proof {
                        assert(p.tags[en.type_ as int] == pool.tags@[en.type_ as int]@);
                        lemma_entries_below(p, en.variants@.map_values(
                            |v: (u16, u16, Option<Vec<(u16, LayoutRef)>>)| variant_entry_view(v),
                        ), idx as nat);
                    }
                    push_struct_tag(out, &pool.tags[en.type_ as usize]);
                    push_text(out, " { ");
                    push_variant_list_text(out, pool, en.variants.as_slice(), Ghost((idx + 1) as nat));
                    push_text(out, " }");
                    proof {
                        lemma_variants_at(
                            p,
                            en.variants@.map_values(|v: (u16, u16, Option<Vec<(u16, LayoutRef)>>)| variant_entry_view(v)),
                            (idx + 1) as nat,
                        );
                        assert(out@ =~= start + layout_text(tree_at(p, r)));
                    }
                },
            }
        },
    }
}

/// Append the text of a list of fields whose references all have rank below
/// `bound`.
fn push_field_list_text(out: &mut String, pool: &MoveTypeLayoutPool, fs: &[(u16, LayoutRef)], Ghost(bound): Ghost<nat>)
    requires
        fields_ok(pool@, fs@, pool@.nodes.len()),
        forall|k: int| 0 <= k < fs@.len() ==> (#[trigger] fs@[k]).1.rank() < bound,
    ensures
        final(out)@ == old(out)@ + field_list_text(fields_at(pool@, fs@, bound), fs@.len() as int),
    decreases bound, 0nat,
{
    let ghost p = pool@;
    let ghost ft = fields_at(p, fs@, bound);
    let ghost start = old(out)@;
    proof {
        lemma_fields_at(p, fs@, bound);
    }
    let mut k: usize = 0;
    while k < fs.len()
        invariant
            p == pool@,
            ft == fields_at(p, fs@, bound),
            ft.len() == fs@.len(),
            fields_ok(p, fs@, p.nodes.len()),
            forall|j: int| 0 <= j < fs@.len() ==> (#[trigger] fs@[j]).1.rank() < bound,
            forall|j: int| 0 <= j < fs@.len() ==> #[trigger] ft[j] == field_at(p, fs@[j], bound),
            k <= fs@.len(),
            out@ == start + field_list_text(ft, k as int),
        decreases fs@.len() - k,
    {
        let (name_idx, layout_ref) = fs[k];
        proof {
            assert(p.strings[name_idx as int] == pool.strings@[name_idx as int]@);
            assert(ft[k as int] == field_at(p, fs@[k as int], bound));
        }
        let ghost before = out@;
        if k > 0 {
            push_text(out, ", ");
        }
        push_ident(out, &pool.strings[name_idx as usize]);
        push_text(out, ": ");
        push_ref_text(out, pool, layout_ref);
        proof {
            assert(out@ =~= start + field_list_text(ft, k + 1));
        }
        k = k + 1;
    }
}

/// Append the text of a list of enum variants whose references all have
/// rank below `bound`.
fn push_variant_list_text(
    out: &mut String,
    pool: &MoveTypeLayoutPool,
    vs: &[(u16, u16, Option<Vec<(u16, LayoutRef)>>)],
    Ghost(bound): Ghost<nat>,
)
    requires
        variants_ok(pool@, vs@.map_values(|v: (u16, u16, Option<Vec<(u16, LayoutRef)>>)| variant_entry_view(v)), pool@.nodes.len()),
        entries_below(vs@.map_values(|v: (u16, u16, Option<Vec<(u16, LayoutRef)>>)| variant_entry_view(v)), bound),
    ensures
        final(out)@ == old(out)@ + variant_list_text(
            variants_at(pool@, vs@.map_values(|v: (u16, u16, Option<Vec<(u16, LayoutRef)>>)| variant_entry_view(v)), bound),
            vs@.len() as int,
        ),
    decreases bound, 1nat,
{
    let ghost p = pool@;
    let ghost es = vs@.map_values(|v: (u16, u16, Option<Vec<(u16, LayoutRef)>>)| variant_entry_view(v));
    let ghost vt = variants_at(p, es, bound);
    let ghost start = old(out)@;
    proof {
        lemma_variants_at(p, es, bound);
    }
    let mut k: usize = 0;
    while k < vs.len()
        invariant
            p == pool@,
            es == vs@.map_values(|v: (u16, u16, Option<Vec<(u16, LayoutRef)>>)| variant_entry_view(v)),
            vt == variants_at(p, es, bound),
            vt.len() == vs@.len(),
            variants_ok(p, es, p.nodes.len()),
            entries_below(es, bound),
            forall|j: int| 0 <= j < vs@.len() ==> #[trigger] vt[j] == variant_at(p, es[j], bound),
            k <= vs@.len(),
            out@ == start + variant_list_text(vt, k as int),
        decreases vs@.len() - k,
    {
        let entry = &vs[k];
        proof {
            assert(es[k as int] == variant_entry_view(vs@[k as int]));
            assert(vt[k as int] == variant_at(p, es[k as int], bound));
            assert(p.strings[entry.0 as int] == pool.strings@[entry.0 as int]@);
        }
        if k > 0 {
            push_text(out, ", ");
        }
        push_ident(out, &pool.strings[entry.0 as usize]);
        push_text(out, "(");
        match &entry.2 {
            Some(f) => {
                proof {
                    assert(fields_ok(p, f@, p.nodes.len()));
                    assert(es[k as int].2 == Some(f@));
                    lemma_fields_at(p, f@, bound);
                }
                push_field_list_text(out, pool, f.as_slice(), Ghost(bound));
            },
            None => {
                push_text(out, "?");
            },
        }
        push_text(out, ")");
        proof {
            assert(out@ =~= start + variant_list_text(vt, k + 1));
        }
        k = k + 1;
    }
}

impl<'a> MoveLayoutView<'a> {
    /// Append the view's text.
    fn push_text_to(&self, out: &mut String)
        ensures
            final(out)@ == old(out)@ + layout_text(self.tree()),
    {
        let ghost start = old(out)@;
        match self {
            MoveLayoutView::Bool => push_text(out, "bool"),
            MoveLayoutView::U8 => push_text(out, "u8"),
            MoveLayoutView::U16 => push_text(out, "u16"),
            MoveLayoutView::U32 => push_text(out, "u32"),
            MoveLayoutView::U64 => push_text(out, "u64"),
            MoveLayoutView::U128 => push_text(out, "u128"),
            MoveLayoutView::U256 => push_text(out, "u256"),
            MoveLayoutView::Address => push_text(out, "address"),
            MoveLayoutView::Signer => push_text(out, "signer"),
            MoveLayoutView::Vector(vv) => {
                proof {
                    use_type_invariant(vv);
                }
                push_text(out, "vector<");
                push_ref_text(out, vv.pool, vv.element);
                push_text(out, ">");
                proof {
                    assert(out@ =~= start + layout_text(self.tree()));
                }
            },
            MoveLayoutView::Struct(sv) => sv.push_text_to(out),
            MoveLayoutView::Enum(ev) => ev.push_text_to(out),
        }
    }

    /// The view's text, as its `Display` form prints it.
    pub fn to_string(&self) -> (r: String)
        ensures
            r@ == layout_text(self.tree()),
    {
        let mut out = String::new();
        self.push_text_to(&mut out);
        proof {
            assert(out@ =~= layout_text(self.tree()));
        }
        out
    }
}

impl<'a> MoveStructView<'a> {
    /// Append the struct's text.
    fn push_text_to(&self, out: &mut String)
        ensures
            final(out)@ == old(out)@ + layout_text(LayoutV::Struct(self.tag_v(), self.fields_tree())),
    {
        proof {
            use_type_invariant(&self.fields);
        }
        let ghost start = old(out)@;
        push_struct_tag(out, self.type_);
        push_text(out, " { ");
        push_field_list_text(out, self.fields.pool, self.fields.fields, Ghost((self.fields.pool@.nodes.len() + 1) as nat));
        push_text(out, " }");
        proof {
            lemma_fields_at(self.fields.pool@, self.fields.fields@, (self.fields.pool@.nodes.len() + 1) as nat);
            assert(out@ =~= start + layout_text(LayoutV::Struct(self.tag_v(), self.fields_tree())));
        }
    }

    /// The struct's text, as its `Display` form prints it.
    pub fn to_string(&self) -> (r: String)
        ensures
            r@ == layout_text(LayoutV::Struct(self.tag_v(), self.fields_tree())),
    {
        let mut out = String::new();
        self.push_text_to(&mut out);
        proof {
            assert(out@ =~= layout_text(LayoutV::Struct(self.tag_v(), self.fields_tree())));
        }
        out
    }
}

impl<'a> MoveEnumView<'a> {
    /// Append the enum's text.
    fn push_text_to(&self, out: &mut String)
        ensures
            final(out)@ == old(out)@ + layout_text(LayoutV::Enum(self.tag_v(), self.variants_tree())),
    {
        proof {
            use_type_invariant(self);
            lemma_entries_below(self.pool@, self.entries(), self.pool@.nodes.len());
        }
        let ghost start = old(out)@;
        push_struct_tag(out, self.type_);
        push_text(out, " { ");
        push_variant_list_text(out, self.pool, self.variants, Ghost((self.pool@.nodes.len() + 1) as nat));
        push_text(out, " }");
        proof {
            lemma_variants_at(self.pool@, self.entries(), (self.pool@.nodes.len() + 1) as nat);
            assert(out@ =~= start + layout_text(LayoutV::Enum(self.tag_v(), self.variants_tree())));
        }
    }

    /// The enum's text, as its `Display` form prints it.
    pub fn to_string(&self) -> (r: String)
        ensures
            r@ == layout_text(LayoutV::Enum(self.tag_v(), self.variants_tree())),
    {
        let mut out = String::new();
        self.push_text_to(&mut out);
        proof {
            assert(out@ =~= layout_text(LayoutV::Enum(self.tag_v(), self.variants_tree())));
        }
        out
    }
}

// ---------------------------------------------------------------------------
// Datatype layouts
// ---------------------------------------------------------------------------

/// A compressed layout known to be a struct or an enum.
#[derive(Debug)]
pub struct MoveDatatypeLayout(MoveTypeLayout);

impl MoveDatatypeLayout {
    #[verifier::type_invariant]
    spec fn inv(self) -> bool {
        self.0.tree() is Struct || self.0.tree() is Enum
    }

    /// The wrapped layout.
    pub closed spec fn layout_v(&self) -> MoveTypeLayout {
        self.0
    }

    /// The layout tree.
    pub open spec fn tree(&self) -> LayoutV {
        self.layout_v().tree()
    }

    /// Wrap a layout that is a struct or an enum; `None` for a primitive or a
    /// vector.
    pub fn new(layout: MoveTypeLayout) -> (r: Option<MoveDatatypeLayout>)
        ensures
            r is Some <==> (layout.tree() is Struct || layout.tree() is Enum),
            r matches Some(d) ==> d.layout_v() == layout,
    {
        let is_datatype = match layout.as_view() {
            MoveLayoutView::Struct(_) | MoveLayoutView::Enum(_) => true,
            _ => false,
        };
        if is_datatype {
            Some(MoveDatatypeLayout(layout))
        } else {
            None
        }
    }

    /// The underlying layout.
    pub fn into_layout(self) -> (r: MoveTypeLayout)
        ensures
            r == self.layout_v(),
    {
        self.0
    }

    /// A reference to the underlying layout.
    pub fn as_layout(&self) -> (r: &MoveTypeLayout)
        ensures
            *r == self.layout_v(),
    {
        &self.0
    }

    /// A view for navigating this layout.
    pub fn as_view(&self) -> (r: MoveLayoutView<'_>)
        ensures
            r.tree() == self.tree(),
            r.reads(self.layout_v().pool_v()),
    {
        self.0.as_view()
    }

    /// Inflate back into a tree datatype layout.
    pub fn inflate(&self) -> (res: Result<TreeMoveDatatypeLayout, LayoutError>)
        ensures
            match res {
                Ok(d) => inflate_layout(self.tree()) == Some(d@),
                Err(e) => inflate_layout(self.tree()) is None && e == LayoutError::UnknownVariantLayout,
            },
    {
        proof {
            use_type_invariant(self);
        }
        let tree = self.0.inflate()?;
        match tree {
            TreeMoveTypeLayout::Struct(s) => Ok(TreeMoveDatatypeLayout::Struct(s)),
            TreeMoveTypeLayout::Enum(e) => Ok(TreeMoveDatatypeLayout::Enum(e)),
            _ => {
                proof {
                    assert(false);
                }
                Err(LayoutError::UnknownVariantLayout)
            },
        }
    }
}

// ---------------------------------------------------------------------------
// Type tags of layouts
// ---------------------------------------------------------------------------

/// Whether layout `t` is a layout of type `tt`: the primitive types match,
/// vectors match element-wise, and a struct or enum matches the struct type
/// with its tag.
pub open spec fn layout_is_type(t: LayoutV, tt: TypeTagV) -> bool
    decreases t,
{
    match t {
        LayoutV::Bool => tt is Bool,
        LayoutV::U8 => tt is U8,
        LayoutV::U16 => tt is U16,
        LayoutV::U32 => tt is U32,
        LayoutV::U64 => tt is U64,
        LayoutV::U128 => tt is U128,
        LayoutV::U256 => tt is U256,
        LayoutV::Address => tt is Address,
        LayoutV::Signer => tt is Signer,
        LayoutV::Vector(e) => match tt {
            TypeTagV::Vector(inner) => layout_is_type(*e, *inner),
            _ => false,
        },
        LayoutV::Struct(tag, _) => tt == TypeTagV::Struct(tag),
        LayoutV::Enum(tag, _) => tt == TypeTagV::Struct(tag),
    }
}

/// The type of layout `t`.
pub open spec fn layout_type_tag(t: LayoutV) -> TypeTagV
    decreases t,
{
    match t {
        LayoutV::Bool => TypeTagV::Bool,
        LayoutV::U8 => TypeTagV::U8,
        LayoutV::U16 => TypeTagV::U16,
        LayoutV::U32 => TypeTagV::U32,
        LayoutV::U64 => TypeTagV::U64,
        LayoutV::U128 => TypeTagV::U128,
        LayoutV::U256 => TypeTagV::U256,
        LayoutV::Address => TypeTagV::Address,
        LayoutV::Signer => TypeTagV::Signer,
        LayoutV::Vector(e) => TypeTagV::Vector(Box::new(layout_type_tag(*e))),
        LayoutV::Struct(tag, _) => TypeTagV::Struct(tag),
        LayoutV::Enum(tag, _) => TypeTagV::Struct(tag),
    }
}

impl<'a> MoveStructView<'a> {
    /// Whether `t` is this struct's type.
    pub fn is_type(&self, t: &TypeTag) -> (r: bool)
        ensures
            r == (t@ == TypeTagV::Struct(self.tag_v())),
    {
        match t {
            TypeTag::Struct(s) => (**s).equals(self.type_),
            _ => false,
        }
    }
}

impl<'a> MoveEnumView<'a> {
    /// Whether `t` is this enum's type.
    pub fn is_type(&self, t: &TypeTag) -> (r: bool)
        ensures
            r == (t@ == TypeTagV::Struct(self.tag_v())),
    {
        match t {
            TypeTag::Struct(s) => (**s).equals(self.type_),
            _ => false,
        }
    }
}

impl<'a> MoveLayoutView<'a> {
    /// Whether this is a layout of type `t`.
    pub fn is_type(&self, t: &TypeTag) -> (r: bool)
        ensures
            r == layout_is_type(self.tree(), t@),
        decreases t,
    {
        match self {
            MoveLayoutView::Bool => matches!(t, TypeTag::Bool),
            MoveLayoutView::U8 => matches!(t, TypeTag::U8),
            MoveLayoutView::U16 => matches!(t, TypeTag::U16),
            MoveLayoutView::U32 => matches!(t, TypeTag::U32),
            MoveLayoutView::U64 => matches!(t, TypeTag::U64),
            MoveLayoutView::U128 => matches!(t, TypeTag::U128),
            MoveLayoutView::U256 => matches!(t, TypeTag::U256),
            MoveLayoutView::Address => matches!(t, TypeTag::Address),
            MoveLayoutView::Signer => matches!(t, TypeTag::Signer),
            MoveLayoutView::Struct(sv) => sv.is_type(t),
            MoveLayoutView::Vector(vv) => {
                if let TypeTag::Vector(inner) = t {
                    vv.element().is_type(&**inner)
                } else {
                    false
                }
            },
            MoveLayoutView::Enum(ev) => ev.is_type(t),
        }
    }
}

/// The type tag of the layout that `r` denotes.
fn type_tag_at(pool: &MoveTypeLayoutPool, r: LayoutRef) -> (t: TypeTag)
    requires
        r.valid(pool@.nodes.len()),
    ensures
        t@ == layout_type_tag(tree_at(pool@, r)),
    decreases r.rank(),
{
    proof {
        use_type_invariant(pool);
    }
    match r.resolve() {
        ResolvedRef::Leaf(leaf) => match leaf {
            LeafType::Bool => TypeTag::Bool,
            LeafType::U8 => TypeTag::U8,
            LeafType::U16 => TypeTag::U16,
            LeafType::U32 => TypeTag::U32,
            LeafType::U64 => TypeTag::U64,
            LeafType::U128 => TypeTag::U128,
            LeafType::U256 => TypeTag::U256,
            LeafType::Address => TypeTag::Address,
            LeafType::Signer => TypeTag::Signer,
        },
        ResolvedRef::Index(idx) => {
            let ghost p = pool@;
            proof {
                assert(node_ok(p, idx as int));
                assert(p.nodes[idx as int] == pool.nodes@[idx as int].view());
            }
            match &pool.nodes[idx] {
                MoveTypeNode::Vector(inner) => TypeTag::Vector(Box::new(type_tag_at(pool, *inner))),
                MoveTypeNode::Struct(st) => {
                    proof {
                        assert(p.tags[st.type_ as int] == pool.tags@[st.type_ as int]@);
                    }
                    TypeTag::Struct(Box::new(pool.tags[st.type_ as usize].duplicate()))
                },
                MoveTypeNode::Enum(en) => {
                    proof {
                        assert(p.tags[en.type_ as int] == pool.tags@[en.type_ as int]@);
                    }
                    TypeTag::Struct(Box::new(pool.tags[en.type_ as usize].duplicate()))
                },
            }
        },
    }
}

impl TypeTag {
    /// The type that a layout view is a layout of.
    pub fn from_view(view: MoveLayoutView<'_>) -> (r: TypeTag)
        ensures
            r@ == layout_type_tag(view.tree()),
    {
        match view {
            MoveLayoutView::Bool => TypeTag::Bool,
            MoveLayoutView::U8 => TypeTag::U8,
            MoveLayoutView::U16 => TypeTag::U16,
            MoveLayoutView::U32 => TypeTag::U32,
            MoveLayoutView::U64 => TypeTag::U64,
            MoveLayoutView::U128 => TypeTag::U128,
            MoveLayoutView::U256 => TypeTag::U256,
            MoveLayoutView::Address => TypeTag::Address,
            MoveLayoutView::Signer => TypeTag::Signer,
            MoveLayoutView::Vector(vv) => {
                proof {
                    use_type_invariant(vv);
                }
                TypeTag::Vector(Box::new(type_tag_at(vv.pool, vv.element)))
            },
            MoveLayoutView::Struct(sv) => TypeTag::Struct(Box::new(sv.type_.duplicate())),
            MoveLayoutView::Enum(ev) => TypeTag::Struct(Box::new(ev.type_.duplicate())),
        }
    }
}

/// A layout is of type `tt` exactly when `tt` is the layout's type tag.
pub proof fn lemma_is_type_iff_type_tag(t: LayoutV, tt: TypeTagV)
    ensures
        layout_is_type(t, tt) <==> layout_type_tag(t) == tt,
    decreases t,
{
    if let LayoutV::Vector(e) = t {
        if let TypeTagV::Vector(inner) = tt {
            lemma_is_type_iff_type_tag(*e, *inner);
        }
    }
}

} // verus!
