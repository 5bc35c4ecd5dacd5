//! Incremental construction of compressed layouts, with every node, name
//! and struct tag interned once.

use indexmap::IndexSet;
use vstd::prelude::*;
use crate::language_storage::{Identifier, StructTag, StructTagV};
use crate::annotated_value::{
    FieldV, LayoutV, MoveTypeLayout as TreeMoveTypeLayout, VariantV, entries_view, fields_view, lemma_entries_view,
    lemma_fields_view, tree_wf,
};
use crate::layout::{
    LayoutRef, MoveTypeLayout, MoveTypeLayoutPool, LeafType, MoveEnumNode, MoveStructNode, MoveTypeNode, NodeV, PoolV, fields_at, fields_ok, lemma_fields_at,
    lemma_node_tree_compound, lemma_tree_at_extends, lemma_variants_at, leaf_layout, node_ok, pool_extends,
    pool_view_of, pool_wf, tree_at, variants_at, variants_ok,
};
use crate::contents::{
    Contents, contents_finite, contents_sub, field_name_set, fields_contents, fits, join, layout_contents,
    lemma_fields_contents_finite, lemma_fields_contents_mono, lemma_fits_sub, lemma_layout_contents_finite,
    lemma_room_set, lemma_variants_contents_finite, lemma_variants_contents_mono, no_contents, variant_names_upto,
    variant_v_names, variants_contents,
};
use crate::keys::{bytes_key, tag_key, node_key, push_bytes_key, push_tag_key, node_key_of,
    lemma_bytes_key_injective, lemma_tag_key_injective, lemma_node_key_injective};

verus! {

// ---------------------------------------------------------------------------
// The interning sets
// ---------------------------------------------------------------------------

/// `indexmap::IndexSet`, held opaquely.
#[verifier::external_type_specification]
#[verifier::external_body]
#[verifier::reject_recursive_types(T)]
#[verifier::reject_recursive_types(S)]
pub struct ExIndexSet<T, S>(IndexSet<T, S>);

/// The keys that an index set of keys holds, in insertion order.
pub uninterp spec fn key_set_items(s: IndexSet<Vec<u64>>) -> Seq<Seq<u64>>;

/// `IndexSet::new`: a set that holds no key.
#[verifier::external_body]
fn key_set_new() -> (r: IndexSet<Vec<u64>>)
    ensures
        key_set_items(r) == Seq::<Seq<u64>>::empty(),
{
    IndexSet::new()
}

/// `IndexSet::insert_full`: when an equal key is held, its index and `false`
/// are returned and the set is unchanged; otherwise the key is appended and
/// its index (the old length) and `true` are returned.
#[verifier::external_body]
fn key_set_insert_full(s: &mut IndexSet<Vec<u64>>, key: Vec<u64>) -> (r: (usize, bool))
    ensures
        key_set_items(*old(s)).contains(key@) ==> {
            &&& !r.1
            &&& r.0 < key_set_items(*old(s)).len()
            &&& key_set_items(*old(s))[r.0 as int] == key@
            &&& key_set_items(*final(s)) == key_set_items(*old(s))
        },
        !key_set_items(*old(s)).contains(key@) ==> {
            &&& r.1
            &&& r.0 == key_set_items(*old(s)).len()
            &&& key_set_items(*final(s)) == key_set_items(*old(s)).push(key@)
        },
{
    s.insert_full(key)
}

// ---------------------------------------------------------------------------
// Canonical references and distinct node trees
// ---------------------------------------------------------------------------

/// A leaf reference is canonical when its value is exactly the tag bit plus
/// the discriminant, as [`LayoutRef::leaf`] makes it.
pub open spec fn leaf_canonical(r: LayoutRef) -> bool {
    r.is_leaf() ==> r.0 <= 0x8008
}

/// Whether every reference that node `n` holds is canonical.
pub open spec fn node_refs_canonical(n: NodeV) -> bool {
    match n {
        NodeV::Vector(e) => leaf_canonical(e),
        NodeV::Struct(_, fs) => forall|k: int| 0 <= k < fs.len() ==> leaf_canonical(#[trigger] fs[k].1),
        NodeV::Enum(_, vs) => forall|k: int|
            0 <= k < vs.len() ==> ((#[trigger] vs[k]).2 matches Some(fs) ==> forall|j: int|
                0 <= j < fs.len() ==> leaf_canonical(#[trigger] fs[j].1)),
    }
}

/// Whether the first `m` nodes denote pairwise distinct trees.
pub open spec fn trees_distinct_below(p: PoolV, m: nat) -> bool {
    forall|a: int, b: int|
        #![trigger tree_at(p, LayoutRef(a as u16)), tree_at(p, LayoutRef(b as u16))]
        0 <= a < m && 0 <= b < m && a != b ==> tree_at(p, LayoutRef(a as u16)) != tree_at(p, LayoutRef(b as u16))
}

/// Whether the pool is in the form the builder keeps it in: well formed,
/// names and tags held once each, canonical references, and no two nodes
/// for one tree.
pub open spec fn pool_canonical(p: PoolV) -> bool {
    &&& pool_wf(p)
    &&& p.strings.len() <= 0x10000
    &&& p.tags.len() <= 0x10000
    &&& p.strings.no_duplicates()
    &&& p.tags.no_duplicates()
    &&& forall|i: int| 0 <= i < p.nodes.len() ==> node_refs_canonical(#[trigger] p.nodes[i])
    &&& trees_distinct_below(p, p.nodes.len())
}

proof fn lemma_leaf_layout_injective(t1: LeafType, t2: LeafType)
    requires
        leaf_layout(t1) == leaf_layout(t2),
    ensures
        t1 == t2,
{
}

/// Canonical references with equal trees are equal.
pub proof fn lemma_ref_injective(p: PoolV, m: nat, r1: LayoutRef, r2: LayoutRef)
    requires
        pool_wf(p),
        m <= p.nodes.len(),
        trees_distinct_below(p, m),
        r1.valid(p.nodes.len()),
        r2.valid(p.nodes.len()),
        leaf_canonical(r1),
        leaf_canonical(r2),
        !r1.is_leaf() ==> r1.0 < m,
        !r2.is_leaf() ==> r2.0 < m,
        tree_at(p, r1) == tree_at(p, r2),
    ensures
        r1 == r2,
{
    if r1.is_leaf() && r2.is_leaf() {
        let t1 = LeafType::spec_from_u8(r1.leaf_discriminant())->0;
        let t2 = LeafType::spec_from_u8(r2.leaf_discriminant())->0;
        lemma_leaf_layout_injective(t1, t2);
        assert(r1.0 == r2.0);
    } else if r1.is_leaf() {
        lemma_node_tree_compound(p, r2);
    } else if r2.is_leaf() {
        lemma_node_tree_compound(p, r1);
    } else {
        assert(LayoutRef(r1.0 as u16) == r1);
        assert(LayoutRef(r2.0 as u16) == r2);
        if r1.0 != r2.0 {
            assert(tree_at(p, LayoutRef(r1.0 as int as u16)) != tree_at(p, LayoutRef(r2.0 as int as u16)));
        }
    }
}

/// Whether `n`'s references and indices all resolve in `p`, with leaf
/// references canonical: `n` may be appended to `p`.
pub open spec fn node_fits(p: PoolV, n: NodeV) -> bool {
    &&& node_refs_canonical(n)
    &&& match n {
        NodeV::Vector(e) => e.valid(p.nodes.len()),
        NodeV::Struct(t, fs) => t < p.tags.len() && fields_ok(p, fs, p.nodes.len()),
        NodeV::Enum(t, vs) => t < p.tags.len() && variants_ok(p, vs, p.nodes.len()),
    }
}

/// The tree that node `n` denotes when its references resolve in `p`.
pub open spec fn node_tree(p: PoolV, n: NodeV) -> LayoutV {
    match n {
        NodeV::Vector(e) => LayoutV::Vector(Box::new(tree_at(p, e))),
        NodeV::Struct(t, fs) => LayoutV::Struct(p.tags[t as int], fields_at(p, fs, (p.nodes.len() + 1) as nat)),
        NodeV::Enum(t, vs) => LayoutV::Enum(p.tags[t as int], variants_at(p, vs, (p.nodes.len() + 1) as nat)),
    }
}

/// A node of the table denotes its node tree.
proof fn lemma_node_at(p: PoolV, i: int)
    requires
        pool_wf(p),
        0 <= i < p.nodes.len(),
        node_refs_canonical(p.nodes[i]),
    ensures
        tree_at(p, LayoutRef(i as u16)) == node_tree(p, p.nodes[i]),
        node_fits(p, p.nodes[i]),
{
    let r = LayoutRef(i as u16);
    assert(node_ok(p, i));
    assert(r.rank() == i + 1);
    match p.nodes[i] {
        NodeV::Struct(t, fs) => {
            crate::layout::lemma_fields_at_bound(p, fs, (i + 1) as nat, (p.nodes.len() + 1) as nat);
        },
        NodeV::Enum(t, vs) => {
            assert forall|k: int| 0 <= k < vs.len() implies ((#[trigger] vs[k]).2 matches Some(fs) ==> forall|j: int|
                0 <= j < fs.len() ==> (#[trigger] fs[j]).1.rank() < i + 1 && fs[j].1.rank() < p.nodes.len() + 1) by {
                if let Some(fs) = vs[k].2 {
                    assert(fields_ok(p, fs, i as nat));
                }
            }
            crate::layout::lemma_variants_at_bound(p, vs, (i + 1) as nat, (p.nodes.len() + 1) as nat);
        },
        _ => {},
    }
}

/// Nodes that fit the pool and denote the same tree are equal.
proof fn lemma_node_tree_injective(q: PoolV, a: NodeV, b: NodeV)
    requires
        pool_wf(q),
        q.strings.no_duplicates(),
        q.tags.no_duplicates(),
        trees_distinct_below(q, q.nodes.len()),
        node_fits(q, a),
        node_fits(q, b),
        node_tree(q, a) == node_tree(q, b),
    ensures
        a == b,
{
    let n = q.nodes.len();
    let bound = (n + 1) as nat;
    match (a, b) {
        (NodeV::Vector(x), NodeV::Vector(y)) => {
            lemma_ref_injective(q, n, x, y);
        },
        (NodeV::Struct(ta, fa), NodeV::Struct(tb, fb)) => {
            lemma_fields_at(q, fa, bound);
            lemma_fields_at(q, fb, bound);
            assert(fields_at(q, fa, bound).len() == fields_at(q, fb, bound).len());
            assert forall|k: int| 0 <= k < fa.len() implies fa[k] == fb[k] by {
                assert(fields_at(q, fa, bound)[k] == fields_at(q, fb, bound)[k]);
                assert(leaf_canonical(fa[k].1));
                assert(leaf_canonical(fb[k].1));
                lemma_ref_injective(q, n, fa[k].1, fb[k].1);
            }
            assert(fa =~= fb);
        },
        (NodeV::Enum(ta, va), NodeV::Enum(tb, vb)) => {
            lemma_variants_at(q, va, bound);
            lemma_variants_at(q, vb, bound);
            assert(variants_at(q, va, bound).len() == variants_at(q, vb, bound).len());
            assert forall|k: int| 0 <= k < va.len() implies va[k] == vb[k] by {
                assert(variants_at(q, va, bound)[k] == variants_at(q, vb, bound)[k]);
                match (va[k].2, vb[k].2) {
                    (Some(fa), Some(fb)) => {
                        lemma_fields_at(q, fa, bound);
                        lemma_fields_at(q, fb, bound);
                        assert(fields_ok(q, fa, n));
                        assert(fields_ok(q, fb, n));
                        assert forall|m: int| 0 <= m < fa.len() implies fa[m] == fb[m] by {
                            assert(fields_at(q, fa, bound)[m] == fields_at(q, fb, bound)[m]);
                            assert(leaf_canonical(fa[m].1));
                            assert(leaf_canonical(fb[m].1));
                            lemma_ref_injective(q, n, fa[m].1, fb[m].1);
                        }
                        assert(fa =~= fb);
                    },
                    _ => {},
                }
            }
            assert(va =~= vb);
        },
        _ => {},
    }
}

/// The pool with node `n` appended.
pub open spec fn push_node(p: PoolV, n: NodeV) -> PoolV {
    PoolV { nodes: p.nodes.push(n), strings: p.strings, tags: p.tags }
}

/// The pool with name `s` appended.
pub open spec fn push_string(p: PoolV, s: Seq<u8>) -> PoolV {
    PoolV { nodes: p.nodes, strings: p.strings.push(s), tags: p.tags }
}

/// The pool with tag `t` appended.
pub open spec fn push_tag(p: PoolV, t: StructTagV) -> PoolV {
    PoolV { nodes: p.nodes, strings: p.strings, tags: p.tags.push(t) }
}

/// Growing a table other than the node table keeps the pool's form.
proof fn lemma_grow_tables(p: PoolV, q: PoolV)
    requires
        pool_canonical(p),
        pool_extends(p, q),
        q.nodes == p.nodes,
        q.strings.len() <= 0x10000,
        q.tags.len() <= 0x10000,
        q.strings.no_duplicates(),
        q.tags.no_duplicates(),
    ensures
        pool_canonical(q),
        forall|r: LayoutRef| r.valid(p.nodes.len()) ==> #[trigger] tree_at(q, r) == tree_at(p, r),
{
    assert forall|i: int| 0 <= i < q.nodes.len() implies #[trigger] node_ok(q, i) by {
        assert(node_ok(p, i));
        match p.nodes[i] {
            NodeV::Struct(t, fs) => {
                assert(fields_ok(q, fs, i as nat));
            },
            NodeV::Enum(t, vs) => {
                assert forall|k: int| 0 <= k < vs.len() implies {
                    &&& (#[trigger] vs[k]).0 < q.strings.len()
                    &&& (vs[k].2 matches Some(fs) ==> fields_ok(q, fs, i as nat))
                } by {
                    if let Some(fs) = vs[k].2 {
                        assert(fields_ok(p, fs, i as nat));
                    }
                }
            },
            _ => {},
        }
    }
    assert forall|r: LayoutRef| r.valid(p.nodes.len()) implies #[trigger] tree_at(q, r) == tree_at(p, r) by {
        lemma_tree_at_extends(p, q, r);
    }
    assert forall|a: int, b: int|
        #![trigger tree_at(q, LayoutRef(a as u16)), tree_at(q, LayoutRef(b as u16))]
        0 <= a < q.nodes.len() && 0 <= b < q.nodes.len() && a != b implies tree_at(q, LayoutRef(a as u16))
            != tree_at(q, LayoutRef(b as u16)) by {
        lemma_tree_at_extends(p, q, LayoutRef(a as u16));
        lemma_tree_at_extends(p, q, LayoutRef(b as u16));
    }
}

/// Appending a node that fits keeps every old tree and denotes the node's
/// tree at the new index.
proof fn lemma_push_node_tree(p: PoolV, n: NodeV)
    requires
        pool_wf(p),
        node_fits(p, n),
        p.nodes.len() < 0x8000,
    ensures
        pool_wf(push_node(p, n)),
        pool_extends(p, push_node(p, n)),
        forall|r: LayoutRef| r.valid(p.nodes.len()) ==> #[trigger] tree_at(push_node(p, n), r) == tree_at(p, r),
        tree_at(push_node(p, n), LayoutRef(p.nodes.len() as u16)) == node_tree(p, n),
{
    let q = push_node(p, n);
    let m = p.nodes.len();
    assert(pool_extends(p, q));
    assert forall|i: int| 0 <= i < q.nodes.len() implies #[trigger] node_ok(q, i) by {
        if i < m {
            assert(node_ok(p, i));
            assert(q.nodes[i] == p.nodes[i]);
            match p.nodes[i] {
                NodeV::Struct(t, fs) => {
                    assert(fields_ok(q, fs, i as nat));
                },
                NodeV::Enum(t, vs) => {
                    assert forall|k: int| 0 <= k < vs.len() implies {
                        &&& (#[trigger] vs[k]).0 < q.strings.len()
                        &&& (vs[k].2 matches Some(fs) ==> fields_ok(q, fs, i as nat))
                    } by {
                        if let Some(fs) = vs[k].2 {
                            assert(fields_ok(p, fs, i as nat));
                        }
                    }
                },
                _ => {},
            }
        } else {
            assert(q.nodes[i] == n);
            match n {
                NodeV::Struct(t, fs) => {
                    assert(fields_ok(q, fs, i as nat));
                },
                NodeV::Enum(t, vs) => {
                    assert forall|k: int| 0 <= k < vs.len() implies {
                        &&& (#[trigger] vs[k]).0 < q.strings.len()
                        &&& (vs[k].2 matches Some(fs) ==> fields_ok(q, fs, i as nat))
                    } by {
                        if let Some(fs) = vs[k].2 {
                            assert(fields_ok(p, fs, m));
                        }
                    }
                },
                _ => {},
            }
        }
    }
    assert(pool_wf(q));
    assert forall|r: LayoutRef| r.valid(p.nodes.len()) implies #[trigger] tree_at(q, r) == tree_at(p, r) by {
        lemma_tree_at_extends(p, q, r);
    }
    let r = LayoutRef(m as u16);
    assert(r.rank() == m + 1);
    assert(q.nodes[m as int] == n);
    match n {
        NodeV::Vector(e) => {
            lemma_tree_at_extends(p, q, e);
        },
        NodeV::Struct(t, fs) => {
            lemma_fields_at(q, fs, r.rank());
            lemma_fields_at(p, fs, r.rank());
            assert forall|k: int| 0 <= k < fs.len() implies fields_at(q, fs, r.rank())[k] == fields_at(p, fs, r.rank())[k] by {
                lemma_tree_at_extends(p, q, fs[k].1);
            }
            assert(fields_at(q, fs, r.rank()) =~= fields_at(p, fs, r.rank()));
        },
        NodeV::Enum(t, vs) => {
            lemma_variants_at(q, vs, r.rank());
            lemma_variants_at(p, vs, r.rank());
            assert forall|k: int| 0 <= k < vs.len() implies variants_at(q, vs, r.rank())[k] == variants_at(p, vs, r.rank())[k] by {
                if let Some(fs) = vs[k].2 {
                    assert(fields_ok(p, fs, m));
                    lemma_fields_at(q, fs, r.rank());
                    lemma_fields_at(p, fs, r.rank());
                    assert forall|j: int| 0 <= j < fs.len() implies fields_at(q, fs, r.rank())[j] == fields_at(p, fs, r.rank())[j] by {
                        lemma_tree_at_extends(p, q, fs[j].1);
                    }
                    assert(fields_at(q, fs, r.rank()) =~= fields_at(p, fs, r.rank()));
                }
            }
            assert(variants_at(q, vs, r.rank()) =~= variants_at(p, vs, r.rank()));
        },
    }
}

/// Appending a node that the pool lacks keeps the pool's form.
proof fn lemma_push_node(p: PoolV, n: NodeV)
    requires
        pool_canonical(p),
        node_fits(p, n),
        !p.nodes.contains(n),
        p.nodes.len() < 0x8000,
    ensures
        pool_canonical(push_node(p, n)),
        pool_extends(p, push_node(p, n)),
        forall|r: LayoutRef| r.valid(p.nodes.len()) ==> #[trigger] tree_at(push_node(p, n), r) == tree_at(p, r),
        tree_at(push_node(p, n), LayoutRef(p.nodes.len() as u16)) == node_tree(p, n),
{
    let q = push_node(p, n);
    let m = p.nodes.len();
    lemma_push_node_tree(p, n);
    assert forall|i: int| 0 <= i < q.nodes.len() implies node_refs_canonical(#[trigger] q.nodes[i]) by {
        if i < m {
            assert(q.nodes[i] == p.nodes[i]);
        }
    }
    assert forall|a: int, b: int|
        #![trigger tree_at(q, LayoutRef(a as u16)), tree_at(q, LayoutRef(b as u16))]
        0 <= a < q.nodes.len() && 0 <= b < q.nodes.len() && a != b implies tree_at(q, LayoutRef(a as u16))
            != tree_at(q, LayoutRef(b as u16)) by {
        if a < m && b < m {
            assert(tree_at(q, LayoutRef(a as u16)) == tree_at(p, LayoutRef(a as u16)));
            assert(tree_at(q, LayoutRef(b as u16)) == tree_at(p, LayoutRef(b as u16)));
        } else if a < m {
            assert(tree_at(q, LayoutRef(a as u16)) == tree_at(p, LayoutRef(a as u16)));
            lemma_node_at(p, a);
            if tree_at(p, LayoutRef(a as u16)) == node_tree(p, n) {
                lemma_node_tree_injective(p, p.nodes[a], n);
                assert(p.nodes[a] == n);
            }
        } else {
            assert(tree_at(q, LayoutRef(b as u16)) == tree_at(p, LayoutRef(b as u16)));
            lemma_node_at(p, b);
            if tree_at(p, LayoutRef(b as u16)) == node_tree(p, n) {
                lemma_node_tree_injective(p, p.nodes[b], n);
                assert(p.nodes[b] == n);
            }
        }
    }
}

/// A duplicate-free table can gain an element of a bounding set only while it
/// is smaller than the bound.
proof fn lemma_room<A>(cur: Seq<A>, bound: Set<A>, x: A, m: nat)
    requires
        cur.no_duplicates(),
        cur.to_set().subset_of(bound),
        bound.finite(),
        bound.len() <= m,
        bound.contains(x),
        !cur.contains(x),
    ensures
        cur.len() < m,
{
    cur.unique_seq_to_set();
    let s2 = cur.to_set().insert(x);
    assert(s2.subset_of(bound));
    vstd::set_lib::lemma_len_subset(s2, bound);
    assert(!cur.to_set().contains(x));
}

/// Whether some node of `p` denotes tree `t`.
pub open spec fn represents(p: PoolV, t: LayoutV) -> bool {
    exists|i: int| 0 <= i < p.nodes.len() && #[trigger] tree_at(p, LayoutRef(i as u16)) == t
}

/// The trees that the nodes of `p` denote.
pub open spec fn node_trees(p: PoolV) -> Set<LayoutV> {
    Set::new(|t: LayoutV| represents(p, t))
}

/// A canonical pool denotes as many distinct trees as it has nodes.
proof fn lemma_node_trees_len(p: PoolV)
    requires
        pool_canonical(p),
    ensures
        node_trees(p).finite(),
        node_trees(p).len() == p.nodes.len(),
{
    broadcast use vstd::seq_lib::seq_to_set_is_finite;
    let sq = Seq::new(p.nodes.len(), |i: int| tree_at(p, LayoutRef(i as u16)));
    assert(node_trees(p) =~= sq.to_set()) by {
        assert forall|u: LayoutV| node_trees(p).contains(u) implies sq.to_set().contains(u) by {
            let i = choose|i: int| 0 <= i < p.nodes.len() && #[trigger] tree_at(p, LayoutRef(i as u16)) == u;
            assert(sq[i] == u);
        }
        assert forall|u: LayoutV| sq.to_set().contains(u) implies node_trees(p).contains(u) by {
            let i = choose|i: int| 0 <= i < sq.len() && sq[i] == u;
            assert(tree_at(p, LayoutRef(i as u16)) == u);
        }
    }
    assert(sq.no_duplicates()) by {
        assert forall|a: int, b: int| 0 <= a < sq.len() && 0 <= b < sq.len() && a != b implies sq[a] != sq[b] by {
            assert(tree_at(p, LayoutRef(a as u16)) != tree_at(p, LayoutRef(b as u16)));
        }
    }
    sq.unique_seq_to_set();
}

/// What the tables of a pool hold: its names, its struct tags and the trees
/// its nodes denote.
pub open spec fn pool_contents(p: PoolV) -> Contents {
    Contents { names: p.strings.to_set(), tags: p.tags.to_set(), trees: node_trees(p) }
}

/// A node whose tree the pool already represents is held in the table.
proof fn lemma_represented_contains(q: PoolV, n: NodeV)
    requires
        pool_canonical(q),
        node_fits(q, n),
        represents(q, node_tree(q, n)),
    ensures
        q.nodes.contains(n),
{
    let i = choose|i: int| 0 <= i < q.nodes.len() && #[trigger] tree_at(q, LayoutRef(i as u16)) == node_tree(q, n);
    lemma_node_at(q, i);
    lemma_node_tree_injective(q, q.nodes[i], n);
}

/// Growing the name or tag tables leaves the node trees as they were.
proof fn lemma_same_node_trees(p: PoolV, q: PoolV)
    requires
        pool_wf(p),
        pool_extends(p, q),
        q.nodes == p.nodes,
    ensures
        node_trees(q) == node_trees(p),
{
    assert forall|u: LayoutV| #[trigger] node_trees(q).contains(u) == node_trees(p).contains(u) by {
        if represents(q, u) {
            let i = choose|i: int| 0 <= i < q.nodes.len() && #[trigger] tree_at(q, LayoutRef(i as u16)) == u;
            lemma_tree_at_extends(p, q, LayoutRef(i as u16));
        }
        if represents(p, u) {
            let i = choose|i: int| 0 <= i < p.nodes.len() && #[trigger] tree_at(p, LayoutRef(i as u16)) == u;
            lemma_tree_at_extends(p, q, LayoutRef(i as u16));
            assert(tree_at(q, LayoutRef(i as u16)) == u);
        }
    }
    assert(node_trees(q) =~= node_trees(p));
}

/// The names of a list of (name, handle) fields.
pub open spec fn field_names(fields: Seq<(&Identifier, LayoutHandle)>) -> Seq<Seq<u8>> {
    fields.map_values(|f: (&Identifier, LayoutHandle)| f.0@)
}

/// The fields that a list of (name, handle) pairs denotes in `p`.
pub open spec fn field_trees(p: PoolV, fields: Seq<(&Identifier, LayoutHandle)>) -> Seq<FieldV> {
    Seq::new(fields.len(), |k: int| FieldV { name: fields[k].0@, layout: tree_at(p, fields[k].1.layout_ref()) })
}

/// An enum variant as given to the builder: name, tag and fields when known.
pub type VariantSpec<'a> = (&'a Identifier, u16, Option<&'a [(&'a Identifier, LayoutHandle)]>);

/// The names that one variant brings: its own and its fields'.
pub open spec fn variant_name_set(v: VariantSpec) -> Set<Seq<u8>> {
    set![v.0@] + match v.2 {
        Some(f) => field_names(f@).to_set(),
        None => Set::empty(),
    }
}

/// The names that a list of variants brings.
pub open spec fn variant_names(vs: Seq<VariantSpec>) -> Set<Seq<u8>> {
    Set::new(|x: Seq<u8>| exists|k: int| 0 <= k < vs.len() && #[trigger] variant_name_set(vs[k]).contains(x))
}

/// The variants that a list of variant specifications denotes in `p`.
pub open spec fn variant_trees(p: PoolV, vs: Seq<VariantSpec>) -> Seq<VariantV> {
    Seq::new(
        vs.len(),
        |k: int|
            VariantV {
                name: vs[k].0@,
                tag: vs[k].1,
                fields: match vs[k].2 {
                    Some(f) => Some(field_trees(p, f@)),
                    None => None,
                },
            },
    )
}

/// Whether every handle of every known variant's fields is ok for `b`.
pub open spec fn variant_handles_ok(b: MoveTypeLayoutBuilder, vs: Seq<VariantSpec>) -> bool {
    forall|k: int|
        0 <= k < vs.len() ==> ((#[trigger] vs[k]).2 matches Some(f) ==> forall|j: int|
            0 <= j < f@.len() ==> b.handle_ok(#[trigger] f@[j].1))
}

proof fn lemma_variant_names_take(vs: Seq<VariantSpec>, k: int)
    requires
        0 <= k < vs.len(),
    ensures
        variant_names(vs.take(k + 1)) == variant_names(vs.take(k)) + variant_name_set(vs[k]),
        variant_names(vs.take(k)).subset_of(variant_names(vs)),
{
    assert forall|x: Seq<u8>| #[trigger] variant_names(vs.take(k + 1)).contains(x) == (variant_names(vs.take(k))
        + variant_name_set(vs[k])).contains(x) by {
        if variant_names(vs.take(k + 1)).contains(x) {
            let j = choose|j: int| 0 <= j < k + 1 && #[trigger] variant_name_set(vs.take(k + 1)[j]).contains(x);
            if j < k {
                assert(vs.take(k)[j] == vs[j]);
                assert(variant_name_set(vs.take(k)[j]).contains(x));
            }
        }
        if variant_names(vs.take(k)).contains(x) {
            let j = choose|j: int| 0 <= j < k && #[trigger] variant_name_set(vs.take(k)[j]).contains(x);
            assert(vs.take(k + 1)[j] == vs[j]);
            assert(variant_name_set(vs.take(k + 1)[j]).contains(x));
        }
        if variant_name_set(vs[k]).contains(x) {
            assert(vs.take(k + 1)[k] == vs[k]);
            assert(variant_name_set(vs.take(k + 1)[k]).contains(x));
        }
    }
    assert(variant_names(vs.take(k + 1)) =~= variant_names(vs.take(k)) + variant_name_set(vs[k]));
    assert forall|x: Seq<u8>| variant_names(vs.take(k)).contains(x) implies variant_names(vs).contains(x) by {
        let j = choose|j: int| 0 <= j < k && #[trigger] variant_name_set(vs.take(k)[j]).contains(x);
        assert(vs.take(k)[j] == vs[j]);
        assert(variant_name_set(vs[j]).contains(x));
    }
}

proof fn lemma_variant_names_finite(vs: Seq<VariantSpec>)
    ensures
        variant_names(vs).finite(),
    decreases vs.len(),
{
    broadcast use vstd::seq_lib::seq_to_set_is_finite;
    if vs.len() == 0 {
        assert(variant_names(vs) =~= Set::<Seq<u8>>::empty());
    } else {
        let k = vs.len() - 1;
        lemma_variant_names_finite(vs.take(k));
        lemma_variant_names_take(vs, k);
        assert(vs.take(k + 1) =~= vs);
        assert(variant_name_set(vs[k]).finite());
    }
}

/// A canonical pool's contents are finite.
proof fn lemma_pool_contents_finite(p: PoolV)
    requires
        pool_canonical(p),
    ensures
        contents_finite(pool_contents(p)),
{
    broadcast use vstd::seq_lib::seq_to_set_is_finite;
    lemma_node_trees_len(p);
}

/// A list of (name, handle) fields denotes the fields `fs` when each name and
/// each handle's tree match.
proof fn lemma_field_handles(p: PoolV, hs: Seq<(&Identifier, LayoutHandle)>, fs: Seq<FieldV>)
    requires
        hs.len() == fs.len(),
        forall|j: int|
            0 <= j < hs.len() ==> (#[trigger] hs[j]).0@ == fs[j].name && tree_at(p, hs[j].1.layout_ref())
                == fs[j].layout,
    ensures
        field_trees(p, hs) == fs,
        field_names(hs).to_set() == field_name_set(fs),
{
    assert(field_trees(p, hs) =~= fs) by {
        assert forall|j: int| 0 <= j < hs.len() implies field_trees(p, hs)[j] == fs[j] by {
            assert(hs[j].0@ == fs[j].name);
        }
    }
    assert(field_names(hs) =~= fs.map_values(|f: FieldV| f.name)) by {
        assert forall|j: int| 0 <= j < hs.len() implies field_names(hs)[j] == fs[j].name by {
            assert(hs[j].0@ == fs[j].name);
        }
    }
}

/// The names that the first `k` variant specifications bring are those that
/// the first `k` variants they denote bring.
proof fn lemma_variant_names_prefix(sp: Seq<VariantSpec>, vs: Seq<VariantV>, k: int)
    requires
        sp.len() == vs.len(),
        0 <= k <= sp.len(),
        forall|j: int| 0 <= j < sp.len() ==> variant_name_set(#[trigger] sp[j]) == variant_v_names(vs[j]),
    ensures
        variant_names(sp.take(k)) == variant_names_upto(vs, k),
    decreases k,
{
    if k == 0 {
        assert(variant_names(sp.take(0)) =~= Set::<Seq<u8>>::empty());
    } else {
        lemma_variant_names_prefix(sp, vs, k - 1);
        lemma_variant_names_take(sp, k - 1);
        assert(variant_name_set(sp[k - 1]) == variant_v_names(vs[k - 1]));
    }
}

/// A list of variant specifications, each with known fields, denotes the
/// variants `vs` when names, tags and fields match.
proof fn lemma_variant_specs(p: PoolV, sp: Seq<VariantSpec>, vs: Seq<VariantV>)
    requires
        sp.len() == vs.len(),
        forall|j: int|
            0 <= j < sp.len() ==> {
                &&& (#[trigger] sp[j]).0@ == vs[j].name
                &&& sp[j].1 == vs[j].tag
                &&& sp[j].2 is Some
                &&& vs[j].fields is Some
                &&& field_trees(p, sp[j].2->0@) == vs[j].fields->0
                &&& field_names(sp[j].2->0@).to_set() == field_name_set(vs[j].fields->0)
            },
    ensures
        variant_trees(p, sp) == vs,
        variant_names(sp) == variant_names_upto(vs, vs.len() as int),
{
    assert(variant_trees(p, sp) =~= vs) by {
        assert forall|j: int| 0 <= j < sp.len() implies variant_trees(p, sp)[j] == vs[j] by {
            assert(sp[j].0@ == vs[j].name);
        }
    }
    assert forall|j: int| 0 <= j < sp.len() implies variant_name_set(#[trigger] sp[j]) == variant_v_names(vs[j]) by {
        assert(sp[j].0@ == vs[j].name);
    }
    lemma_variant_names_prefix(sp, vs, sp.len() as int);
    assert(sp.take(sp.len() as int) =~= sp);
}

/// Keeping is transitive.
proof fn lemma_keeps_trans(a: MoveTypeLayoutBuilder, b: MoveTypeLayoutBuilder, c: MoveTypeLayoutBuilder)
    requires
        b.keeps(a),
        c.keeps(b),
    ensures
        c.keeps(a),
{
    assert forall|h: LayoutHandle| #[trigger] a.handle_ok(h) implies c.handle_ok(h) && c.tree_of(h) == a.tree_of(h) by {
        assert(b.handle_ok(h));
    }
}

// ---------------------------------------------------------------------------
// The builder
// ---------------------------------------------------------------------------

/// An opaque handle on a layout node of a builder.  Handles are only useful
/// for passing back to the builder that made them.
#[derive(Debug, Clone, Copy)]
pub struct LayoutHandle(LayoutRef);

impl LayoutHandle {
    /// The reference that the handle carries.
    pub closed spec fn layout_ref(self) -> LayoutRef {
        self.0
    }
}

/// Incrementally builds a compressed layout, storing each distinct node,
/// field/variant name and struct tag once.
pub struct MoveTypeLayoutBuilder {
    node_keys: IndexSet<Vec<u64>>,
    nodes: Vec<MoveTypeNode>,
    string_keys: IndexSet<Vec<u64>>,
    strings: Vec<Identifier>,
    tag_keys: IndexSet<Vec<u64>>,
    tags: Vec<StructTag>,
}

impl MoveTypeLayoutBuilder {
    /// The value of the tables built so far.
    pub closed spec fn pool_v(&self) -> PoolV {
        pool_view_of(self.nodes@, self.strings@, self.tags@)
    }

    /// The builder's invariant: its tables are in canonical form and its key
    /// sets hold exactly the keys of the table entries.
    pub closed spec fn wf(&self) -> bool {
        &&& pool_canonical(self.pool_v())
        &&& key_set_items(self.string_keys) == self.pool_v().strings.map_values(|s: Seq<u8>| bytes_key(s))
        &&& key_set_items(self.tag_keys) == self.pool_v().tags.map_values(|t: StructTagV| tag_key(t))
        &&& key_set_items(self.node_keys) == self.pool_v().nodes.map_values(|n: NodeV| node_key(n))
    }

    /// Whether a handle belongs to a builder with these tables.
    pub open spec fn handle_ok(&self, h: LayoutHandle) -> bool {
        h.layout_ref().valid(self.pool_v().nodes.len()) && leaf_canonical(h.layout_ref())
    }

    /// The layout tree that a handle denotes.
    pub open spec fn tree_of(&self, h: LayoutHandle) -> LayoutV {
        tree_at(self.pool_v(), h.layout_ref())
    }

    /// Whether this builder keeps everything that `before` held: its tables
    /// extend `before`'s, and every handle of `before` is still a handle with
    /// the same tree.
    pub open spec fn keeps(&self, before: MoveTypeLayoutBuilder) -> bool {
        &&& pool_extends(before.pool_v(), self.pool_v())
        &&& forall|h: LayoutHandle| #[trigger] before.handle_ok(h) ==> self.handle_ok(h) && self.tree_of(h) == before.tree_of(h)
    }

    /// A builder with empty tables.
    pub fn new() -> (r: MoveTypeLayoutBuilder)
        ensures
            r.wf(),
            r.pool_v().nodes.len() == 0,
            r.pool_v().strings.len() == 0,
            r.pool_v().tags.len() == 0,
    {
        let r = MoveTypeLayoutBuilder {
            node_keys: key_set_new(),
            nodes: Vec::new(),
            string_keys: key_set_new(),
            strings: Vec::new(),
            tag_keys: key_set_new(),
            tags: Vec::new(),
        };
        assert(r.pool_v().strings.map_values(|s: Seq<u8>| bytes_key(s)) =~= Seq::<Seq<u64>>::empty());
        assert(r.pool_v().tags.map_values(|t: StructTagV| tag_key(t)) =~= Seq::<Seq<u64>>::empty());
        assert(r.pool_v().nodes.map_values(|n: NodeV| node_key(n)) =~= Seq::<Seq<u64>>::empty());
        r
    }

    /// Intern a name, returning its index in the name table.
    fn intern_string(&mut self, s: &Identifier) -> (r: u16)
        requires
            old(self).wf(),
            old(self).pool_v().strings.contains(s@) || old(self).pool_v().strings.len() < 0x10000,
        ensures
            final(self).wf(),
            final(self).pool_v() == (if old(self).pool_v().strings.contains(s@) {
                old(self).pool_v()
            } else {
                push_string(old(self).pool_v(), s@)
            }),
            r < final(self).pool_v().strings.len(),
            final(self).pool_v().strings[r as int] == s@,
    {
        let ghost p = self.pool_v();
        let mut key: Vec<u64> = Vec::new();
        push_bytes_key(&mut key, s.as_bytes());
        assert(key@ == bytes_key(s@));
        proof {
            if p.strings.contains(s@) {
                let i = choose|i: int| 0 <= i < p.strings.len() && p.strings[i] == s@;
                assert(key_set_items(self.string_keys)[i] == key@);
            }
        }
        let (idx, inserted) = key_set_insert_full(&mut self.string_keys, key);
        if inserted {
            proof {
                if p.strings.contains(s@) {
                    let i = choose|i: int| 0 <= i < p.strings.len() && p.strings[i] == s@;
                    assert(key_set_items(self.string_keys)[i] == bytes_key(s@));
                    assert(false);
                }
            }
            self.strings.push(s.duplicate());
            proof {
                let q = self.pool_v();
                assert(q.strings =~= p.strings.push(s@));
                assert(q.nodes =~= p.nodes);
                assert(q.tags =~= p.tags);
                assert(q == push_string(p, s@));
                assert(q.strings.no_duplicates()) by {
                    assert forall|a: int, b: int| 0 <= a < q.strings.len() && 0 <= b < q.strings.len() && a != b implies q.strings[a] != q.strings[b] by {
                        if a == p.strings.len() as int && q.strings[a] == q.strings[b] {
                            assert(p.strings[b] == s@);
                        }
                        if b == p.strings.len() as int && q.strings[a] == q.strings[b] {
                            assert(p.strings[a] == s@);
                        }
                    }
                }
                lemma_grow_tables(p, q);
                assert(key_set_items(self.string_keys) =~= q.strings.map_values(|s: Seq<u8>| bytes_key(s)));
            }
        } else {
            proof {
                assert(bytes_key(p.strings[idx as int]) == bytes_key(s@));
                lemma_bytes_key_injective(p.strings[idx as int], s@);
            }
        }
        idx as u16
    }

    /// Intern a struct tag, returning its index in the tag table.
    fn intern_tag(&mut self, tag: &StructTag) -> (r: u16)
        requires
            old(self).wf(),
            old(self).pool_v().tags.contains(tag@) || old(self).pool_v().tags.len() < 0x10000,
        ensures
            final(self).wf(),
            final(self).pool_v() == (if old(self).pool_v().tags.contains(tag@) {
                old(self).pool_v()
            } else {
                push_tag(old(self).pool_v(), tag@)
            }),
            r < final(self).pool_v().tags.len(),
            final(self).pool_v().tags[r as int] == tag@,
    {
        let ghost p = self.pool_v();
        let mut key: Vec<u64> = Vec::new();
        push_tag_key(&mut key, tag);
        assert(key@ == tag_key(tag@));
        proof {
            if p.tags.contains(tag@) {
                let i = choose|i: int| 0 <= i < p.tags.len() && p.tags[i] == tag@;
                assert(key_set_items(self.tag_keys)[i] == key@);
            }
        }
        let (idx, inserted) = key_set_insert_full(&mut self.tag_keys, key);
        if inserted {
            self.tags.push(tag.duplicate());
            proof {
                let q = self.pool_v();
                assert(q.tags =~= p.tags.push(tag@));
                assert(q.nodes =~= p.nodes);
                assert(q.strings =~= p.strings);
                assert(q == push_tag(p, tag@));
                assert(q.tags.no_duplicates()) by {
                    assert forall|a: int, b: int| 0 <= a < q.tags.len() && 0 <= b < q.tags.len() && a != b implies q.tags[a] != q.tags[b] by {
                        if a == p.tags.len() as int && q.tags[a] == q.tags[b] {
                            assert(p.tags[b] == tag@);
                        }
                        if b == p.tags.len() as int && q.tags[a] == q.tags[b] {
                            assert(p.tags[a] == tag@);
                        }
                    }
                }
                lemma_grow_tables(p, q);
                assert(key_set_items(self.tag_keys) =~= q.tags.map_values(|t: StructTagV| tag_key(t)));
            }
        } else {
            proof {
                assert(tag_key(p.tags[idx as int]) == tag_key(tag@));
                lemma_tag_key_injective(p.tags[idx as int], tag@);
            }
        }
        idx as u16
    }

    /// Intern a node, returning the handle of the equal node already held or
    /// of the appended one.
    fn intern(&mut self, node: MoveTypeNode) -> (r: LayoutHandle)
        requires
            old(self).wf(),
            node_fits(old(self).pool_v(), node.view()),
            old(self).pool_v().nodes.len() < 0x8000 || represents(old(self).pool_v(), node_tree(old(self).pool_v(), node.view())),
        ensures
            final(self).wf(),
            final(self).pool_v() == (if old(self).pool_v().nodes.contains(node.view()) {
                old(self).pool_v()
            } else {
                push_node(old(self).pool_v(), node.view())
            }),
            pool_extends(old(self).pool_v(), final(self).pool_v()),
            final(self).handle_ok(r),
            final(self).tree_of(r) == node_tree(old(self).pool_v(), node.view()),
            node_trees(final(self).pool_v()) == node_trees(old(self).pool_v()).insert(node_tree(old(self).pool_v(), node.view())),
            forall|h: LayoutRef| h.valid(old(self).pool_v().nodes.len()) ==> #[trigger] tree_at(final(self).pool_v(), h) == tree_at(old(self).pool_v(), h),
    {
        let ghost p = self.pool_v();
        let ghost nv = node.view();
        let ghost t = node_tree(p, nv);
        proof {
            if p.nodes.len() >= 0x8000 {
                lemma_represented_contains(p, nv);
            }
        }
        let key = node_key_of(&node);
        proof {
            if p.nodes.contains(nv) {
                let i = choose|i: int| 0 <= i < p.nodes.len() && p.nodes[i] == nv;
                assert(key_set_items(self.node_keys)[i] == key@);
            }
        }
        let (idx, inserted) = key_set_insert_full(&mut self.node_keys, key);
        if inserted {
            self.nodes.push(node);
            proof {
                let q = self.pool_v();
                assert(q.nodes =~= p.nodes.push(nv));
                assert(q.strings =~= p.strings);
                assert(q.tags =~= p.tags);
                assert(q == push_node(p, nv));
                lemma_push_node(p, nv);
                assert(key_set_items(self.node_keys) =~= q.nodes.map_values(|n: NodeV| node_key(n)));
                assert forall|u: LayoutV| #[trigger] node_trees(q).contains(u) == node_trees(p).insert(t).contains(u) by {
                    if represents(q, u) {
                        let i = choose|i: int| 0 <= i < q.nodes.len() && #[trigger] tree_at(q, LayoutRef(i as u16)) == u;
                        if i < p.nodes.len() {
                            assert(tree_at(p, LayoutRef(i as u16)) == u);
                        }
                    }
                    if represents(p, u) {
                        let i = choose|i: int| 0 <= i < p.nodes.len() && #[trigger] tree_at(p, LayoutRef(i as u16)) == u;
                        assert(tree_at(q, LayoutRef(i as u16)) == u);
                    }
                    if u == t {
                        assert(tree_at(q, LayoutRef(p.nodes.len() as u16)) == u);
                    }
                }
                assert(node_trees(q) =~= node_trees(p).insert(t));
            }
        } else {
            proof {
                assert(node_key(p.nodes[idx as int]) == node_key(nv));
                lemma_node_key_injective(p.nodes[idx as int], nv);
                lemma_node_at(p, idx as int);
                assert(represents(p, t));
                assert(node_trees(p).insert(t) =~= node_trees(p));
            }
        }
        LayoutHandle(LayoutRef::index(idx))
    }

    /// Intern the names of a field list, pairing each name's index with the
    /// field's reference.
    fn intern_fields(&mut self, fields: &[(&Identifier, LayoutHandle)]) -> (r: Vec<(u16, LayoutRef)>)
        requires
            old(self).wf(),
            forall|k: int| 0 <= k < fields@.len() ==> old(self).handle_ok(#[trigger] fields@[k].1),
            (old(self).pool_v().strings.to_set() + field_names(fields@).to_set()).len() <= 0x10000,
        ensures
            final(self).wf(),
            final(self).keeps(*old(self)),
            final(self).pool_v().nodes == old(self).pool_v().nodes,
            final(self).pool_v().tags == old(self).pool_v().tags,
            final(self).pool_v().strings.to_set() == old(self).pool_v().strings.to_set() + field_names(fields@).to_set(),
            r@.len() == fields@.len(),
            forall|k: int|
                0 <= k < r@.len() ==> (#[trigger] r@[k]).0 < final(self).pool_v().strings.len()
                    && final(self).pool_v().strings[r@[k].0 as int] == fields@[k].0@ && r@[k].1
                    == fields@[k].1.layout_ref(),
    {
        broadcast use vstd::seq_lib::seq_to_set_is_finite;
        let ghost p0 = self.pool_v();
        let ghost b0 = *self;
        let ghost names = field_names(fields@);
        let ghost bound = p0.strings.to_set() + names.to_set();
        let mut out: Vec<(u16, LayoutRef)> = Vec::new();
        let mut k: usize = 0;
        proof {
            assert(names.take(0).to_set() =~= Set::<Seq<u8>>::empty());
            assert(p0.strings.to_set() + names.take(0).to_set() =~= p0.strings.to_set());
        }
        while k < fields.len()
            invariant
                self.wf(),
                b0.wf(),
                p0 == b0.pool_v(),
                names == field_names(fields@),
                bound == p0.strings.to_set() + names.to_set(),
                bound.len() <= 0x10000,
                forall|j: int| 0 <= j < fields@.len() ==> b0.handle_ok(#[trigger] fields@[j].1),
                k <= fields@.len(),
                pool_extends(p0, self.pool_v()),
                self.pool_v().nodes == p0.nodes,
                self.pool_v().tags == p0.tags,
                self.pool_v().strings.to_set() == p0.strings.to_set() + names.take(k as int).to_set(),
                out@.len() == k,
                forall|j: int|
                    0 <= j < k ==> (#[trigger] out@[j]).0 < self.pool_v().strings.len()
                        && self.pool_v().strings[out@[j].0 as int] == fields@[j].0@ && out@[j].1
                        == fields@[j].1.layout_ref(),
            decreases fields@.len() - k,
        {
            let ghost cur = self.pool_v();
            let (name, handle) = fields[k];
            proof {
                assert(names[k as int] == name@);
                assert(bound.contains(name@));
                assert(cur.strings.to_set().subset_of(bound)) by {
                    assert forall|x: Seq<u8>| cur.strings.to_set().contains(x) implies bound.contains(x) by {
                        if names.take(k as int).to_set().contains(x) {
                            let j = choose|j: int| 0 <= j < k && names.take(k as int)[j] == x;
                            assert(names[j] == x);
                        }
                    }
                }
                if !cur.strings.contains(name@) {
                    lemma_room(cur.strings, bound, name@, 0x10000);
                }
            }
            let idx = self.intern_string(name);
            out.push((idx, handle.0));
            proof {
                let nxt = self.pool_v();
                assert(names.take(k + 1) =~= names.take(k as int).push(name@));
                assert(nxt.strings.to_set() =~= cur.strings.to_set().insert(name@)) by {
                    if !cur.strings.contains(name@) {
                        assert(nxt.strings =~= cur.strings.push(name@));
                        cur.strings.lemma_push_to_set_commute(name@);
                    } else {
                        assert(cur.strings.to_set().contains(name@));
                    }
                }
                names.take(k as int).lemma_push_to_set_commute(name@);
                assert(names.take(k + 1).to_set() =~= names.take(k as int).to_set().insert(name@));
            }
            k = k + 1;
        }
        proof {
            assert(names.take(k as int) =~= names);
            let q = self.pool_v();
            assert forall|h: LayoutHandle| #[trigger] b0.handle_ok(h) implies self.handle_ok(h) && self.tree_of(h) == b0.tree_of(h) by {
                lemma_tree_at_extends(p0, q, h.layout_ref());
            }
        }
        out
    }

    /// Build a vector layout node over `element`.
    pub fn vector(&mut self, element: LayoutHandle) -> (r: LayoutHandle)
        requires
            old(self).wf(),
            old(self).handle_ok(element),
            old(self).pool_v().nodes.len() < 0x8000 || represents(
                old(self).pool_v(),
                LayoutV::Vector(Box::new(old(self).tree_of(element))),
            ),
        ensures
            final(self).wf(),
            final(self).keeps(*old(self)),
            final(self).pool_v().strings == old(self).pool_v().strings,
            final(self).pool_v().tags == old(self).pool_v().tags,
            node_trees(final(self).pool_v()) == node_trees(old(self).pool_v()).insert(
                LayoutV::Vector(Box::new(old(self).tree_of(element))),
            ),
            final(self).handle_ok(r),
            final(self).tree_of(r) == LayoutV::Vector(Box::new(old(self).tree_of(element))),
    {
        let ghost b0 = *self;
        let r = self.intern(MoveTypeNode::Vector(element.0));
        proof {
            assert forall|h: LayoutHandle| #[trigger] b0.handle_ok(h) implies self.handle_ok(h) && self.tree_of(h)
                == b0.tree_of(h) by {
                assert(tree_at(self.pool_v(), h.layout_ref()) == tree_at(b0.pool_v(), h.layout_ref()));
            }
        }
        r
    }

    /// Build a struct layout node with type `type_tag` and the given
    /// (name, layout) fields in order.
    pub fn struct_layout(&mut self, type_tag: &StructTag, fields: &[(&Identifier, LayoutHandle)]) -> (r:
        LayoutHandle)
        requires
            old(self).wf(),
            forall|k: int| 0 <= k < fields@.len() ==> old(self).handle_ok(#[trigger] fields@[k].1),
            old(self).pool_v().tags.contains(type_tag@) || old(self).pool_v().tags.len() < 0x10000,
            (old(self).pool_v().strings.to_set() + field_names(fields@).to_set()).len() <= 0x10000,
            old(self).pool_v().nodes.len() < 0x8000 || represents(
                old(self).pool_v(),
                LayoutV::Struct(type_tag@, field_trees(old(self).pool_v(), fields@)),
            ),
        ensures
            final(self).wf(),
            final(self).keeps(*old(self)),
            final(self).pool_v().tags.to_set() == old(self).pool_v().tags.to_set().insert(type_tag@),
            final(self).pool_v().strings.to_set() == old(self).pool_v().strings.to_set() + field_names(
                fields@,
            ).to_set(),
            node_trees(final(self).pool_v()) == node_trees(old(self).pool_v()).insert(
                LayoutV::Struct(type_tag@, field_trees(old(self).pool_v(), fields@)),
            ),
            final(self).handle_ok(r),
            final(self).tree_of(r) == LayoutV::Struct(type_tag@, field_trees(old(self).pool_v(), fields@)),
    {
        let ghost b0 = *self;
        let ghost p0 = self.pool_v();
        let tag_idx = self.intern_tag(type_tag);
        let ghost p1 = self.pool_v();
        proof {
            lemma_same_node_trees(p0, p1);
            if !p0.tags.contains(type_tag@) {
                assert(p1.tags =~= p0.tags.push(type_tag@));
                p0.tags.lemma_push_to_set_commute(type_tag@);
            } else {
                assert(p0.tags.to_set().contains(type_tag@));
                assert(p0.tags.to_set().insert(type_tag@) =~= p0.tags.to_set());
            }
            assert(p1.strings == p0.strings);
        }
        let field_indices = self.intern_fields(fields);
        let ghost p2 = self.pool_v();
        let ghost fs = field_indices@;
        let ghost expected = LayoutV::Struct(type_tag@, field_trees(p0, fields@));
        proof {
            lemma_same_node_trees(p1, p2);
            assert(pool_extends(p0, p2));
            lemma_fields_at(p2, fs, (p2.nodes.len() + 1) as nat);
            assert forall|k: int| 0 <= k < fs.len() implies {
                &&& (#[trigger] fs[k]).0 < p2.strings.len()
                &&& fs[k].1.valid(p2.nodes.len())
                &&& fs[k].1.rank() <= p2.nodes.len()
            } by {
                assert(b0.handle_ok(fields@[k].1));
            }
            assert forall|k: int| 0 <= k < fs.len() implies leaf_canonical(#[trigger] fs[k].1) by {
                assert(b0.handle_ok(fields@[k].1));
            }
            assert forall|k: int| 0 <= k < fs.len() implies fields_at(p2, fs, (p2.nodes.len() + 1) as nat)[k]
                == field_trees(p0, fields@)[k] by {
                assert(b0.handle_ok(fields@[k].1));
                lemma_tree_at_extends(p0, p2, fs[k].1);
            }
            assert(fields_at(p2, fs, (p2.nodes.len() + 1) as nat) =~= field_trees(p0, fields@));
            assert(node_tree(p2, NodeV::Struct(tag_idx, fs)) == expected);
            if represents(p0, expected) {
                let i = choose|i: int| 0 <= i < p0.nodes.len() && #[trigger] tree_at(p0, LayoutRef(i as u16)) == expected;
                lemma_tree_at_extends(p0, p2, LayoutRef(i as u16));
                assert(tree_at(p2, LayoutRef(i as u16)) == expected);
            }
        }
        let r = self.intern(MoveTypeNode::Struct(MoveStructNode { type_: tag_idx, fields: field_indices }));
        proof {
            assert forall|h: LayoutHandle| #[trigger] b0.handle_ok(h) implies self.handle_ok(h) && self.tree_of(h)
                == b0.tree_of(h) by {
                lemma_tree_at_extends(p0, p2, h.layout_ref());
                assert(tree_at(self.pool_v(), h.layout_ref()) == tree_at(p2, h.layout_ref()));
            }
            assert(pool_extends(p0, self.pool_v()));
        }
        r
    }

    /// Build an enum layout node with type `type_tag` and the given variants
    /// in order: each is (name, tag, fields), with `None` fields for a
    /// variant whose layout is unknown.
    pub fn enum_layout(&mut self, type_tag: &StructTag, variants: &[VariantSpec<'_>]) -> (r: LayoutHandle)
        requires
            old(self).wf(),
            variant_handles_ok(*old(self), variants@),
            old(self).pool_v().tags.contains(type_tag@) || old(self).pool_v().tags.len() < 0x10000,
            (old(self).pool_v().strings.to_set() + variant_names(variants@)).len() <= 0x10000,
            old(self).pool_v().nodes.len() < 0x8000 || represents(
                old(self).pool_v(),
                LayoutV::Enum(type_tag@, variant_trees(old(self).pool_v(), variants@)),
            ),
        ensures
            final(self).wf(),
            final(self).keeps(*old(self)),
            final(self).pool_v().tags.to_set() == old(self).pool_v().tags.to_set().insert(type_tag@),
            final(self).pool_v().strings.to_set() == old(self).pool_v().strings.to_set() + variant_names(variants@),
            node_trees(final(self).pool_v()) == node_trees(old(self).pool_v()).insert(
                LayoutV::Enum(type_tag@, variant_trees(old(self).pool_v(), variants@)),
            ),
            final(self).handle_ok(r),
            final(self).tree_of(r) == LayoutV::Enum(type_tag@, variant_trees(old(self).pool_v(), variants@)),
    {
        broadcast use vstd::seq_lib::seq_to_set_is_finite;
        let ghost b0 = *self;
        let ghost p0 = self.pool_v();
        let tag_idx = self.intern_tag(type_tag);
        let ghost p1 = self.pool_v();
        proof {
            lemma_same_node_trees(p0, p1);
            if !p0.tags.contains(type_tag@) {
                assert(p1.tags =~= p0.tags.push(type_tag@));
                p0.tags.lemma_push_to_set_commute(type_tag@);
            } else {
                assert(p0.tags.to_set().contains(type_tag@));
                assert(p0.tags.to_set().insert(type_tag@) =~= p0.tags.to_set());
            }
            assert(p1.strings == p0.strings);
            lemma_variant_names_finite(variants@);
        }
        let ghost vs = variants@;
        let ghost bound = p0.strings.to_set() + variant_names(vs);
        let mut entries: Vec<(u16, u16, Option<Vec<(u16, LayoutRef)>>)> = Vec::new();
        let mut k: usize = 0;
        proof {
            assert(variant_names(vs.take(0)) =~= Set::<Seq<u8>>::empty());
            assert(p1.strings.to_set() + variant_names(vs.take(0)) =~= p1.strings.to_set());
        }
        while k < variants.len()
            invariant
                self.wf(),
                b0.wf(),
                p0 == b0.pool_v(),
                vs == variants@,
                bound == p0.strings.to_set() + variant_names(vs),
                bound.finite(),
                bound.len() <= 0x10000,
                variant_handles_ok(b0, vs),
                k <= vs.len(),
                pool_extends(p0, self.pool_v()),
                pool_extends(p1, self.pool_v()),
                self.pool_v().nodes == p0.nodes,
                self.pool_v().tags == p1.tags,
                tag_idx < p1.tags.len(),
                p1.tags[tag_idx as int] == type_tag@,
                self.pool_v().strings.to_set() == p0.strings.to_set() + variant_names(vs.take(k as int)),
                entries@.len() == k,
                forall|j: int|
                    0 <= j < k ==> {
                        &&& (#[trigger] entries@[j]).0 < self.pool_v().strings.len()
                        &&& self.pool_v().strings[entries@[j].0 as int] == vs[j].0@
                        &&& entries@[j].1 == vs[j].1
                        &&& (entries@[j].2 is Some <==> vs[j].2 is Some)
                        &&& (entries@[j].2 matches Some(fi) ==> {
                            &&& fi@.len() == vs[j].2->0@.len()
                            &&& forall|m: int|
                                0 <= m < fi@.len() ==> (#[trigger] fi@[m]).0 < self.pool_v().strings.len()
                                    && self.pool_v().strings[fi@[m].0 as int] == vs[j].2->0@[m].0@ && fi@[m].1
                                    == vs[j].2->0@[m].1.layout_ref()
                        })
                    },
            decreases vs.len() - k,
        {
            let ghost cur = self.pool_v();
            let (vn, tag, fields) = variants[k];
            proof {
                lemma_variant_names_take(vs, k as int);
                assert(variant_name_set(vs[k as int]).contains(vn@));
                assert(bound.contains(vn@)) by {
                    assert(variant_names(vs).contains(vn@));
                }
                assert(cur.strings.to_set().subset_of(bound));
                if !cur.strings.contains(vn@) {
                    lemma_room(cur.strings, bound, vn@, 0x10000);
                }
            }
            let vn_idx = self.intern_string(vn);
            let ghost mid = self.pool_v();
            proof {
                assert(mid.strings.to_set() =~= cur.strings.to_set().insert(vn@)) by {
                    if !cur.strings.contains(vn@) {
                        assert(mid.strings =~= cur.strings.push(vn@));
                        cur.strings.lemma_push_to_set_commute(vn@);
                    } else {
                        assert(cur.strings.to_set().contains(vn@));
                    }
                }
            }
            let field_indices = match fields {
                Some(f) => {
                    proof {
                        assert(vs[k as int].2 == Some(f));
                        assert forall|j: int| 0 <= j < f@.len() implies self.handle_ok(#[trigger] f@[j].1) by {
                            assert(b0.handle_ok(f@[j].1));
                        }
                        assert((mid.strings.to_set() + field_names(f@).to_set()).subset_of(bound)) by {
                            assert forall|x: Seq<u8>| field_names(f@).to_set().contains(x) implies bound.contains(x) by {
                                assert(variant_name_set(vs[k as int]).contains(x));
                                assert(variant_names(vs).contains(x));
                            }
                        }
                        vstd::set_lib::lemma_len_subset(mid.strings.to_set() + field_names(f@).to_set(), bound);
                    }
                    Some(self.intern_fields(f))
                },
                None => None,
            };
            entries.push((vn_idx, tag, field_indices));
            proof {
                let nxt = self.pool_v();
                assert(nxt.strings.to_set() =~= cur.strings.to_set() + variant_name_set(vs[k as int]));
                assert(variant_names(vs.take(k + 1)) =~= variant_names(vs.take(k as int)) + variant_name_set(vs[k as int]));
                assert(nxt.strings.to_set() =~= p0.strings.to_set() + variant_names(vs.take(k + 1)));
                assert(pool_extends(cur, nxt));
            }
            k = k + 1;
        }
        let ghost p2 = self.pool_v();
        let ghost es = entries@.map_values(|v: (u16, u16, Option<Vec<(u16, LayoutRef)>>)| crate::layout::variant_entry_view(v));
        let ghost expected = LayoutV::Enum(type_tag@, variant_trees(p0, vs));
        let ghost bnd = (p2.nodes.len() + 1) as nat;
        proof {
            assert(vs.take(k as int) =~= vs);
            lemma_same_node_trees(p1, p2);
            lemma_variants_at(p2, es, bnd);
            assert forall|j: int| 0 <= j < es.len() implies variants_at(p2, es, bnd)[j] == variant_trees(p0, vs)[j] by {
                assert(es[j] == crate::layout::variant_entry_view(entries@[j]));
                if let Some(f) = vs[j].2 {
                    let fi = entries@[j].2->0;
                    lemma_fields_at(p2, fi@, bnd);
                    assert forall|m: int| 0 <= m < fi@.len() implies fields_at(p2, fi@, bnd)[m] == field_trees(p0, f@)[m] by {
                        assert(b0.handle_ok(f@[m].1));
                        lemma_tree_at_extends(p0, p2, fi@[m].1);
                    }
                    assert(fields_at(p2, fi@, bnd) =~= field_trees(p0, f@));
                }
            }
            assert(variants_at(p2, es, bnd) =~= variant_trees(p0, vs));
            assert forall|j: int| 0 <= j < es.len() implies {
                &&& (#[trigger] es[j]).0 < p2.strings.len()
                &&& (es[j].2 matches Some(fs) ==> fields_ok(p2, fs, p2.nodes.len()))
            } by {
                assert(es[j] == crate::layout::variant_entry_view(entries@[j]));
                if let Some(f) = vs[j].2 {
                    let fi = entries@[j].2->0;
                    assert forall|m: int| 0 <= m < fi@.len() implies {
                        &&& (#[trigger] fi@[m]).0 < p2.strings.len()
                        &&& fi@[m].1.valid(p2.nodes.len())
                        &&& fi@[m].1.rank() <= p2.nodes.len()
                    } by {
                        assert(b0.handle_ok(f@[m].1));
                    }
                }
            }
            assert forall|j: int| 0 <= j < es.len() implies ((#[trigger] es[j]).2 matches Some(fs) ==> forall|m: int|
                0 <= m < fs.len() ==> leaf_canonical(#[trigger] fs[m].1)) by {
                assert(es[j] == crate::layout::variant_entry_view(entries@[j]));
                if let Some(f) = vs[j].2 {
                    let fi = entries@[j].2->0;
                    assert forall|m: int| 0 <= m < fi@.len() implies leaf_canonical(#[trigger] fi@[m].1) by {
                        assert(b0.handle_ok(f@[m].1));
                    }
                }
            }
            assert(node_tree(p2, NodeV::Enum(tag_idx, es)) == expected);
            if represents(p0, expected) {
                let i = choose|i: int| 0 <= i < p0.nodes.len() && #[trigger] tree_at(p0, LayoutRef(i as u16)) == expected;
                lemma_tree_at_extends(p0, p2, LayoutRef(i as u16));
                assert(tree_at(p2, LayoutRef(i as u16)) == expected);
            }
        }
        let r = self.intern(MoveTypeNode::Enum(MoveEnumNode { type_: tag_idx, variants: entries }));
        proof {
            assert forall|h: LayoutHandle| #[trigger] b0.handle_ok(h) implies self.handle_ok(h) && self.tree_of(h)
                == b0.tree_of(h) by {
                lemma_tree_at_extends(p0, p2, h.layout_ref());
                assert(tree_at(self.pool_v(), h.layout_ref()) == tree_at(p2, h.layout_ref()));
            }
            assert(pool_extends(p0, self.pool_v()));
        }
        r
    }

    /// Intern a tree layout node by node and return the handle of its root.
    /// A tree's enum variants all have known fields.
    pub fn intern_tree(&mut self, layout: &TreeMoveTypeLayout) -> (r: LayoutHandle)
        requires
            old(self).wf(),
            fits(join(pool_contents(old(self).pool_v()), layout_contents(layout@))),
        ensures
            final(self).wf(),
            final(self).keeps(*old(self)),
            final(self).handle_ok(r),
            final(self).tree_of(r) == layout@,
            tree_wf(layout@),
            pool_contents(final(self).pool_v()) == join(pool_contents(old(self).pool_v()), layout_contents(layout@)),
        decreases layout,
    {
        let ghost b0 = *self;
        let ghost p0 = self.pool_v();
        let ghost t = layout@;
        let ghost bound = join(pool_contents(p0), layout_contents(t));
        proof {
            lemma_pool_contents_finite(p0);
            lemma_layout_contents_finite(t);
            assert(join(pool_contents(p0), no_contents()) =~= pool_contents(p0));
        }
        match layout {
            TreeMoveTypeLayout::Bool => self.bool(),
            TreeMoveTypeLayout::U8 => self.u8(),
            TreeMoveTypeLayout::U16 => self.u16(),
            TreeMoveTypeLayout::U32 => self.u32(),
            TreeMoveTypeLayout::U64 => self.u64(),
            TreeMoveTypeLayout::U128 => self.u128(),
            TreeMoveTypeLayout::U256 => self.u256(),
            TreeMoveTypeLayout::Address => self.address(),
            TreeMoveTypeLayout::Signer => self.signer(),
            TreeMoveTypeLayout::Vector(inner) => {
                let ghost e = (**inner)@;
                proof {
                    lemma_layout_contents_finite(e);
                    lemma_fits_sub(join(pool_contents(p0), layout_contents(e)), bound);
                }
                let h = self.intern_tree(inner);
                let ghost b1 = *self;
                let ghost p1 = self.pool_v();
                proof {
                    lemma_node_trees_len(p1);
                    if !represents(p1, t) {
                        lemma_room_set(node_trees(p1), bound.trees, t, 0x8000);
                    }
                }
                let r = self.vector(h);
                proof {
                    lemma_keeps_trans(b0, b1, *self);
                    assert(pool_contents(self.pool_v()) =~= bound);
                }
                r
            },
            TreeMoveTypeLayout::Struct(s) => {
                let ghost fs = fields_view(s.fields@);
                let ghost n = fs.len() as int;
                proof {
                    lemma_fields_view(s.fields@);
                    lemma_fields_contents_finite(fs, n);
                    assert(join(pool_contents(p0), fields_contents(fs, 0)) =~= pool_contents(p0));
                }
                let mut handles: Vec<(&Identifier, LayoutHandle)> = Vec::new();
                let mut k: usize = 0;
                while k < s.fields.len()
                    invariant
                        self.wf(),
                        b0.wf(),
                        self.keeps(b0),
                        p0 == b0.pool_v(),
                        fs == fields_view(s.fields@),
                        n == fs.len() == s.fields@.len(),
                        forall|j: int| 0 <= j < n ==> #[trigger] fs[j] == s.fields@[j]@,
                        t == LayoutV::Struct(s.type_@, fs),
                        *layout == TreeMoveTypeLayout::Struct(*s),
                        bound == join(pool_contents(p0), layout_contents(t)),
                        contents_finite(bound),
                        fits(bound),
                        contents_finite(pool_contents(p0)),
                        contents_finite(fields_contents(fs, n)),
                        k <= n,
                        pool_contents(self.pool_v()) == join(pool_contents(p0), fields_contents(fs, k as int)),
                        handles@.len() == k,
                        forall|j: int|
                            0 <= j < k ==> (#[trigger] handles@[j]).0@ == fs[j].name && self.handle_ok(
                                handles@[j].1,
                            ) && self.tree_of(handles@[j].1) == fs[j].layout && tree_wf(fs[j].layout),
                    decreases n - k,
                {
                    let ghost cur = *self;
                    let ghost sub = layout_contents(fs[k as int].layout);
                    proof {
                        lemma_fields_contents_mono(fs, k as int, n);
                        lemma_layout_contents_finite(fs[k as int].layout);
                        assert(contents_sub(join(pool_contents(cur.pool_v()), sub), bound));
                        lemma_fits_sub(join(pool_contents(cur.pool_v()), sub), bound);
                    }
                    let field = &s.fields[k];
                    proof {
                        assert(decreases_to!(*layout => layout->Struct_0));
                        assert(decreases_to!(**s => s.fields));
                        assert(decreases_to!(s.fields => s.fields@));
                        assert(decreases_to!(s.fields@ => s.fields@[k as int]));
                        assert(decreases_to!(s.fields@[k as int] => s.fields@[k as int].layout));
                    }
                    let h = self.intern_tree(&field.layout);
                    handles.push((&field.name, h));
                    proof {
                        lemma_keeps_trans(b0, cur, *self);
                        assert(pool_contents(self.pool_v()) =~= join(pool_contents(p0), fields_contents(fs, k + 1)));
                        assert forall|j: int| 0 <= j < k + 1 implies (#[trigger] handles@[j]).0@ == fs[j].name
                            && self.handle_ok(handles@[j].1) && self.tree_of(handles@[j].1) == fs[j].layout
                            && tree_wf(fs[j].layout) by {
                            if j < k {
                                assert(cur.handle_ok(handles@[j].1));
                            }
                        }
                    }
                    k = k + 1;
                }
                let ghost b1 = *self;
                let ghost p1 = self.pool_v();
                proof {
                    lemma_pool_contents_finite(p1);
                    lemma_field_handles(p1, handles@, fs);
                    assert(layout_contents(t).tags.contains(s.type_@));
                    if !p1.tags.contains(s.type_@) {
                        assert(p1.tags.to_set().subset_of(bound.tags));
                        lemma_room(p1.tags, bound.tags, s.type_@, 0x10000);
                    }
                    assert(contents_sub(
                        Contents { names: p1.strings.to_set() + field_name_set(fs), tags: Set::empty(), trees: Set::empty() },
                        bound,
                    ));
                    lemma_fits_sub(
                        Contents { names: p1.strings.to_set() + field_name_set(fs), tags: Set::empty(), trees: Set::empty() },
                        bound,
                    );
                    lemma_node_trees_len(p1);
                    if !represents(p1, t) {
                        lemma_room_set(node_trees(p1), bound.trees, t, 0x8000);
                    }
                }
                let r = self.struct_layout(&s.type_, handles.as_slice());
                proof {
                    lemma_keeps_trans(b0, b1, *self);
                    assert(pool_contents(self.pool_v()) =~= bound);
                    assert(tree_wf(t)) by {
                        assert forall|j: int| 0 <= j < n implies tree_wf(#[trigger] fs[j].layout) by {
                            assert(handles@[j].0@ == fs[j].name);
                        }
                    }
                }
                r
            },
            TreeMoveTypeLayout::Enum(e) => {
                let _ = e.variants();
                proof {
                    e.lemma_variants_v();
                    lemma_entries_view(e.variants@);
                }
                let ghost vs = entries_view(e.variants@);
                let ghost nv = vs.len() as int;
                proof {
                    lemma_variants_contents_finite(vs, nv);
                    assert(join(pool_contents(p0), variants_contents(vs, 0)) =~= pool_contents(p0));
                }
                let mut per: Vec<Vec<(&Identifier, LayoutHandle)>> = Vec::new();
                let mut j: usize = 0;
                while j < e.variants.len()
                    invariant
                        self.wf(),
                        b0.wf(),
                        self.keeps(b0),
                        p0 == b0.pool_v(),
                        *layout == TreeMoveTypeLayout::Enum(*e),
                        vs == entries_view(e.variants@),
                        nv == vs.len() == e.variants@.len(),
                        forall|i: int|
                            0 <= i < nv ==> #[trigger] vs[i] == (VariantV {
                                name: e.variants@[i].0.0@,
                                tag: e.variants@[i].0.1,
                                fields: Some(fields_view(e.variants@[i].1@)),
                            }),
                        t == LayoutV::Enum(e.type_@, vs),
                        bound == join(pool_contents(p0), layout_contents(t)),
                        contents_finite(bound),
                        fits(bound),
                        contents_finite(pool_contents(p0)),
                        contents_finite(variants_contents(vs, nv)),
                        j <= nv,
                        pool_contents(self.pool_v()) == join(pool_contents(p0), variants_contents(vs, j as int)),
                        per@.len() == j,
                        forall|i: int|
                            0 <= i < j ==> (#[trigger] per@[i])@.len() == fields_view(e.variants@[i].1@).len()
                                && forall|m: int|
                                0 <= m < per@[i]@.len() ==> (#[trigger] per@[i]@[m]).0@ == fields_view(
                                    e.variants@[i].1@,
                                )[m].name && self.handle_ok(per@[i]@[m].1) && self.tree_of(per@[i]@[m].1)
                                    == fields_view(e.variants@[i].1@)[m].layout && tree_wf(
                                    fields_view(e.variants@[i].1@)[m].layout,
                                ),
                    decreases nv - j,
                {
                    let ghost cur0 = *self;
                    let ghost fsj = fields_view(e.variants@[j as int].1@);
                    let ghost nf = fsj.len() as int;
                    let ghost before = join(pool_contents(p0), variants_contents(vs, j as int));
                    proof {
                        lemma_fields_view(e.variants@[j as int].1@);
                        assert(vs[j as int].fields == Some(fsj));
                        lemma_variants_contents_mono(vs, j as int, nv);
                        lemma_fields_contents_finite(fsj, nf);
                        assert(join(before, fields_contents(fsj, 0)) =~= before);
                    }
                    let fields = &e.variants[j].1;
                    let mut hs: Vec<(&Identifier, LayoutHandle)> = Vec::new();
                    let mut m: usize = 0;
                    while m < fields.len()
                        invariant
                            self.wf(),
                            b0.wf(),
                            self.keeps(b0),
                            self.keeps(cur0),
                            p0 == b0.pool_v(),
                            *layout == TreeMoveTypeLayout::Enum(*e),
                            j < nv == e.variants@.len(),
                            *fields == e.variants@[j as int].1,
                            fsj == fields_view(fields@),
                            nf == fsj.len() == fields@.len(),
                            forall|i: int| 0 <= i < nf ==> #[trigger] fsj[i] == fields@[i]@,
                            bound == join(pool_contents(p0), layout_contents(t)),
                            contents_finite(bound),
                            fits(bound),
                            contents_sub(before, bound),
                            contents_sub(fields_contents(fsj, nf), bound),
                            contents_finite(fields_contents(fsj, nf)),
                            m <= nf,
                            pool_contents(self.pool_v()) == join(before, fields_contents(fsj, m as int)),
                            hs@.len() == m,
                            forall|i: int|
                                0 <= i < m ==> (#[trigger] hs@[i]).0@ == fsj[i].name && self.handle_ok(hs@[i].1)
                                    && self.tree_of(hs@[i].1) == fsj[i].layout && tree_wf(fsj[i].layout),
                        decreases nf - m,
                    {
                        let ghost cur = *self;
                        let ghost sub = layout_contents(fsj[m as int].layout);
                        proof {
                            lemma_fields_contents_mono(fsj, m as int, nf);
                            lemma_layout_contents_finite(fsj[m as int].layout);
                            assert(contents_sub(join(pool_contents(cur.pool_v()), sub), bound));
                            lemma_fits_sub(join(pool_contents(cur.pool_v()), sub), bound);
                        }
                        let field = &fields[m];
                        proof {
                            assert(decreases_to!(*layout => layout->Enum_0));
                            assert(decreases_to!(e.variants => e.variants@));
                            assert(decreases_to!(e.variants@ => e.variants@[j as int]));
                            assert(decreases_to!(e.variants@[j as int] => e.variants@[j as int].1));
                            assert(decreases_to!(fields => fields@));
                            assert(decreases_to!(fields@ => fields@[m as int]));
                            assert(decreases_to!(fields@[m as int] => fields@[m as int].layout));
                        }
                        let h = self.intern_tree(&field.layout);
                        hs.push((&field.name, h));
                        proof {
                            lemma_keeps_trans(b0, cur, *self);
                            lemma_keeps_trans(cur0, cur, *self);
                            assert(pool_contents(self.pool_v()) =~= join(before, fields_contents(fsj, m + 1)));
                            assert forall|i: int| 0 <= i < m + 1 implies (#[trigger] hs@[i]).0@ == fsj[i].name
                                && self.handle_ok(hs@[i].1) && self.tree_of(hs@[i].1) == fsj[i].layout
                                && tree_wf(fsj[i].layout) by {
                                if i < m {
                                    assert(cur.handle_ok(hs@[i].1));
                                }
                            }
                        }
                        m = m + 1;
                    }
                    per.push(hs);
                    proof {
                        assert(pool_contents(self.pool_v()) =~= join(pool_contents(p0), variants_contents(vs, j + 1)));
                        assert forall|i: int|
                            0 <= i < j + 1 implies (#[trigger] per@[i])@.len() == fields_view(e.variants@[i].1@).len()
                                && forall|m: int|
                                0 <= m < per@[i]@.len() ==> (#[trigger] per@[i]@[m]).0@ == fields_view(
                                    e.variants@[i].1@,
                                )[m].name && self.handle_ok(per@[i]@[m].1) && self.tree_of(per@[i]@[m].1)
                                    == fields_view(e.variants@[i].1@)[m].layout && tree_wf(
                                    fields_view(e.variants@[i].1@)[m].layout,
                                ) by {
                            if i < j {
                                assert forall|m: int| 0 <= m < per@[i]@.len() implies (#[trigger] per@[i]@[m]).0@
                                    == fields_view(e.variants@[i].1@)[m].name && self.handle_ok(per@[i]@[m].1)
                                    && self.tree_of(per@[i]@[m].1) == fields_view(e.variants@[i].1@)[m].layout
                                    && tree_wf(fields_view(e.variants@[i].1@)[m].layout) by {
                                    assert(cur0.handle_ok(per@[i]@[m].1));
                                }
                            }
                        }
                    }
                    j = j + 1;
                }
                let ghost b1 = *self;
                let ghost p1 = self.pool_v();
                let mut specs: Vec<VariantSpec> = Vec::new();
                let mut j: usize = 0;
                while j < e.variants.len()
                    invariant
                        nv == e.variants@.len() == per@.len(),
                        j <= nv,
                        specs@.len() == j,
                        forall|i: int|
                            0 <= i < j ==> (#[trigger] specs@[i]).0@ == e.variants@[i].0.0@ && specs@[i].1
                                == e.variants@[i].0.1 && specs@[i].2 is Some && specs@[i].2->0@ == per@[i]@,
                    decreases nv - j,
                {
                    let v = &e.variants[j];
                    specs.push((&v.0.0, v.0.1, Some(per[j].as_slice())));
                    j = j + 1;
                }
                proof {
                    lemma_pool_contents_finite(p1);
                    assert forall|i: int| 0 <= i < nv implies {
                        &&& (#[trigger] specs@[i]).0@ == vs[i].name
                        &&& specs@[i].1 == vs[i].tag
                        &&& specs@[i].2 is Some
                        &&& vs[i].fields is Some
                        &&& field_trees(p1, specs@[i].2->0@) == vs[i].fields->0
                        &&& field_names(specs@[i].2->0@).to_set() == field_name_set(vs[i].fields->0)
                    } by {
                        let fsi = fields_view(e.variants@[i].1@);
                        assert(vs[i].fields == Some(fsi));
                        lemma_fields_view(e.variants@[i].1@);
                        assert(per@[i]@.len() == fsi.len());
                        assert forall|m: int| 0 <= m < per@[i]@.len() implies (#[trigger] per@[i]@[m]).0@ == fsi[m].name
                            && tree_at(p1, per@[i]@[m].1.layout_ref()) == fsi[m].layout by {
                        }
                        lemma_field_handles(p1, per@[i]@, fsi);
                    }
                    lemma_variant_specs(p1, specs@, vs);
                    assert(variant_handles_ok(*self, specs@)) by {
                        assert forall|k: int| 0 <= k < specs@.len() implies ((#[trigger] specs@[k]).2 matches Some(f)
                            ==> forall|i: int| 0 <= i < f@.len() ==> self.handle_ok(#[trigger] f@[i].1)) by {
                            let f = specs@[k].2->0;
                            assert forall|i: int| 0 <= i < f@.len() implies self.handle_ok(#[trigger] f@[i].1) by {
                                assert(f@[i] == per@[k]@[i]);
                            }
                        }
                    }
                    assert(layout_contents(t).tags.contains(e.type_@));
                    if !p1.tags.contains(e.type_@) {
                        assert(p1.tags.to_set().subset_of(bound.tags));
                        lemma_room(p1.tags, bound.tags, e.type_@, 0x10000);
                    }
                    let nm = Contents {
                        names: p1.strings.to_set() + variant_names_upto(vs, nv),
                        tags: Set::empty(),
                        trees: Set::empty(),
                    };
                    assert(contents_sub(nm, bound));
                    lemma_fits_sub(nm, bound);
                    lemma_node_trees_len(p1);
                    if !represents(p1, t) {
                        lemma_room_set(node_trees(p1), bound.trees, t, 0x8000);
                    }
                }
                let r = self.enum_layout(&e.type_, specs.as_slice());
                proof {
                    lemma_keeps_trans(b0, b1, *self);
                    assert(pool_contents(self.pool_v()) =~= bound);
                    assert(tree_wf(t)) by {
                        assert forall|k: int| 0 <= k < nv implies {
                            &&& (#[trigger] vs[k]).fields is Some
                            &&& forall|m: int|
                                0 <= m < vs[k].fields->0.len() ==> tree_wf(#[trigger] vs[k].fields->0[m].layout)
                        } by {
                            let fsk = fields_view(e.variants@[k].1@);
                            assert(vs[k].fields == Some(fsk));
                            assert forall|m: int| 0 <= m < fsk.len() implies tree_wf(#[trigger] fsk[m].layout) by {
                                assert(per@[k]@[m].0@ == fsk[m].name);
                            }
                        }
                    }
                }
                r
            },
        }
    }

    /// Finish the builder into an immutable layout rooted at `root`, whose
    /// pool holds the builder's tables as they are.
    pub fn build(self, root: LayoutHandle) -> (r: MoveTypeLayout)
        requires
            self.wf(),
            self.handle_ok(root),
        ensures
            r.pool_v() == self.pool_v(),
            r.tree() == self.tree_of(root),
            r.pool_v().nodes.len() == node_trees(self.pool_v()).len(),
            r.pool_v().strings.len() == self.pool_v().strings.to_set().len(),
            r.pool_v().tags.len() == self.pool_v().tags.to_set().len(),
    {
        proof {
            lemma_builder_tables(self);
        }
        let MoveTypeLayoutBuilder { nodes, strings, tags, .. } = self;
        let pool = MoveTypeLayoutPool::from_parts(nodes, strings, tags);
        MoveTypeLayout::from_parts(pool, root.0)
    }

    /// Handle of the `bool` leaf.
    pub fn bool(&mut self) -> (r: LayoutHandle)
        ensures
            *final(self) == *old(self),
            old(self).handle_ok(r),
            old(self).tree_of(r) == LayoutV::Bool,
    {
        LayoutHandle(LayoutRef::leaf(LeafType::Bool))
    }

    /// Handle of the `u8` leaf.
    pub fn u8(&mut self) -> (r: LayoutHandle)
        ensures
            *final(self) == *old(self),
            old(self).handle_ok(r),
            old(self).tree_of(r) == LayoutV::U8,
    {
        LayoutHandle(LayoutRef::leaf(LeafType::U8))
    }

    /// Handle of the `u16` leaf.
    pub fn u16(&mut self) -> (r: LayoutHandle)
        ensures
            *final(self) == *old(self),
            old(self).handle_ok(r),
            old(self).tree_of(r) == LayoutV::U16,
    {
        LayoutHandle(LayoutRef::leaf(LeafType::U16))
    }

    /// Handle of the `u32` leaf.
    pub fn u32(&mut self) -> (r: LayoutHandle)
        ensures
            *final(self) == *old(self),
            old(self).handle_ok(r),
            old(self).tree_of(r) == LayoutV::U32,
    {
        LayoutHandle(LayoutRef::leaf(LeafType::U32))
    }

    /// Handle of the `u64` leaf.
    pub fn u64(&mut self) -> (r: LayoutHandle)
        ensures
            *final(self) == *old(self),
            old(self).handle_ok(r),
            old(self).tree_of(r) == LayoutV::U64,
    {
        LayoutHandle(LayoutRef::leaf(LeafType::U64))
    }

    /// Handle of the `u128` leaf.
    pub fn u128(&mut self) -> (r: LayoutHandle)
        ensures
            *final(self) == *old(self),
            old(self).handle_ok(r),
            old(self).tree_of(r) == LayoutV::U128,
    {
        LayoutHandle(LayoutRef::leaf(LeafType::U128))
    }

    /// Handle of the `u256` leaf.
    pub fn u256(&mut self) -> (r: LayoutHandle)
        ensures
            *final(self) == *old(self),
            old(self).handle_ok(r),
            old(self).tree_of(r) == LayoutV::U256,
    {
        LayoutHandle(LayoutRef::leaf(LeafType::U256))
    }

    /// Handle of the `address` leaf.
    pub fn address(&mut self) -> (r: LayoutHandle)
        ensures
            *final(self) == *old(self),
            old(self).handle_ok(r),
            old(self).tree_of(r) == LayoutV::Address,
    {
        LayoutHandle(LayoutRef::leaf(LeafType::Address))
    }

    /// Handle of the `signer` leaf.
    pub fn signer(&mut self) -> (r: LayoutHandle)
        ensures
            *final(self) == *old(self),
            old(self).handle_ok(r),
            old(self).tree_of(r) == LayoutV::Signer,
    {
        LayoutHandle(LayoutRef::leaf(LeafType::Signer))
    }
}


/// Two handles of one builder that denote the same tree are the same handle:
/// a builder never holds one structure twice, so interning a structure again
/// gives back the handle it gave the first time.
pub proof fn lemma_handles_canonical(b: MoveTypeLayoutBuilder, h1: LayoutHandle, h2: LayoutHandle)
    requires
        b.wf(),
        b.handle_ok(h1),
        b.handle_ok(h2),
        b.tree_of(h1) == b.tree_of(h2),
    ensures
        h1 == h2,
{
    lemma_ref_injective(b.pool_v(), b.pool_v().nodes.len(), h1.layout_ref(), h2.layout_ref());
}

/// A builder holds each name, each struct tag and each node once: the length
/// of each table is the number of distinct names, tags and trees it holds,
/// and the tables are within their capacities.
pub proof fn lemma_builder_tables(b: MoveTypeLayoutBuilder)
    requires
        b.wf(),
    ensures
        b.pool_v().strings.no_duplicates(),
        b.pool_v().tags.no_duplicates(),
        b.pool_v().strings.len() == b.pool_v().strings.to_set().len(),
        b.pool_v().tags.len() == b.pool_v().tags.to_set().len(),
        node_trees(b.pool_v()).finite(),
        b.pool_v().nodes.len() == node_trees(b.pool_v()).len(),
        contents_finite(pool_contents(b.pool_v())),
        fits(pool_contents(b.pool_v())),
{
    let p = b.pool_v();
    p.strings.unique_seq_to_set();
    p.tags.unique_seq_to_set();
    lemma_node_trees_len(p);
    lemma_pool_contents_finite(p);
}

/// A tree whose names, tags and subtrees a builder already holds can always
/// be interned again: the capacities of the tables are met as they are.
pub proof fn lemma_intern_held_fits(b: MoveTypeLayoutBuilder, t: LayoutV)
    requires
        b.wf(),
        contents_sub(layout_contents(t), pool_contents(b.pool_v())),
    ensures
        fits(join(pool_contents(b.pool_v()), layout_contents(t))),
{
    lemma_builder_tables(b);
    assert(join(pool_contents(b.pool_v()), layout_contents(t)) =~= pool_contents(b.pool_v()));
}

/// Interning what a builder already holds leaves its tables unchanged: when
/// every name, tag and compound subtree of `t` is held before, the tables
/// after interning `t` are the tables before.
pub proof fn lemma_intern_held(before: MoveTypeLayoutBuilder, after: MoveTypeLayoutBuilder, t: LayoutV)
    requires
        before.wf(),
        after.wf(),
        after.keeps(before),
        contents_sub(layout_contents(t), pool_contents(before.pool_v())),
        pool_contents(after.pool_v()) == join(pool_contents(before.pool_v()), layout_contents(t)),
    ensures
        after.pool_v() == before.pool_v(),
{
    let p = before.pool_v();
    let q = after.pool_v();
    assert(pool_contents(q) =~= pool_contents(p));
    p.strings.unique_seq_to_set();
    q.strings.unique_seq_to_set();
    p.tags.unique_seq_to_set();
    q.tags.unique_seq_to_set();
    lemma_node_trees_len(p);
    lemma_node_trees_len(q);
    assert(q.nodes =~= p.nodes);
    assert(q.strings =~= p.strings);
    assert(q.tags =~= p.tags);
}

impl Default for MoveTypeLayoutBuilder {
    /// A builder with empty tables.
    fn default() -> (r: MoveTypeLayoutBuilder)
        ensures
            r.wf(),
            r.pool_v().nodes.len() == 0,
            r.pool_v().strings.len() == 0,
            r.pool_v().tags.len() == 0,
    {
        MoveTypeLayoutBuilder::new()
    }
}

impl MoveTypeLayout {
    /// Compress a tree layout: intern it into a fresh builder.  The pool then
    /// holds each distinct name, each distinct struct tag and each distinct
    /// compound subtree of the tree exactly once.
    pub fn from_tree(layout: &TreeMoveTypeLayout) -> (r: MoveTypeLayout)
        requires
            fits(layout_contents(layout@)),
        ensures
            r.tree() == layout@,
            tree_wf(layout@),
            r.pool_v().strings.to_set() == layout_contents(layout@).names,
            r.pool_v().tags.to_set() == layout_contents(layout@).tags,
            node_trees(r.pool_v()) == layout_contents(layout@).trees,
            r.pool_v().strings.len() == layout_contents(layout@).names.len(),
            r.pool_v().tags.len() == layout_contents(layout@).tags.len(),
            r.pool_v().nodes.len() == layout_contents(layout@).trees.len(),
    {
        let mut b = MoveTypeLayoutBuilder::new();
        proof {
            let p = b.pool_v();
            assert(p.strings.to_set() =~= Set::<Seq<u8>>::empty());
            assert(p.tags.to_set() =~= Set::<StructTagV>::empty());
            assert(node_trees(p) =~= Set::<LayoutV>::empty());
            assert(join(pool_contents(p), layout_contents(layout@)) =~= layout_contents(layout@));
        }
        let root = b.intern_tree(layout);
        proof {
            let p = b.pool_v();
            assert(pool_contents(p) =~= layout_contents(layout@));
            p.strings.unique_seq_to_set();
            p.tags.unique_seq_to_set();
            lemma_node_trees_len(p);
        }
        b.build(root)
    }
}

} // verus!
