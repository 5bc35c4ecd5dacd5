//! Integer-sequence keys under which the builder interns names, struct tags
//! and nodes.  Each key determines the value it was made from.

use vstd::prelude::*;
use crate::language_storage::{StructTag, StructTagV, TypeTag, TypeTagV, lemma_type_params_view};
use crate::layout::{LayoutRef, MoveTypeNode, NodeV, VariantEntryV, variant_entry_view};

verus! {

// ---------------------------------------------------------------------------
// Byte strings
// ---------------------------------------------------------------------------

/// Bytes shifted up by one, closed by a 0.
pub open spec fn bytes_key(b: Seq<u8>) -> Seq<u64>
    decreases b.len(),
{
    if b.len() == 0 {
        seq![0u64]
    } else {
        seq![(b[0] as u64 + 1) as u64] + bytes_key(b.drop_first())
    }
}

proof fn lemma_bytes_key_prefix(a: Seq<u8>, b: Seq<u8>, r1: Seq<u64>, r2: Seq<u64>)
    requires
        bytes_key(a) + r1 == bytes_key(b) + r2,
    ensures
        a == b,
        r1 == r2,
    decreases a.len(),
{
    let x = bytes_key(a) + r1;
    let y = bytes_key(b) + r2;
    assert(x[0] == y[0]);
    if a.len() == 0 {
        assert(b.len() == 0);
        assert(a =~= b);
        assert(r1 =~= x.drop_first());
        assert(r2 =~= y.drop_first());
    } else {
        assert(b.len() > 0);
        assert(x.drop_first() =~= bytes_key(a.drop_first()) + r1);
        assert(y.drop_first() =~= bytes_key(b.drop_first()) + r2);
        lemma_bytes_key_prefix(a.drop_first(), b.drop_first(), r1, r2);
        assert(a =~= seq![a[0]] + a.drop_first());
        assert(b =~= seq![b[0]] + b.drop_first());
    }
}

/// Equal keys come from equal byte strings.
pub proof fn lemma_bytes_key_injective(a: Seq<u8>, b: Seq<u8>)
    requires
        bytes_key(a) == bytes_key(b),
    ensures
        a == b,
{
    assert(bytes_key(a) + Seq::<u64>::empty() =~= bytes_key(a));
    assert(bytes_key(b) + Seq::<u64>::empty() =~= bytes_key(b));
    lemma_bytes_key_prefix(a, b, Seq::empty(), Seq::empty());
}

proof fn lemma_bytes_key_alt(b: Seq<u8>)
    ensures
        bytes_key(b) == Seq::new(b.len(), |i: int| (b[i] as u64 + 1) as u64).push(0u64),
    decreases b.len(),
{
    if b.len() > 0 {
        lemma_bytes_key_alt(b.drop_first());
        assert(bytes_key(b) =~= Seq::new(b.len(), |i: int| (b[i] as u64 + 1) as u64).push(0u64));
    } else {
        assert(bytes_key(b) =~= Seq::new(b.len(), |i: int| (b[i] as u64 + 1) as u64).push(0u64));
    }
}

/// Append the key of `b` to `out`.
pub fn push_bytes_key(out: &mut Vec<u64>, b: &[u8])
    ensures
        final(out)@ == old(out)@ + bytes_key(b@),
{
    let ghost start = out@;
    let mut i: usize = 0;
    while i < b.len()
        invariant
            i <= b@.len(),
            out@ == start + Seq::new(i as nat, |j: int| (b@[j] as u64 + 1) as u64),
        decreases b@.len() - i,
    {
        out.push(b[i] as u64 + 1);
        i = i + 1;
        assert(out@ =~= start + Seq::new(i as nat, |j: int| (b@[j] as u64 + 1) as u64));
    }
    out.push(0);
    proof {
        lemma_bytes_key_alt(b@);
        assert(out@ =~= start + bytes_key(b@));
    }
}

// ---------------------------------------------------------------------------
// Type tags and struct tags
// ---------------------------------------------------------------------------

/// Marks the end of a list of type parameters.
pub open spec fn list_end() -> u64 {
    11
}

/// The key of a type tag: a code per primitive, a prefix code for vectors
/// and structs.
pub open spec fn type_key(t: TypeTagV) -> Seq<u64>
    decreases t,
{
    match t {
        TypeTagV::Bool => seq![0u64],
        TypeTagV::U8 => seq![1u64],
        TypeTagV::U16 => seq![2u64],
        TypeTagV::U32 => seq![3u64],
        TypeTagV::U64 => seq![4u64],
        TypeTagV::U128 => seq![5u64],
        TypeTagV::U256 => seq![6u64],
        TypeTagV::Address => seq![7u64],
        TypeTagV::Signer => seq![8u64],
        TypeTagV::Vector(e) => seq![9u64] + type_key(*e),
        TypeTagV::Struct(s) => seq![10u64] + tag_key(s),
    }
}

/// The key of a struct tag: its address, module, name and type parameters.
pub open spec fn tag_key(s: StructTagV) -> Seq<u64>
    decreases s,
{
    bytes_key(s.address) + (bytes_key(s.module) + (bytes_key(s.name) + types_key(s.type_params)))
}

/// The keys of a list of type tags, closed by [`list_end`].
pub open spec fn types_key(ps: Seq<TypeTagV>) -> Seq<u64>
    decreases ps,
{
    if ps.len() == 0 {
        seq![list_end()]
    } else {
        type_key(ps[0]) + types_key(ps.drop_first())
    }
}

proof fn lemma_type_key_head(t: TypeTagV)
    ensures
        type_key(t).len() > 0,
        type_key(t)[0] <= 10,
{
}

proof fn lemma_type_key_prefix(a: TypeTagV, b: TypeTagV, r1: Seq<u64>, r2: Seq<u64>)
    requires
        type_key(a) + r1 == type_key(b) + r2,
    ensures
        a == b,
        r1 == r2,
    decreases a,
{
    let x = type_key(a) + r1;
    let y = type_key(b) + r2;
    assert(x[0] == y[0]);
    match a {
        TypeTagV::Vector(e) => {
            if let TypeTagV::Vector(f) = b {
                assert(x.drop_first() =~= type_key(*e) + r1);
                assert(y.drop_first() =~= type_key(*f) + r2);
                lemma_type_key_prefix(*e, *f, r1, r2);
            }
        },
        TypeTagV::Struct(s) => {
            if let TypeTagV::Struct(u) = b {
                assert(x.drop_first() =~= tag_key(s) + r1);
                assert(y.drop_first() =~= tag_key(u) + r2);
                lemma_tag_key_prefix(s, u, r1, r2);
            }
        },
        _ => {
            assert(r1 =~= x.drop_first());
            assert(r2 =~= y.drop_first());
        },
    }
}

proof fn lemma_tag_key_prefix(a: StructTagV, b: StructTagV, r1: Seq<u64>, r2: Seq<u64>)
    requires
        tag_key(a) + r1 == tag_key(b) + r2,
    ensures
        a == b,
        r1 == r2,
    decreases a,
{
    let ra3 = types_key(a.type_params) + r1;
    let rb3 = types_key(b.type_params) + r2;
    let ra2 = bytes_key(a.name) + ra3;
    let rb2 = bytes_key(b.name) + rb3;
    let ra1 = bytes_key(a.module) + ra2;
    let rb1 = bytes_key(b.module) + rb2;
    assert(tag_key(a) + r1 =~= bytes_key(a.address) + ra1);
    assert(tag_key(b) + r2 =~= bytes_key(b.address) + rb1);
    lemma_bytes_key_prefix(a.address, b.address, ra1, rb1);
    lemma_bytes_key_prefix(a.module, b.module, ra2, rb2);
    lemma_bytes_key_prefix(a.name, b.name, ra3, rb3);
    lemma_types_key_prefix(a.type_params, b.type_params, r1, r2);
}

proof fn lemma_types_key_prefix(a: Seq<TypeTagV>, b: Seq<TypeTagV>, r1: Seq<u64>, r2: Seq<u64>)
    requires
        types_key(a) + r1 == types_key(b) + r2,
    ensures
        a == b,
        r1 == r2,
    decreases a,
{
    let x = types_key(a) + r1;
    let y = types_key(b) + r2;
    if a.len() == 0 {
        if b.len() > 0 {
            lemma_type_key_head(b[0]);
            assert(y[0] == type_key(b[0])[0]);
            assert(x[0] == list_end());
        }
        assert(a =~= b);
        assert(r1 =~= x.drop_first());
        assert(r2 =~= y.drop_first());
    } else {
        if b.len() == 0 {
            lemma_type_key_head(a[0]);
            assert(x[0] == type_key(a[0])[0]);
            assert(y[0] == list_end());
        }
        assert(x =~= type_key(a[0]) + (types_key(a.drop_first()) + r1));
        assert(y =~= type_key(b[0]) + (types_key(b.drop_first()) + r2));
        lemma_type_key_prefix(a[0], b[0], types_key(a.drop_first()) + r1, types_key(b.drop_first()) + r2);
        lemma_types_key_prefix(a.drop_first(), b.drop_first(), r1, r2);
        assert(a =~= seq![a[0]] + a.drop_first());
        assert(b =~= seq![b[0]] + b.drop_first());
    }
}

/// Equal keys come from equal struct tags.
pub proof fn lemma_tag_key_injective(a: StructTagV, b: StructTagV)
    requires
        tag_key(a) == tag_key(b),
    ensures
        a == b,
{
    assert(tag_key(a) + Seq::<u64>::empty() =~= tag_key(a));
    assert(tag_key(b) + Seq::<u64>::empty() =~= tag_key(b));
    lemma_tag_key_prefix(a, b, Seq::empty(), Seq::empty());
}

proof fn lemma_types_key_push(ps: Seq<TypeTagV>, t: TypeTagV)
    ensures
        types_key(ps.push(t)) == types_key(ps).drop_last() + type_key(t) + seq![list_end()],
        types_key(ps).len() > 0,
        types_key(ps).last() == list_end(),
    decreases ps.len(),
{
    let q = ps.push(t);
    assert(q.len() > 0);
    assert(types_key(q) == type_key(q[0]) + types_key(q.drop_first()));
    if ps.len() == 0 {
        assert(q.drop_first() =~= Seq::<TypeTagV>::empty());
        assert(q[0] == t);
        assert(types_key(ps) == seq![list_end()]);
        assert(types_key(ps).drop_last() =~= Seq::<u64>::empty());
        assert(types_key(q) =~= types_key(ps).drop_last() + type_key(t) + seq![list_end()]);
    } else {
        lemma_types_key_push(ps.drop_first(), t);
        assert(q.drop_first() =~= ps.drop_first().push(t));
        assert(q[0] == ps[0]);
        let a = type_key(ps[0]);
        let b = types_key(ps.drop_first());
        assert(types_key(ps) == a + b);
        assert((a + b).drop_last() =~= a + b.drop_last());
        assert(types_key(q) =~= types_key(ps).drop_last() + type_key(t) + seq![list_end()]);
    }
}

/// Append the key of a type tag to `out`.
pub fn push_type_key(out: &mut Vec<u64>, t: &TypeTag)
    ensures
        final(out)@ == old(out)@ + type_key(t@),
    decreases t,
{
    match t {
        TypeTag::Bool => out.push(0),
        TypeTag::U8 => out.push(1),
        TypeTag::U16 => out.push(2),
        TypeTag::U32 => out.push(3),
        TypeTag::U64 => out.push(4),
        TypeTag::U128 => out.push(5),
        TypeTag::U256 => out.push(6),
        TypeTag::Address => out.push(7),
        TypeTag::Signer => out.push(8),
        TypeTag::Vector(e) => {
            let ghost start = out@;
            out.push(9);
            push_type_key(out, &**e);
            assert(out@ =~= start + type_key(t@));
        },
        TypeTag::Struct(s) => {
            let ghost start = out@;
            out.push(10);
            push_tag_key(out, &**s);
            assert(out@ =~= start + type_key(t@));
        },
    }
}

/// Append the key of a struct tag to `out`.
pub fn push_tag_key(out: &mut Vec<u64>, s: &StructTag)
    ensures
        final(out)@ == old(out)@ + tag_key(s@),
    decreases s,
{
    let ghost start = out@;
    push_bytes_key(out, s.address.as_slice());
    push_bytes_key(out, s.module.as_bytes());
    push_bytes_key(out, s.name.as_bytes());
    let ghost mid = out@;
    let ghost ps = s@.type_params;
    proof {
        lemma_type_params_view(s.type_params@);
    }
    let n = s.type_params.len();
    let mut i: usize = 0;
    proof {
        assert(ps.take(0) =~= Seq::<TypeTagV>::empty());
    }
    while i < n
        invariant
            n == s.type_params@.len(),
            ps == s@.type_params,
            ps.len() == n,
            forall|j: int| 0 <= j < n ==> #[trigger] ps[j] == s.type_params@[j].view(),
            i <= n,
            out@ == mid + types_key(ps.take(i as int)).drop_last(),
        decreases n - i,
    {
        let ghost before = out@;
        push_type_key(out, &s.type_params[i]);
        proof {
            lemma_types_key_push(ps.take(i as int), ps[i as int]);
            assert(ps.take(i as int).push(ps[i as int]) =~= ps.take(i + 1));
            let k1 = types_key(ps.take(i + 1));
            assert(k1 =~= types_key(ps.take(i as int)).drop_last() + type_key(ps[i as int]) + seq![list_end()]);
            assert(k1.drop_last() =~= types_key(ps.take(i as int)).drop_last() + type_key(ps[i as int]));
        }
        i = i + 1;
    }
    out.push(11);
    proof {
        assert(ps.take(n as int) =~= ps);
        lemma_types_key_push(Seq::empty(), TypeTagV::Bool);
        if n == 0 {
            assert(types_key(ps) =~= seq![list_end()]);
        } else {
            lemma_types_key_push(ps.drop_last(), ps.last());
            assert(ps.drop_last().push(ps.last()) =~= ps);
        }
        assert(types_key(ps) =~= types_key(ps).drop_last().push(list_end()));
        assert(s.address@ == s@.address);
        assert(out@ =~= start + tag_key(s@));
    }
}


// ---------------------------------------------------------------------------
// Nodes
// ---------------------------------------------------------------------------

/// The key of a list of (name index, reference) fields, each name index
/// shifted by one and the list closed by a zero.
pub open spec fn fields_key(fs: Seq<(u16, LayoutRef)>) -> Seq<u64>
    decreases fs.len(),
{
    if fs.len() == 0 {
        seq![0u64]
    } else {
        seq![(fs[0].0 as u64 + 1) as u64, fs[0].1.0 as u64] + fields_key(fs.drop_first())
    }
}

/// The key of a variant entry: name index, tag and fields when known.
pub open spec fn entry_key(v: VariantEntryV) -> Seq<u64> {
    seq![(v.0 as u64 + 1) as u64, v.1 as u64] + match v.2 {
        None => seq![0u64],
        Some(fs) => seq![1u64] + fields_key(fs),
    }
}

/// The keys of a list of variant entries, closed by a zero.
pub open spec fn entries_key(vs: Seq<VariantEntryV>) -> Seq<u64>
    decreases vs.len(),
{
    if vs.len() == 0 {
        seq![0u64]
    } else {
        entry_key(vs[0]) + entries_key(vs.drop_first())
    }
}

/// The key of a node: its kind, then its contents.
pub open spec fn node_key(n: NodeV) -> Seq<u64> {
    match n {
        NodeV::Vector(r) => seq![0u64, r.0 as u64],
        NodeV::Struct(t, fs) => seq![1u64, t as u64] + fields_key(fs),
        NodeV::Enum(t, vs) => seq![2u64, t as u64] + entries_key(vs),
    }
}

proof fn lemma_fields_key_prefix(a: Seq<(u16, LayoutRef)>, b: Seq<(u16, LayoutRef)>, r1: Seq<u64>, r2: Seq<u64>)
    requires
        fields_key(a) + r1 == fields_key(b) + r2,
    ensures
        a == b,
        r1 == r2,
    decreases a.len(),
{
    let x = fields_key(a) + r1;
    let y = fields_key(b) + r2;
    assert(x[0] == y[0]);
    if a.len() == 0 {
        assert(a =~= b);
        assert(r1 =~= x.drop_first());
        assert(r2 =~= y.drop_first());
    } else {
        assert(b.len() > 0);
        assert(x[1] == y[1]);
        assert(x.subrange(2, x.len() as int) =~= fields_key(a.drop_first()) + r1);
        assert(y.subrange(2, y.len() as int) =~= fields_key(b.drop_first()) + r2);
        lemma_fields_key_prefix(a.drop_first(), b.drop_first(), r1, r2);
        assert(a[0].1 == b[0].1);
        assert(a =~= seq![a[0]] + a.drop_first());
        assert(b =~= seq![b[0]] + b.drop_first());
    }
}

proof fn lemma_entries_key_prefix(a: Seq<VariantEntryV>, b: Seq<VariantEntryV>, r1: Seq<u64>, r2: Seq<u64>)
    requires
        entries_key(a) + r1 == entries_key(b) + r2,
    ensures
        a == b,
        r1 == r2,
    decreases a.len(),
{
    let x = entries_key(a) + r1;
    let y = entries_key(b) + r2;
    assert(x[0] == y[0]);
    if a.len() == 0 {
        assert(a =~= b);
        assert(r1 =~= x.drop_first());
        assert(r2 =~= y.drop_first());
    } else {
        assert(b.len() > 0);
        let ra = entries_key(a.drop_first()) + r1;
        let rb = entries_key(b.drop_first()) + r2;
        assert(x[1] == y[1]);
        assert(x[2] == y[2]);
        let xs = x.subrange(3, x.len() as int);
        let ys = y.subrange(3, y.len() as int);
        match (a[0].2, b[0].2) {
            (Some(fa), Some(fb)) => {
                assert(xs =~= fields_key(fa) + ra);
                assert(ys =~= fields_key(fb) + rb);
                lemma_fields_key_prefix(fa, fb, ra, rb);
            },
            (None, None) => {
                assert(xs =~= ra);
                assert(ys =~= rb);
            },
            _ => {},
        }
        lemma_entries_key_prefix(a.drop_first(), b.drop_first(), r1, r2);
        assert(a[0] == b[0]);
        assert(a =~= seq![a[0]] + a.drop_first());
        assert(b =~= seq![b[0]] + b.drop_first());
    }
}

/// Equal keys come from equal nodes.
pub proof fn lemma_node_key_injective(a: NodeV, b: NodeV)
    requires
        node_key(a) == node_key(b),
    ensures
        a == b,
{
    let x = node_key(a);
    let y = node_key(b);
    assert(x[0] == y[0] && x[1] == y[1]);
    match (a, b) {
        (NodeV::Struct(ta, fa), NodeV::Struct(tb, fb)) => {
            assert(x.subrange(2, x.len() as int) + Seq::<u64>::empty() =~= fields_key(fa) + Seq::<u64>::empty());
            assert(y.subrange(2, y.len() as int) + Seq::<u64>::empty() =~= fields_key(fb) + Seq::<u64>::empty());
            lemma_fields_key_prefix(fa, fb, Seq::empty(), Seq::empty());
        },
        (NodeV::Enum(ta, va), NodeV::Enum(tb, vb)) => {
            assert(x.subrange(2, x.len() as int) + Seq::<u64>::empty() =~= entries_key(va) + Seq::<u64>::empty());
            assert(y.subrange(2, y.len() as int) + Seq::<u64>::empty() =~= entries_key(vb) + Seq::<u64>::empty());
            lemma_entries_key_prefix(va, vb, Seq::empty(), Seq::empty());
        },
        _ => {},
    }
}

proof fn lemma_fields_key_push(fs: Seq<(u16, LayoutRef)>, f: (u16, LayoutRef))
    ensures
        fields_key(fs.push(f)) == fields_key(fs).drop_last() + seq![(f.0 as u64 + 1) as u64, f.1.0 as u64, 0u64],
        fields_key(fs).len() > 0,
    decreases fs.len(),
{
    let q = fs.push(f);
    if fs.len() == 0 {
        assert(q.drop_first() =~= Seq::<(u16, LayoutRef)>::empty());
        assert(q[0] == f);
        assert(fields_key(q) == seq![(q[0].0 as u64 + 1) as u64, q[0].1.0 as u64] + fields_key(q.drop_first()));
        assert(fields_key(fs).drop_last() =~= Seq::<u64>::empty());
        assert(fields_key(q) =~= fields_key(fs).drop_last() + seq![(f.0 as u64 + 1) as u64, f.1.0 as u64, 0u64]);
    } else {
        lemma_fields_key_push(fs.drop_first(), f);
        assert(q.drop_first() =~= fs.drop_first().push(f));
        assert(q[0] == fs[0]);
        let a = seq![(fs[0].0 as u64 + 1) as u64, fs[0].1.0 as u64];
        let b = fields_key(fs.drop_first());
        assert((a + b).drop_last() =~= a + b.drop_last());
        assert(fields_key(q) =~= fields_key(fs).drop_last() + seq![(f.0 as u64 + 1) as u64, f.1.0 as u64, 0u64]);
    }
}

proof fn lemma_entries_key_push(vs: Seq<VariantEntryV>, v: VariantEntryV)
    ensures
        entries_key(vs.push(v)) == entries_key(vs).drop_last() + entry_key(v) + seq![0u64],
        entries_key(vs).len() > 0,
    decreases vs.len(),
{
    let q = vs.push(v);
    if vs.len() == 0 {
        assert(q.drop_first() =~= Seq::<VariantEntryV>::empty());
        assert(q[0] == v);
        assert(entries_key(q) == entry_key(q[0]) + entries_key(q.drop_first()));
        assert(entries_key(vs).drop_last() =~= Seq::<u64>::empty());
        assert(entries_key(q) =~= entries_key(vs).drop_last() + entry_key(v) + seq![0u64]);
    } else {
        lemma_entries_key_push(vs.drop_first(), v);
        assert(q.drop_first() =~= vs.drop_first().push(v));
        assert(q[0] == vs[0]);
        let a = entry_key(vs[0]);
        let b = entries_key(vs.drop_first());
        assert((a + b).drop_last() =~= a + b.drop_last());
        assert(entries_key(q) =~= entries_key(vs).drop_last() + entry_key(v) + seq![0u64]);
    }
}

/// Append the key of field entries to `out`.
fn push_fields_key(out: &mut Vec<u64>, fs: &[(u16, LayoutRef)])
    ensures
        final(out)@ == old(out)@ + fields_key(fs@),
{
    let ghost start = out@;
    let mut i: usize = 0;
    proof {
        assert(fs@.take(0) =~= Seq::<(u16, LayoutRef)>::empty());
    }
    while i < fs.len()
        invariant
            i <= fs@.len(),
            out@ == start + fields_key(fs@.take(i as int)).drop_last(),
        decreases fs@.len() - i,
    {
        let (n, r) = fs[i];
        out.push(n as u64 + 1);
        out.push(r.0 as u64);
        proof {
            lemma_fields_key_push(fs@.take(i as int), (n, r));
            assert(fs@.take(i as int).push((n, r)) =~= fs@.take(i + 1));
            let k1 = fields_key(fs@.take(i + 1));
            assert(k1.drop_last() =~= fields_key(fs@.take(i as int)).drop_last() + seq![(n as u64 + 1) as u64, r.0 as u64]);
        }
        i = i + 1;
    }
    out.push(0);
    proof {
        assert(fs@.take(i as int) =~= fs@);
        if fs@.len() == 0 {
            assert(fields_key(fs@) =~= seq![0u64]);
        } else {
            lemma_fields_key_push(fs@.drop_last(), fs@.last());
            assert(fs@.drop_last().push(fs@.last()) =~= fs@);
        }
        assert(fields_key(fs@) =~= fields_key(fs@).drop_last().push(0u64));
        assert(out@ =~= start + fields_key(fs@));
    }
}

/// Append the key of variant entries to `out`.
fn push_entries_key(out: &mut Vec<u64>, vs: &[(u16, u16, Option<Vec<(u16, LayoutRef)>>)])
    ensures
        final(out)@ == old(out)@ + entries_key(vs@.map_values(|v: (u16, u16, Option<Vec<(u16, LayoutRef)>>)| variant_entry_view(v))),
{
    let ghost start = out@;
    let ghost es = vs@.map_values(|v: (u16, u16, Option<Vec<(u16, LayoutRef)>>)| variant_entry_view(v));
    let mut i: usize = 0;
    proof {
        assert(es.take(0) =~= Seq::<VariantEntryV>::empty());
    }
    while i < vs.len()
        invariant
            i <= vs@.len(),
            es == vs@.map_values(|v: (u16, u16, Option<Vec<(u16, LayoutRef)>>)| variant_entry_view(v)),
            out@ == start + entries_key(es.take(i as int)).drop_last(),
        decreases vs@.len() - i,
    {
        let e = &vs[i];
        let ghost before = out@;
        out.push(e.0 as u64 + 1);
        out.push(e.1 as u64);
        match &e.2 {
            None => {
                out.push(0);
            },
            Some(f) => {
                out.push(1);
                push_fields_key(out, f.as_slice());
            },
        }
        proof {
            assert(es[i as int] == variant_entry_view(vs@[i as int]));
            assert(out@ =~= before + entry_key(es[i as int]));
            lemma_entries_key_push(es.take(i as int), es[i as int]);
            assert(es.take(i as int).push(es[i as int]) =~= es.take(i + 1));
            let k1 = entries_key(es.take(i + 1));
            assert(k1.drop_last() =~= entries_key(es.take(i as int)).drop_last() + entry_key(es[i as int]));
        }
        i = i + 1;
    }
    out.push(0);
    proof {
        assert(es.take(i as int) =~= es);
        if es.len() == 0 {
            assert(entries_key(es) =~= seq![0u64]);
        } else {
            lemma_entries_key_push(es.drop_last(), es.last());
            assert(es.drop_last().push(es.last()) =~= es);
        }
        assert(entries_key(es) =~= entries_key(es).drop_last().push(0u64));
        assert(out@ =~= start + entries_key(es));
    }
}

/// The key of a node.
pub fn node_key_of(n: &MoveTypeNode) -> (r: Vec<u64>)
    ensures
        r@ == node_key(n.view()),
{
    let mut out: Vec<u64> = Vec::new();
    match n {
        MoveTypeNode::Vector(e) => {
            out.push(0);
            out.push(e.0 as u64);
            assert(out@ =~= node_key(n.view()));
        },
        MoveTypeNode::Struct(st) => {
            out.push(1);
            out.push(st.type_ as u64);
            push_fields_key(&mut out, st.fields.as_slice());
            assert(out@ =~= node_key(n.view()));
        },
        MoveTypeNode::Enum(en) => {
            out.push(2);
            out.push(en.type_ as u64);
            push_entries_key(&mut out, en.variants.as_slice());
            assert(out@ =~= node_key(n.view()));
        },
    }
    out
}

} // verus!
