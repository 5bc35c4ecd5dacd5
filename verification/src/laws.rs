//! How the representations of a layout correspond: each primitive of a tree
//! layout, of a view, of a leaf type and of a type tag stands for the
//! primitive of the same name; the text of a layout begins with the text of
//! its type; and enum variants are ordered by name before tag.

use vstd::prelude::*;
use crate::language_storage::{TypeTag, TypeTagV};
use crate::annotated_value::{LayoutV, MoveTypeLayout as TreeMoveTypeLayout};
use crate::layout::{LeafType, MoveLayoutView, layout_type_tag, leaf_layout};
use crate::display::{layout_text, type_tag_text};
use crate::variant_order::{bytes_lt, key_lt};

verus! {

/// Each kind of tree layout denotes the layout of the same kind: a `u128`
/// tree is the `u128` layout, a vector tree a vector layout, and so on.
pub proof fn lemma_tree_layout_kind(t: TreeMoveTypeLayout)
    ensures
        t is Bool <==> t@ is Bool,
        t is U8 <==> t@ is U8,
        t is U16 <==> t@ is U16,
        t is U32 <==> t@ is U32,
        t is U64 <==> t@ is U64,
        t is U128 <==> t@ is U128,
        t is U256 <==> t@ is U256,
        t is Address <==> t@ is Address,
        t is Signer <==> t@ is Signer,
        t is Vector <==> t@ is Vector,
        t is Struct <==> t@ is Struct,
        t is Enum <==> t@ is Enum,
{
}

/// Each kind of view shows the layout of the same kind: a `u8` view shows
/// the `u8` layout, a struct view a struct layout, and so on.
pub proof fn lemma_view_kind(v: MoveLayoutView)
    ensures
        v is Bool <==> v.tree() is Bool,
        v is U8 <==> v.tree() is U8,
        v is U16 <==> v.tree() is U16,
        v is U32 <==> v.tree() is U32,
        v is U64 <==> v.tree() is U64,
        v is U128 <==> v.tree() is U128,
        v is U256 <==> v.tree() is U256,
        v is Address <==> v.tree() is Address,
        v is Signer <==> v.tree() is Signer,
        v is Vector <==> v.tree() is Vector,
        v is Struct <==> v.tree() is Struct,
        v is Enum <==> v.tree() is Enum,
{
}

/// Each leaf type stands for the primitive layout of the same name.
pub proof fn lemma_leaf_kind(t: LeafType)
    ensures
        t is Bool <==> leaf_layout(t) is Bool,
        t is U8 <==> leaf_layout(t) is U8,
        t is U16 <==> leaf_layout(t) is U16,
        t is U32 <==> leaf_layout(t) is U32,
        t is U64 <==> leaf_layout(t) is U64,
        t is U128 <==> leaf_layout(t) is U128,
        t is U256 <==> leaf_layout(t) is U256,
        t is Address <==> leaf_layout(t) is Address,
        t is Signer <==> leaf_layout(t) is Signer,
{
}

/// Each kind of type tag denotes the type of the same kind.
pub proof fn lemma_type_tag_kind(t: TypeTag)
    ensures
        t is Bool <==> t@ is Bool,
        t is U8 <==> t@ is U8,
        t is U16 <==> t@ is U16,
        t is U32 <==> t@ is U32,
        t is U64 <==> t@ is U64,
        t is U128 <==> t@ is U128,
        t is U256 <==> t@ is U256,
        t is Address <==> t@ is Address,
        t is Signer <==> t@ is Signer,
        t is Vector <==> t@ is Vector,
        t is Struct <==> t@ is Struct,
{
}

/// The type of a primitive layout is the primitive type of the same name,
/// the type of a vector layout is a vector type, and the type of a struct or
/// an enum layout is a struct type.
pub proof fn lemma_layout_type_kind(t: LayoutV)
    ensures
        t is Bool <==> layout_type_tag(t) is Bool,
        t is U8 <==> layout_type_tag(t) is U8,
        t is U16 <==> layout_type_tag(t) is U16,
        t is U32 <==> layout_type_tag(t) is U32,
        t is U64 <==> layout_type_tag(t) is U64,
        t is U128 <==> layout_type_tag(t) is U128,
        t is U256 <==> layout_type_tag(t) is U256,
        t is Address <==> layout_type_tag(t) is Address,
        t is Signer <==> layout_type_tag(t) is Signer,
        t is Vector <==> layout_type_tag(t) is Vector,
        (t is Struct || t is Enum) <==> layout_type_tag(t) is Struct,
{
}

/// The text of a layout begins with the text of its type: a primitive
/// layout prints as its type does, and a struct or an enum layout prints its
/// full struct tag, type arguments included, then ` { `.
pub proof fn lemma_layout_text_starts_with_type(t: LayoutV)
    ensures
        !(t is Vector || t is Struct || t is Enum) ==> layout_text(t) == type_tag_text(layout_type_tag(t)),
        (t is Struct || t is Enum) ==> {
            let head = type_tag_text(layout_type_tag(t)) + " { "@;
            &&& head.len() <= layout_text(t).len()
            &&& layout_text(t).take(head.len() as int) == head
        },
{
    let head = type_tag_text(layout_type_tag(t)) + " { "@;
    match t {
        LayoutV::Struct(tag, fs) => {
            let rest = crate::display::field_list_text(fs, fs.len() as int) + " }"@;
            assert(layout_text(t) =~= head + rest);
            assert((head + rest).take(head.len() as int) =~= head);
        },
        LayoutV::Enum(tag, vs) => {
            let rest = crate::display::variant_list_text(vs, vs.len() as int) + " }"@;
            assert(layout_text(t) =~= head + rest);
            assert((head + rest).take(head.len() as int) =~= head);
        },
        _ => {},
    }
}

/// Byte strings are ordered lexicographically: at the first position where
/// they differ the smaller byte decides, and a proper prefix comes first.
pub proof fn lemma_bytes_lt_lexicographic(a: Seq<u8>, b: Seq<u8>, k: int)
    requires
        0 <= k <= a.len(),
        k <= b.len(),
        a.take(k) == b.take(k),
    ensures
        k < a.len() && k < b.len() && a[k] < b[k] ==> bytes_lt(a, b),
        k < a.len() && k < b.len() && a[k] > b[k] ==> !bytes_lt(a, b),
        k == a.len() && k < b.len() ==> bytes_lt(a, b),
        k == a.len() && k == b.len() ==> !bytes_lt(a, b),
    decreases k,
{
    if k > 0 {
        assert(a[0] == a.take(k)[0]);
        assert(b[0] == b.take(k)[0]);
        assert(a.drop_first().take(k - 1) =~= b.drop_first().take(k - 1)) by {
            assert forall|i: int| 0 <= i < k - 1 implies a.drop_first()[i] == b.drop_first()[i] by {
                assert(a.take(k)[i + 1] == a[i + 1]);
                assert(b.take(k)[i + 1] == b[i + 1]);
                assert(a.take(k)[i + 1] == b.take(k)[i + 1]);
            }
        }
        lemma_bytes_lt_lexicographic(a.drop_first(), b.drop_first(), k - 1);
    } else {
        if k == a.len() && k == b.len() {
            assert(a.len() == 0 && b.len() == 0);
        }
    }
}

/// Enum variant keys are ordered by name first; the tag orders only
/// variants of equal name.
pub proof fn lemma_variant_keys_by_name(n1: Seq<u8>, t1: u16, n2: Seq<u8>, t2: u16)
    ensures
        bytes_lt(n1, n2) ==> key_lt(n1, t1, n2, t2),
        bytes_lt(n2, n1) ==> !key_lt(n1, t1, n2, t2),
        n1 == n2 ==> (key_lt(n1, t1, n2, t2) <==> t1 < t2),
{
    crate::variant_order::lemma_bytes_lt_asymmetric(n2, n1);
    crate::variant_order::lemma_bytes_lt_irreflexive(n1);
}

} // verus!
