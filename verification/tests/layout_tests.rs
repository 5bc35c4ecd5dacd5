use compressed_layout::annotated_value::{
    MoveEnumLayout, MoveFieldLayout, MoveStructLayout, MoveTypeLayout as TreeLayout,
};
use compressed_layout::builder::{LayoutHandle, MoveTypeLayoutBuilder};
use compressed_layout::language_storage::{Identifier, StructTag, TypeTag};
use compressed_layout::layout::{
    LayoutError, LayoutRef, LeafType, MoveDatatypeLayout, MoveLayoutView, MoveTypeLayout, ResolvedRef,
    VariantFieldView,
};

fn addr(last: u8) -> [u8; 32] {
    let mut a = [0u8; 32];
    a[31] = last;
    a
}

fn tag(address: [u8; 32], module: &str, name: &str, type_params: Vec<TypeTag>) -> StructTag {
    StructTag { address, module: Identifier::new(module), name: Identifier::new(name), type_params }
}

fn field(name: &str, layout: TreeLayout) -> MoveFieldLayout {
    MoveFieldLayout::new(Identifier::new(name), layout)
}

/// `0x2::coin::Coin { id: 0x2::object::UID { bytes: address }, value: u64 }`
fn coin_tree() -> TreeLayout {
    let uid = TreeLayout::Struct(Box::new(MoveStructLayout {
        type_: tag(addr(2), "object", "UID", vec![]),
        fields: vec![field("bytes", TreeLayout::Address)],
    }));
    TreeLayout::Struct(Box::new(MoveStructLayout {
        type_: tag(addr(2), "coin", "Coin", vec![]),
        fields: vec![field("id", uid), field("value", TreeLayout::U64)],
    }))
}

#[test]
fn leaf_layouts_have_empty_pools() {
    let l = MoveTypeLayout::u64();
    assert_eq!(l.node_count(), 0);
    assert_eq!(l.string_count(), 0);
    assert_eq!(l.tag_count(), 0);
    assert!(matches!(l.as_view(), MoveLayoutView::U64));
    assert_eq!(l.as_view().to_string(), "u64");
    assert_eq!(MoveTypeLayout::bool().as_view().to_string(), "bool");
    assert_eq!(MoveTypeLayout::address().as_view().to_string(), "address");
    assert_eq!(MoveTypeLayout::signer().as_view().to_string(), "signer");
    assert_eq!(MoveTypeLayout::u256().as_view().to_string(), "u256");
}

#[test]
fn leaf_refs_resolve_to_their_type() {
    let r = LayoutRef::leaf(LeafType::U128);
    assert_eq!(r.0, 0x8005);
    assert_eq!(r.resolve(), ResolvedRef::Leaf(LeafType::U128));
    assert_eq!(LayoutRef::index(7).resolve(), ResolvedRef::Index(7));
    assert_eq!(LayoutRef::index(0x7FFF).resolve(), ResolvedRef::Index(0x7FFF));
    assert_eq!(LeafType::from_u8(8), Some(LeafType::Signer));
    assert_eq!(LeafType::from_u8(9), None);
    assert_eq!(LeafType::Address.discriminant(), 7);
}

#[test]
fn builder_struct_layout_and_views() {
    let mut b = MoveTypeLayoutBuilder::new();
    let a = Identifier::new("a");
    let bn = Identifier::new("b");
    let t = tag(addr(2), "m", "S", vec![]);
    let u64h = b.u64();
    let u8h = b.u8();
    let vec_u8 = b.vector(u8h);
    let root = b.struct_layout(&t, &[(&a, u64h), (&bn, vec_u8)]);
    let l = b.build(root);
    assert_eq!(l.node_count(), 2);
    assert_eq!(l.string_count(), 2);
    assert_eq!(l.tag_count(), 1);
    assert_eq!(l.as_view().to_string(), "0x2::m::S { a: u64, b: vector<u8> }");
    match l.as_view() {
        MoveLayoutView::Struct(sv) => {
            assert_eq!(sv.field_count(), 2);
            let (name, view) = sv.field(1).unwrap();
            assert_eq!(name.as_bytes(), b"b");
            assert_eq!(view.to_string(), "vector<u8>");
            assert!(sv.field(2).is_none());
            assert_eq!(sv.field_view().field_by_name("a").unwrap().to_string(), "u64");
            assert!(sv.field_view().field_by_name("c").is_none());
            let all = sv.fields();
            assert_eq!(all.len(), 2);
            assert_eq!(all[0].0.as_bytes(), b"a");
            assert_eq!(sv.to_string(), "0x2::m::S { a: u64, b: vector<u8> }");
            assert!(sv.is_type(&TypeTag::Struct(Box::new(tag(addr(2), "m", "S", vec![])))));
            assert!(!sv.is_type(&TypeTag::Struct(Box::new(tag(addr(3), "m", "S", vec![])))));
        }
        _ => panic!("expected a struct view"),
    }
}

#[test]
fn builder_deduplicates_nodes_names_and_tags() {
    let mut b = MoveTypeLayoutBuilder::new();
    let x = Identifier::new("x");
    let t = tag(addr(2), "m", "S", vec![]);
    let u8h = b.u8();
    let v1 = b.vector(u8h);
    let v2 = b.vector(u8h);
    let s1 = b.struct_layout(&t, &[(&x, v1), (&x, v2)]);
    let s2 = b.struct_layout(&t, &[(&x, v1), (&x, v2)]);
    let outer = b.vector(s1);
    let l = b.build(outer);
    // vector<u8>, S and vector<S>; the name and the tag once each
    assert_eq!(l.node_count(), 3);
    assert_eq!(l.string_count(), 1);
    assert_eq!(l.tag_count(), 1);
    assert_eq!(l.as_view().to_string(), "vector<0x2::m::S { x: vector<u8>, x: vector<u8> }>");
    let _unused: LayoutHandle = s2;
}

#[test]
fn builder_enum_with_unknown_variant() {
    let mut b = MoveTypeLayoutBuilder::new();
    let va = Identifier::new("A");
    let vb = Identifier::new("B");
    let x = Identifier::new("x");
    let t = tag(addr(0x2a), "m", "E", vec![]);
    let u8h = b.u8();
    let fields = [(&x, u8h)];
    let root = b.enum_layout(&t, &[(&va, 0, Some(&fields[..])), (&vb, 1, None)]);
    let l = b.build(root);
    assert_eq!(l.as_view().to_string(), "0x2a::m::E { A(x: u8), B(?) }");
    assert_eq!(l.inflate().unwrap_err(), LayoutError::UnknownVariantLayout);
    assert_eq!(LayoutError::UnknownVariantLayout.message(), "cannot inflate enum with unknown variant layout");
    match l.as_view() {
        MoveLayoutView::Enum(ev) => {
            assert_eq!(ev.variant_count(), 2);
            let (name, vt, vfv) = ev.variant(0).unwrap();
            assert_eq!(name.as_bytes(), b"A");
            assert_eq!(vt, 0);
            assert!(matches!(vfv, VariantFieldView::Known(_)));
            let (name, vfv) = ev.variant_by_tag(1).unwrap();
            assert_eq!(name.as_bytes(), b"B");
            assert!(matches!(vfv, VariantFieldView::Unknown));
            assert!(ev.variant_by_tag(5).is_none());
            assert!(ev.variant(2).is_none());
            assert_eq!(ev.variants().len(), 2);
            assert_eq!(ev.to_string(), "0x2a::m::E { A(x: u8), B(?) }");
        }
        _ => panic!("expected an enum view"),
    }
    assert_eq!(l.enum_variant_field_sublayout(0, 0).unwrap().as_view().to_string(), "u8");
    assert!(l.enum_variant_field_sublayout(0, 1).is_none());
    assert!(l.enum_variant_field_sublayout(1, 0).is_none());
    assert!(l.enum_variant_field_sublayout(9, 0).is_none());
}

#[test]
fn from_tree_counts_distinct_parts() {
    let l = MoveTypeLayout::from_tree(&coin_tree());
    // Coin and UID; names id, value, bytes; tags Coin and UID
    assert_eq!(l.node_count(), 2);
    assert_eq!(l.string_count(), 3);
    assert_eq!(l.tag_count(), 2);
    assert_eq!(
        l.as_view().to_string(),
        "0x2::coin::Coin { id: 0x2::object::UID { bytes: address }, value: u64 }"
    );
}

#[test]
fn from_tree_then_inflate_gives_the_tree_back() {
    let l = MoveTypeLayout::from_tree(&coin_tree());
    let back = l.inflate().unwrap();
    let again = MoveTypeLayout::from_tree(&back);
    assert_eq!(again.as_view().to_string(), l.as_view().to_string());
    assert_eq!(again.node_count(), l.node_count());
}

#[test]
fn enum_layout_keeps_variants_in_key_order() {
    let e = MoveEnumLayout::new(
        tag(addr(2), "m", "E", vec![]),
        vec![
            ((Identifier::new("B"), 1), vec![field("y", TreeLayout::U16)]),
            ((Identifier::new("A"), 0), vec![]),
            ((Identifier::new("B"), 1), vec![field("z", TreeLayout::U32)]),
        ],
    );
    let vs = e.variants();
    assert_eq!(vs.len(), 2);
    assert_eq!(vs[0].0 .0.as_bytes(), b"A");
    assert_eq!(vs[1].0 .0.as_bytes(), b"B");
    assert_eq!(vs[1].1[0].name.as_bytes(), b"z");
    let l = MoveTypeLayout::from_tree(&TreeLayout::Enum(Box::new(e)));
    assert_eq!(l.as_view().to_string(), "0x2::m::E { A(), B(z: u32) }");
    assert!(l.inflate().is_ok());
}

#[test]
fn sublayouts_share_the_pool() {
    let l = MoveTypeLayout::from_tree(&coin_tree());
    let id = l.struct_field_sublayout(0).unwrap();
    assert_eq!(id.node_count(), l.node_count());
    assert_eq!(id.as_view().to_string(), "0x2::object::UID { bytes: address }");
    assert!(l.struct_field_sublayout(2).is_none());
    assert!(l.vector_element_sublayout().is_none());
    let v = MoveTypeLayout::from_tree(&TreeLayout::Vector(Box::new(TreeLayout::U8)));
    assert_eq!(v.vector_element_sublayout().unwrap().as_view().to_string(), "u8");
}

#[test]
fn datatype_layouts_are_structs_or_enums() {
    assert!(MoveDatatypeLayout::new(MoveTypeLayout::u64()).is_none());
    let d = MoveDatatypeLayout::new(MoveTypeLayout::from_tree(&coin_tree())).unwrap();
    assert_eq!(d.as_layout().node_count(), 2);
    assert!(d.inflate().is_ok());
    assert_eq!(d.into_layout().tag_count(), 2);
}

#[test]
fn type_tags_of_layouts() {
    let l = MoveTypeLayout::from_tree(&TreeLayout::Vector(Box::new(coin_tree())));
    let t = TypeTag::from_view(l.as_view());
    assert_eq!(t.to_string(), "vector<0x2::coin::Coin>");
    assert!(l.as_view().is_type(&t));
    assert!(!l.as_view().is_type(&TypeTag::Vector(Box::new(TypeTag::U64))));
    assert!(MoveTypeLayout::u8().as_view().is_type(&TypeTag::U8));
}

#[test]
fn struct_tag_text_trims_the_address() {
    let generic = tag(addr(0), "m", "G", vec![TypeTag::U8, TypeTag::Vector(Box::new(TypeTag::Address))]);
    assert_eq!(generic.to_string(), "0x0::m::G<u8, vector<address>>");
    let mut full = [0u8; 32];
    full[0] = 0x0a;
    full[31] = 0xff;
    let long = tag(full, "x", "Y", vec![]);
    let text = long.to_string();
    assert!(text.starts_with("0xa0000"));
    assert!(text.ends_with("00ff::x::Y"));
    assert_eq!(text.len(), 2 + 63 + 6);
}

#[test]
fn interning_a_tree_twice_adds_nothing() {
    let mut b = MoveTypeLayoutBuilder::default();
    let coin = coin_tree();
    let first = b.intern_tree(&coin);
    let second = b.intern_tree(&coin);
    let l = b.build(second);
    assert_eq!(l.node_count(), 2);
    assert_eq!(l.string_count(), 3);
    assert_eq!(l.tag_count(), 2);
    let _kept: LayoutHandle = first;
}

#[test]
fn leaf_handles_are_inline() {
    let mut b = MoveTypeLayoutBuilder::new();
    let h = b.signer();
    let l = b.build(h);
    assert_eq!(l.node_count(), 0);
    assert_eq!(l.as_view().to_string(), "signer");
}

#[test]
fn repeated_struct_and_enum_layouts_are_held_once() {
    let mut b = MoveTypeLayoutBuilder::new();
    let a = Identifier::new("a");
    let s = tag(addr(1), "m", "S", vec![]);
    let u = b.u8();
    let _h1 = b.struct_layout(&s, &[(&a, u)]);
    let h2 = b.struct_layout(&s, &[(&a, u)]);
    let l = b.build(h2);
    assert_eq!((l.node_count(), l.string_count(), l.tag_count()), (1, 1, 1));

    let mut b = MoveTypeLayoutBuilder::new();
    let (va, vb, x) = (Identifier::new("A"), Identifier::new("B"), Identifier::new("x"));
    let e = tag(addr(1), "m", "E", vec![]);
    let u = b.u8();
    let v = b.u16();
    let fa = [(&x, u)];
    let fb = [(&x, v)];
    let h = b.enum_layout(&e, &[(&va, 0, Some(&fa[..])), (&vb, 1, Some(&fb[..]))]);
    let l = b.build(h);
    assert_eq!((l.node_count(), l.string_count(), l.tag_count()), (1, 3, 1));
    assert_eq!(l.as_view().to_string(), "0x1::m::E { A(x: u8), B(x: u16) }");
}
