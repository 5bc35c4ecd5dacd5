//! The text of layouts and type tags, as their `Display` forms print it:
//! `0x2::coin::Coin<0x2::sui::SUI> { id: 0x2::object::UID { .. }, value: u64 }`.

use vstd::prelude::*;
use crate::language_storage::{Identifier, StructTag, StructTagV, TypeTag, TypeTagV, lemma_type_params_view};
use crate::annotated_value::{FieldV, LayoutV, VariantV};

verus! {

// ---------------------------------------------------------------------------
// Appending to a string
// ---------------------------------------------------------------------------

/// `String::push`: appends one character.
#[verifier::external_body]
pub(crate) fn push_char(s: &mut String, c: char)
    ensures
        final(s)@ == old(s)@.push(c),
{
    s.push(c)
}

/// `String::push_str`: appends the characters of `t`.
#[verifier::external_body]
pub(crate) fn push_text(s: &mut String, t: &str)
    ensures
        final(s)@ == old(s)@ + t@,
{
    s.push_str(t)
}

// ---------------------------------------------------------------------------
// The text, as specification
// ---------------------------------------------------------------------------

/// The lower-case hex digit of a value below 16.
pub open spec fn hex_digit(n: u8) -> char {
    (if n < 10 {
        48 + n
    } else {
        87 + n
    }) as u8 as char
}

/// Two lower-case hex digits per byte, high nibble first.
pub open spec fn hex_text(bs: Seq<u8>) -> Seq<char> {
    Seq::new(
        2 * bs.len(),
        |i: int|
            hex_digit(
                if i % 2 == 0 {
                    bs[i / 2] / 16
                } else {
                    bs[i / 2] % 16
                },
            ),
    )
}

/// The text without its leading `'0'` characters.
pub open spec fn skip_zeros(s: Seq<char>) -> Seq<char>
    decreases s.len(),
{
    if s.len() > 0 && s[0] == '0' {
        skip_zeros(s.drop_first())
    } else {
        s
    }
}

/// The short form of an address: its hex digits without leading zeros, and
/// `0` for the zero address.
pub open spec fn address_text(a: Seq<u8>) -> Seq<char> {
    let t = skip_zeros(hex_text(a));
    if t.len() == 0 {
        seq!['0']
    } else {
        t
    }
}

/// The text of an identifier: one character per byte.
pub open spec fn ident_text(id: Seq<u8>) -> Seq<char> {
    id.map_values(|b: u8| b as char)
}

/// `0x<address>::<module>::<name>`, then the type arguments in angle
/// brackets when there are any.
pub open spec fn struct_tag_text(t: StructTagV) -> Seq<char>
    decreases t, 0int,
{
    "0x"@ + address_text(t.address) + "::"@ + ident_text(t.module) + "::"@ + ident_text(t.name) + if t.type_params.len()
        == 0 {
        Seq::empty()
    } else {
        "<"@ + type_list_text(t.type_params, t.type_params.len() as int) + ">"@
    }
}

/// The first `k` type tags, separated by `", "`.
pub open spec fn type_list_text(ps: Seq<TypeTagV>, k: int) -> Seq<char>
    decreases ps, k,
{
    if k <= 0 || k > ps.len() {
        Seq::empty()
    } else if k == 1 {
        type_tag_text(ps[0])
    } else {
        type_list_text(ps, k - 1) + ", "@ + type_tag_text(ps[k - 1])
    }
}

/// The text of a type tag.
pub open spec fn type_tag_text(t: TypeTagV) -> Seq<char>
    decreases t, 0int,
{
    match t {
        TypeTagV::Bool => "bool"@,
        TypeTagV::U8 => "u8"@,
        TypeTagV::U16 => "u16"@,
        TypeTagV::U32 => "u32"@,
        TypeTagV::U64 => "u64"@,
        TypeTagV::U128 => "u128"@,
        TypeTagV::U256 => "u256"@,
        TypeTagV::Address => "address"@,
        TypeTagV::Signer => "signer"@,
        TypeTagV::Vector(e) => "vector<"@ + type_tag_text(*e) + ">"@,
        TypeTagV::Struct(s) => struct_tag_text(s),
    }
}

/// The text of a layout: a primitive's name, `vector<..>`, and for a struct
/// or an enum its type tag followed by its fields or variants in braces.
pub open spec fn layout_text(t: LayoutV) -> Seq<char>
    decreases t, 0int,
{
    match t {
        LayoutV::Bool => "bool"@,
        LayoutV::U8 => "u8"@,
        LayoutV::U16 => "u16"@,
        LayoutV::U32 => "u32"@,
        LayoutV::U64 => "u64"@,
        LayoutV::U128 => "u128"@,
        LayoutV::U256 => "u256"@,
        LayoutV::Address => "address"@,
        LayoutV::Signer => "signer"@,
        LayoutV::Vector(e) => "vector<"@ + layout_text(*e) + ">"@,
        LayoutV::Struct(tag, fs) => struct_tag_text(tag) + " { "@ + field_list_text(fs, fs.len() as int) + " }"@,
        LayoutV::Enum(tag, vs) => struct_tag_text(tag) + " { "@ + variant_list_text(vs, vs.len() as int) + " }"@,
    }
}

/// The first `k` fields as `name: layout`, separated by `", "`.
pub open spec fn field_list_text(fs: Seq<FieldV>, k: int) -> Seq<char>
    decreases fs, k,
{
    if k <= 0 || k > fs.len() {
        Seq::empty()
    } else {
        let item = ident_text(fs[k - 1].name) + ": "@ + layout_text(fs[k - 1].layout);
        if k == 1 {
            item
        } else {
            field_list_text(fs, k - 1) + ", "@ + item
        }
    }
}

/// The first `k` variants as `name(fields)`, with `?` for unknown fields,
/// separated by `", "`.
pub open spec fn variant_list_text(vs: Seq<VariantV>, k: int) -> Seq<char>
    decreases vs, k,
{
    if k <= 0 || k > vs.len() {
        Seq::empty()
    } else {
        let item = ident_text(vs[k - 1].name) + "("@ + match vs[k - 1].fields {
            Some(fs) => field_list_text(fs, fs.len() as int),
            None => "?"@,
        } + ")"@;
        if k == 1 {
            item
        } else {
            variant_list_text(vs, k - 1) + ", "@ + item
        }
    }
}

// ---------------------------------------------------------------------------
// Writing type tags
// ---------------------------------------------------------------------------

/// Append the hex digit of `n`.
fn push_hex_digit(out: &mut String, n: u8)
    requires
        n < 16,
    ensures
        final(out)@ == old(out)@.push(hex_digit(n)),
{
    let d: u8 = if n < 10 {
        48 + n
    } else {
        87 + n
    };
    push_char(out, d as char);
}

/// Skipping a run of leading zeros.
proof fn lemma_skip_zeros(s: Seq<char>, k: int)
    requires
        0 <= k <= s.len(),
        forall|i: int| 0 <= i < k ==> s[i] == '0',
        k < s.len() ==> s[k] != '0',
    ensures
        skip_zeros(s) == s.skip(k),
    decreases k,
{
    if k > 0 {
        lemma_skip_zeros(s.drop_first(), k - 1);
        assert(s.drop_first().skip(k - 1) =~= s.skip(k));
    } else {
        assert(s.skip(0) =~= s);
    }
}

/// Append the short form of an address.
pub fn push_address(out: &mut String, a: &[u8; 32])
    ensures
        final(out)@ == old(out)@ + address_text(a@),
{
    let ghost h = hex_text(a@);
    let mut k: usize = 0;
    while k < 64
        invariant
            k <= 64,
            a@.len() == 32,
            h == hex_text(a@),
            h.len() == 64,
            forall|i: int| 0 <= i < k ==> h[i] == '0',
        ensures
            k <= 64,
            forall|i: int| 0 <= i < k ==> h[i] == '0',
            k < 64 ==> h[k as int] != '0',
        decreases 64 - k,
    {
        let b = a[k / 2];
        let n: u8 = if k % 2 == 0 {
            b / 16
        } else {
            b % 16
        };
        assert(h[k as int] == hex_digit(n));
        if n != 0 {
            assert(hex_digit(n) as u32 != '0' as u32);
            break;
        }
        k = k + 1;
    }
    let ghost start = old(out)@;
    if k == 64 {
        proof {
            lemma_skip_zeros(h, 64);
            assert(h.skip(64) =~= Seq::<char>::empty());
        }
        push_char(out, '0');
    } else {
        proof {
            lemma_skip_zeros(h, k as int);
        }
        let mut i: usize = k;
        while i < 64
            invariant
                k <= i <= 64,
                a@.len() == 32,
                h == hex_text(a@),
                h.len() == 64,
                out@ == start + h.subrange(k as int, i as int),
            decreases 64 - i,
        {
            let b = a[i / 2];
            let n: u8 = if i % 2 == 0 {
                b / 16
            } else {
                b % 16
            };
            assert(h[i as int] == hex_digit(n));
            push_hex_digit(out, n);
            assert(h.subrange(k as int, i + 1) =~= h.subrange(k as int, i as int).push(h[i as int]));
            i = i + 1;
        }
        assert(h.subrange(k as int, 64) =~= h.skip(k as int));
    }
}

/// Append the text of an identifier.
pub fn push_ident(out: &mut String, id: &Identifier)
    ensures
        final(out)@ == old(out)@ + ident_text(id@),
{
    let bytes = id.as_bytes();
    let ghost start = old(out)@;
    let mut i: usize = 0;
    while i < bytes.len()
        invariant
            i <= bytes@.len(),
            bytes@ == id@,
            out@ == start + ident_text(bytes@.take(i as int)),
        decreases bytes@.len() - i,
    {
        push_char(out, bytes[i] as char);
        assert(ident_text(bytes@.take(i + 1)) =~= ident_text(bytes@.take(i as int)).push(bytes@[i as int] as char));
        i = i + 1;
    }
    assert(bytes@.take(i as int) =~= bytes@);
}

/// Append the text of a struct tag.
pub fn push_struct_tag(out: &mut String, t: &StructTag)
    ensures
        final(out)@ == old(out)@ + struct_tag_text(t@),
    decreases t, 1nat,
{
    let ghost start = old(out)@;
    push_text(out, "0x");
    push_address(out, &t.address);
    push_text(out, "::");
    push_ident(out, &t.module);
    push_text(out, "::");
    push_ident(out, &t.name);
    let ghost head = out@;
    proof {
        lemma_type_params_view(t.type_params@);
        assert(head =~= start + ("0x"@ + address_text(t@.address) + "::"@ + ident_text(t@.module) + "::"@
            + ident_text(t@.name)));
    }
    let n = t.type_params.len();
    if n > 0 {
        let ghost ps = t@.type_params;
        push_text(out, "<");
        let mut i: usize = 0;
        while i < n
            invariant
                i <= n == t.type_params@.len() == ps.len(),
                ps == t@.type_params,
                forall|j: int| 0 <= j < n ==> #[trigger] ps[j] == t.type_params@[j]@,
                out@ == head + "<"@ + type_list_text(ps, i as int),
            decreases n - i,
        {
            if i > 0 {
                push_text(out, ", ");
            }
            proof {
                assert(decreases_to!(t => t.type_params));
                assert(decreases_to!(t.type_params => t.type_params@));
                assert(decreases_to!(t.type_params@ => t.type_params@[i as int]));
            }
            push_type_tag(out, &t.type_params[i]);
            proof {
                assert(ps[i as int] == t.type_params@[i as int]@);
                if i == 0 {
                    assert(type_list_text(ps, 1) == type_tag_text(ps[0]));
                }
            }
            i = i + 1;
        }
        push_text(out, ">");
        proof {
            assert(out@ =~= start + struct_tag_text(t@));
        }
    } else {
        proof {
            assert(out@ =~= start + struct_tag_text(t@));
        }
    }
}

/// Append the text of a type tag.
pub fn push_type_tag(out: &mut String, t: &TypeTag)
    ensures
        final(out)@ == old(out)@ + type_tag_text(t@),
    decreases t, 0nat,
{
    match t {
        TypeTag::Bool => push_text(out, "bool"),
        TypeTag::U8 => push_text(out, "u8"),
        TypeTag::U16 => push_text(out, "u16"),
        TypeTag::U32 => push_text(out, "u32"),
        TypeTag::U64 => push_text(out, "u64"),
        TypeTag::U128 => push_text(out, "u128"),
        TypeTag::U256 => push_text(out, "u256"),
        TypeTag::Address => push_text(out, "address"),
        TypeTag::Signer => push_text(out, "signer"),
        TypeTag::Vector(e) => {
            let ghost start = old(out)@;
            push_text(out, "vector<");
            push_type_tag(out, e);
            push_text(out, ">");
            proof {
                assert(out@ =~= start + type_tag_text(t@));
            }
        },
        TypeTag::Struct(s) => {
            push_struct_tag(out, s);
        },
    }
}

impl StructTag {
    /// The struct tag's text, as its `Display` form prints it.
    pub fn to_string(&self) -> (r: String)
        ensures
            r@ == struct_tag_text(self@),
    {
        let mut out = String::new();
        push_struct_tag(&mut out, self);
        proof {
            assert(out@ =~= struct_tag_text(self@));
        }
        out
    }
}

impl TypeTag {
    /// The type tag's text, as its `Display` form prints it.
    pub fn to_string(&self) -> (r: String)
        ensures
            r@ == type_tag_text(self@),
    {
        let mut out = String::new();
        push_type_tag(&mut out, self);
        proof {
            assert(out@ =~= type_tag_text(self@));
        }
        out
    }
}

} // verus!
