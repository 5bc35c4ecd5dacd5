//! Identifiers, struct tags and type tags, the vocabulary that annotated
//! layouts are written in.

use vstd::prelude::*;
use vstd::string::StringSliceAdditionalSpecFns;

verus! {

/// A Move identifier (a module, struct, field or variant name), held as the
/// bytes of its UTF-8 text.
#[derive(Debug)]
pub struct Identifier {
    bytes: Vec<u8>,
}

impl Identifier {
    /// The bytes of the identifier's text.
    pub closed spec fn view(&self) -> Seq<u8> {
        self.bytes@
    }

    /// An identifier with the given text.
    pub fn new(s: &str) -> (r: Identifier)
        ensures
            r@ == s.spec_bytes(),
    {
        Identifier { bytes: copy_bytes(s.as_bytes()) }
    }

    /// An identifier whose text is given by its bytes.
    pub fn from_bytes(bytes: Vec<u8>) -> (r: Identifier)
        ensures
            r@ == bytes@,
    {
        Identifier { bytes }
    }

    /// The bytes of the identifier's text.
    pub fn as_bytes(&self) -> (r: &[u8])
        ensures
            r@ == self@,
    {
        self.bytes.as_slice()
    }

    /// A copy of this identifier.
    pub fn duplicate(&self) -> (r: Identifier)
        ensures
            r@ == self@,
    {
        Identifier { bytes: copy_bytes(self.bytes.as_slice()) }
    }

    /// Whether two identifiers have the same text.
    pub fn equals(&self, other: &Identifier) -> (r: bool)
        ensures
            r == (self@ == other@),
    {
        bytes_equal(self.bytes.as_slice(), other.bytes.as_slice())
    }
}

/// A fresh vector holding the bytes of `s`.
pub fn copy_bytes(s: &[u8]) -> (r: Vec<u8>)
    ensures
        r@ == s@,
{
    let mut r: Vec<u8> = Vec::new();
    let mut i: usize = 0;
    while i < s.len()
        invariant
            i <= s@.len(),
            r@ == s@.take(i as int),
        decreases s@.len() - i,
    {
        r.push(s[i]);
        i = i + 1;
        assert(r@ =~= s@.take(i as int));
    }
    assert(s@.take(i as int) =~= s@);
    r
}

/// Whether two byte strings are equal.
pub fn bytes_equal(a: &[u8], b: &[u8]) -> (r: bool)
    ensures
        r == (a@ == b@),
{
    if a.len() != b.len() {
        return false;
    }
    let mut i: usize = 0;
    while i < a.len()
        invariant
            a@.len() == b@.len(),
            i <= a@.len(),
            a@.take(i as int) =~= b@.take(i as int),
        decreases a@.len() - i,
    {
        if a[i] != b[i] {
            assert(a@[i as int] != b@[i as int]);
            return false;
        }
        i = i + 1;
        assert(a@.take(i as int) =~= b@.take(i as int));
    }
    assert(a@ =~= a@.take(i as int));
    assert(b@ =~= b@.take(i as int));
    true
}


/// Length in bytes of an account address.
pub const ADDRESS_LENGTH: usize = 32;

/// A fully qualified struct type: defining address, module, name and type
/// arguments.
#[derive(Debug)]
pub struct StructTag {
    pub address: [u8; 32],
    pub module: Identifier,
    pub name: Identifier,
    pub type_params: Vec<TypeTag>,
}

/// A Move type.
#[derive(Debug)]
pub enum TypeTag {
    Bool,
    U8,
    U64,
    U128,
    Address,
    Signer,
    Vector(Box<TypeTag>),
    Struct(Box<StructTag>),
    U16,
    U32,
    U256,
}

/// The mathematical value of a [`StructTag`].
pub struct StructTagV {
    pub address: Seq<u8>,
    pub module: Seq<u8>,
    pub name: Seq<u8>,
    pub type_params: Seq<TypeTagV>,
}

/// The mathematical value of a [`TypeTag`].
pub enum TypeTagV {
    Bool,
    U8,
    U16,
    U32,
    U64,
    U128,
    U256,
    Address,
    Signer,
    Vector(Box<TypeTagV>),
    Struct(StructTagV),
}

impl StructTag {
    pub open spec fn view(&self) -> StructTagV
        decreases self,
    {
        StructTagV {
            address: self.address@,
            module: self.module@,
            name: self.name@,
            type_params: type_params_view(self.type_params@),
        }
    }
}

impl TypeTag {
    pub open spec fn view(&self) -> TypeTagV
        decreases self,
    {
        match self {
            TypeTag::Bool => TypeTagV::Bool,
            TypeTag::U8 => TypeTagV::U8,
            TypeTag::U16 => TypeTagV::U16,
            TypeTag::U32 => TypeTagV::U32,
            TypeTag::U64 => TypeTagV::U64,
            TypeTag::U128 => TypeTagV::U128,
            TypeTag::U256 => TypeTagV::U256,
            TypeTag::Address => TypeTagV::Address,
            TypeTag::Signer => TypeTagV::Signer,
            TypeTag::Vector(inner) => TypeTagV::Vector(Box::new((**inner).view())),
            TypeTag::Struct(s) => TypeTagV::Struct((**s).view()),
        }
    }
}

/// The values of a sequence of type tags.
pub open spec fn type_params_view(ps: Seq<TypeTag>) -> Seq<TypeTagV>
    decreases ps,
{
    if ps.len() == 0 {
        Seq::empty()
    } else {
        type_params_view(ps.drop_last()).push(ps.last().view())
    }
}


/// `type_params_view` maps each tag to its value.
pub broadcast proof fn lemma_type_params_view(ps: Seq<TypeTag>)
    ensures
        #[trigger] type_params_view(ps).len() == ps.len(),
        forall|i: int| 0 <= i < ps.len() ==> #[trigger] type_params_view(ps)[i] == ps[i].view(),
    decreases ps.len(),
{
    if ps.len() > 0 {
        lemma_type_params_view(ps.drop_last());
        assert forall|i: int| 0 <= i < ps.len() implies #[trigger] type_params_view(ps)[i]
            == ps[i].view() by {
            if i < ps.len() - 1 {
                assert(ps.drop_last()[i] == ps[i]);
            }
        }
    }
}

/// Whether two address byte arrays are equal.
fn address_equal(a: &[u8; 32], b: &[u8; 32]) -> (r: bool)
    ensures
        r == (a@ == b@),
{
    let mut i: usize = 0;
    while i < 32
        invariant
            i <= 32,
            a@.len() == 32,
            b@.len() == 32,
            a@.take(i as int) =~= b@.take(i as int),
        decreases 32 - i,
    {
        if a[i] != b[i] {
            assert(a@[i as int] != b@[i as int]);
            return false;
        }
        i = i + 1;
        assert(a@.take(i as int) =~= b@.take(i as int));
    }
    assert(a@ =~= a@.take(32));
    assert(b@ =~= b@.take(32));
    true
}

impl StructTag {
    /// Whether two struct tags are the same type.
    pub fn equals(&self, other: &StructTag) -> (r: bool)
        ensures
            r == (self@ == other@),
        decreases self,
    {
        proof {
            lemma_type_params_view(self.type_params@);
            lemma_type_params_view(other.type_params@);
        }
        if !address_equal(&self.address, &other.address) {
            return false;
        }
        if !self.module.equals(&other.module) || !self.name.equals(&other.name) {
            return false;
        }
        let n = self.type_params.len();
        if n != other.type_params.len() {
            assert(self@.type_params.len() != other@.type_params.len());
            return false;
        }
        let mut i: usize = 0;
        while i < n
            invariant
                n == self.type_params@.len(),
                n == other.type_params@.len(),
                i <= n,
                forall|j: int| 0 <= j < i ==> self.type_params@[j].view() == other.type_params@[j].view(),
            decreases n - i,
        {
            if !self.type_params[i].equals(&other.type_params[i]) {
                proof {
                    lemma_type_params_view(self.type_params@);
                    lemma_type_params_view(other.type_params@);
                }
                assert(self@.type_params[i as int] != other@.type_params[i as int]);
                return false;
            }
            i = i + 1;
        }
        assert(self@.type_params =~= other@.type_params);
        true
    }

    /// A copy of this struct tag.
    pub fn duplicate(&self) -> (r: StructTag)
        ensures
            r@ == self@,
        decreases self,
    {
        let mut params: Vec<TypeTag> = Vec::new();
        let n = self.type_params.len();
        let mut i: usize = 0;
        while i < n
            invariant
                n == self.type_params@.len(),
                i <= n,
                params@.len() == i,
                forall|j: int| 0 <= j < i ==> params@[j].view() == self.type_params@[j].view(),
            decreases n - i,
        {
            params.push(self.type_params[i].duplicate());
            i = i + 1;
        }
        let r = StructTag {
            address: self.address,
            module: self.module.duplicate(),
            name: self.name.duplicate(),
            type_params: params,
        };
        proof {
            lemma_type_params_view(self.type_params@);
            lemma_type_params_view(r.type_params@);
        }
        assert(r@.type_params =~= self@.type_params);
        r
    }
}

impl TypeTag {
    /// Whether two type tags are the same type.
    pub fn equals(&self, other: &TypeTag) -> (r: bool)
        ensures
            r == (self@ == other@),
        decreases self,
    {
        match (self, other) {
            (TypeTag::Bool, TypeTag::Bool) => true,
            (TypeTag::U8, TypeTag::U8) => true,
            (TypeTag::U16, TypeTag::U16) => true,
            (TypeTag::U32, TypeTag::U32) => true,
            (TypeTag::U64, TypeTag::U64) => true,
            (TypeTag::U128, TypeTag::U128) => true,
            (TypeTag::U256, TypeTag::U256) => true,
            (TypeTag::Address, TypeTag::Address) => true,
            (TypeTag::Signer, TypeTag::Signer) => true,
            (TypeTag::Vector(a), TypeTag::Vector(b)) => (**a).equals(&**b),
            (TypeTag::Struct(a), TypeTag::Struct(b)) => (**a).equals(&**b),
            _ => false,
        }
    }

    /// A copy of this type tag.
    pub fn duplicate(&self) -> (r: TypeTag)
        ensures
            r@ == self@,
        decreases self,
    {
        match self {
            TypeTag::Bool => TypeTag::Bool,
            TypeTag::U8 => TypeTag::U8,
            TypeTag::U16 => TypeTag::U16,
            TypeTag::U32 => TypeTag::U32,
            TypeTag::U64 => TypeTag::U64,
            TypeTag::U128 => TypeTag::U128,
            TypeTag::U256 => TypeTag::U256,
            TypeTag::Address => TypeTag::Address,
            TypeTag::Signer => TypeTag::Signer,
            TypeTag::Vector(a) => TypeTag::Vector(Box::new((**a).duplicate())),
            TypeTag::Struct(a) => TypeTag::Struct(Box::new((**a).duplicate())),
        }
    }
}

} // verus!
