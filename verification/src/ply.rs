//! The typed skeleton of a polygon-mesh header: the primitive types a mesh
//! property may carry and the roles a property can play.

use vstd::prelude::*;

verus! {

/// A primitive value type of a mesh property.
#[derive(Clone, Copy, Debug, PartialEq, Eq, Hash, Structural)]
pub enum PrimType {
    Float,
    Byte,
    Int,
}

/// A property's shape: one primitive value, or a counted list of them.
#[derive(Clone, Copy, Debug, PartialEq, Eq, Hash, Structural)]
pub enum Type {
    Prim(PrimType),
    List(PrimType, PrimType),
}

/// The role a mesh property plays: a vertex coordinate, a normal
/// component, the face index list, or something to skip over.
#[derive(Clone, Copy, Debug, PartialEq, Eq, Hash, Structural)]
pub enum Property {
    X,
    Y,
    Z,
    NormalX,
    NormalY,
    NormalZ,
    Indices(PrimType, PrimType),
    Unknown(Type),
}

/// The primitive type a mesh header names, or nothing for a name this
/// reader does not know.
pub fn prim_type(name: &str) -> (r: Option<PrimType>)
    ensures
        name@ == "float"@ ==> r == Some(PrimType::Float),
        (name@ == "uint8"@ || name@ == "uchar"@) ==> r == Some(PrimType::Byte),
        (name@ == "int"@ || name@ == "uint"@) ==> r == Some(PrimType::Int),
        r is None ==> (name@ != "float"@ && name@ != "uint8"@ && name@ != "uchar"@ && name@
            != "int"@ && name@ != "uint"@),
{
    proof {
        reveal_strlit("float");
        reveal_strlit("uint8");
        reveal_strlit("uchar");
        reveal_strlit("int");
        reveal_strlit("uint");
        assert("float"@[0] == 'f' && "uint8"@[0] == 'u' && "uchar"@[0] == 'u');
        assert("uint8"@[1] == 'i' && "uchar"@[1] == 'c');
        assert("float"@.len() == 5 && "uint8"@.len() == 5 && "uchar"@.len() == 5 && "int"@.len()
            == 3 && "uint"@.len() == 4);
    }
    if crate::util::str_eq(name, "float") {
        Some(PrimType::Float)
    } else if crate::util::str_eq(name, "uint8") || crate::util::str_eq(name, "uchar") {
        Some(PrimType::Byte)
    } else if crate::util::str_eq(name, "int") || crate::util::str_eq(name, "uint") {
        Some(PrimType::Int)
    } else {
        None
    }
}

impl Property {
    /// The value shape of the property: coordinates and normal components
    /// are single floats, the index list keeps its own types, and unknown
    /// properties carry theirs along.
    pub open spec fn spec_ty(self) -> Type {
        match self {
            Property::X => Type::Prim(PrimType::Float),
            Property::Y => Type::Prim(PrimType::Float),
            Property::Z => Type::Prim(PrimType::Float),
            Property::NormalX => Type::Prim(PrimType::Float),
            Property::NormalY => Type::Prim(PrimType::Float),
            Property::NormalZ => Type::Prim(PrimType::Float),
            Property::Indices(count, elem) => Type::List(count, elem),
            Property::Unknown(ty) => ty,
        }
    }

    /// The value shape of the property.
    pub fn ty(&self) -> (r: Type)
        ensures
            r == self.spec_ty(),
    {
        match self {
            Property::X
            | Property::Y
            | Property::Z
            | Property::NormalX
            | Property::NormalY
            | Property::NormalZ => Type::Prim(PrimType::Float),
            Property::Indices(count, elem) => Type::List(*count, *elem),
            Property::Unknown(ty) => *ty,
        }
    }
}

} // verus!
