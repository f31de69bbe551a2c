//! The runtime type schema, modelled as plain owned data.
//!
//! The environment decodes its metadata into this shape once per session;
//! the tree builder only ever reads it. Type ids index the registry by
//! position, as the runtime's own portable registry does.

use vstd::prelude::*;

verus! {

/// The kind of a primitive leaf type.
#[derive(Clone, Copy, Debug)]
pub enum PrimitiveKind {
    Bool,
    Char,
    Str,
    U8,
    U16,
    U32,
    U64,
    U128,
    U256,
    I8,
    I16,
    I32,
    I64,
    I128,
    I256,
}

/// One field of a composite or of a variant option.
#[derive(Debug)]
pub struct FieldDef {
    pub name: Option<String>,
    pub ty: u32,
}

/// One option of a variant type: its wire discriminant, name, declared
/// fields, and documentation text.
#[derive(Debug)]
pub struct VariantDef {
    pub index: u8,
    pub name: String,
    pub fields: Vec<FieldDef>,
    pub docs: Vec<String>,
}

/// A named type parameter of a registry entry.
#[derive(Debug)]
pub struct TypeParam {
    pub name: String,
    pub ty: Option<u32>,
}

/// The structural description of one registry type.
#[derive(Debug)]
pub enum TypeDescriptor {
    Primitive(PrimitiveKind),
    Composite(Vec<FieldDef>),
    Variant(Vec<VariantDef>),
    Sequence(u32),
    Array(u32, u32),
    Tuple(Vec<u32>),
    Compact(u32),
    BitSequence,
}

/// One entry of the type registry.
#[derive(Debug)]
pub struct TypeEntry {
    pub params: Vec<TypeParam>,
    pub def: TypeDescriptor,
}

/// One pallet: its byte index on the wire, its display name, and the type
/// id of its call enum, if it has dispatchable calls.
#[derive(Debug)]
pub struct PalletDef {
    pub index: u8,
    pub name: String,
    pub calls: Option<u32>,
}

/// One signed extension: an identifier, the type whose encoding joins the
/// transmitted bytes, and the type that joins only the signature payload.
#[derive(Debug)]
pub struct ExtensionDef {
    pub identifier: String,
    pub ty: u32,
    pub additional: u32,
}

/// The extrinsic description: its registry type, its version byte, and the
/// signed extensions it requires.
#[derive(Debug)]
pub struct ExtrinsicDef {
    pub ty: u32,
    pub version: u8,
    pub extensions: Vec<ExtensionDef>,
}

/// The full runtime schema handed in by the environment.
#[derive(Debug)]
pub struct Schema {
    pub types: Vec<TypeEntry>,
    pub pallets: Vec<PalletDef>,
    pub extrinsic: ExtrinsicDef,
}

impl Schema {
    /// The registry entry a type id addresses, if any.
    pub open spec fn entry_of(self, id: u32) -> Option<TypeEntry> {
        if id < self.types@.len() {
            Some(self.types@[id as int])
        } else {
            None
        }
    }

    /// Look a type id up in the registry.
    pub fn resolve(&self, id: u32) -> (r: Option<&TypeEntry>)
        ensures
            (r matches Some(t) ==> self.entry_of(id) == Some(*t)),
            (r is None ==> self.entry_of(id) is None),
    {
        if (id as usize) < self.types.len() {
            Some(&self.types[id as usize])
        } else {
            None
        }
    }

    /// Does `id` name a lone-byte primitive (`u8`)?
    pub open spec fn is_byte_type(self, id: u32) -> bool {
        self.entry_of(id) matches Some(t) && t.def matches TypeDescriptor::Primitive(
            PrimitiveKind::U8,
        )
    }
}

} // verus!
