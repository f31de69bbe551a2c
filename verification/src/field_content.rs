//! The editable value tree: one node kind per resolved type-descriptor
//! kind, plus the two domain-specific roots and a terminal error node.
//!
//! [`resolve_node`] builds a node from a registry id; the ghost model
//! [`NodeV`] is the mathematical value of a node, and every operation on
//! the tree is specified against it.

use vstd::prelude::*;
use vstd::utf8::encode_utf8;

use crate::scale::{byte_len, le_bytes, le_value, lemma_le_value_drop_zero, lemma_minimal_le,
    spec_encode_compact};
use crate::schema::{PrimitiveKind, Schema, TypeDescriptor};

pub mod compact;
pub mod composite;
pub mod magic_unchecked_extrinsic;
pub mod pallet_call;
pub mod primitive;
pub mod sequence;
pub mod variant;

use compact::Compact;
use composite::Composite;
use magic_unchecked_extrinsic::MagicUncheckedExtrinsic;
use pallet_call::{PalletCall, PalletSel};
use primitive::{Primitive, PrimitiveContent};
use sequence::{ArrayContent, BitSequenceContent, CompositeContent, Sequence, SequenceType,
    SequenceU8, StringInputMode};
use variant::VariantContent;

verus! {

/// How deep type resolution will recurse before it gives up on a schema.
pub const MAX_DEPTH: u32 = 32;

/// One node of the editable value tree.
#[derive(Debug)]
pub enum FieldContent {
    PalletCall(PalletCall),
    MagicUncheckedExtrinsic(MagicUncheckedExtrinsic),
    Variant(VariantContent),
    Composite(Composite),
    Tuple(Composite),
    Sequence(Sequence),
    Array(ArrayContent),
    Compact(Compact),
    Primitive(Primitive),
    BitSequence(BitSequenceContent),
    Error(String),
}

/// The mathematical value of a tree node.
pub enum NodeV {
    PalletCall { pallet: Option<PalletSel>, call: Option<u8>, fields: Seq<NodeV> },
    Extrinsic { signed: bool, sig_fields: Seq<NodeV>, fields: Seq<NodeV> },
    Variant { name: Option<Seq<char>>, ty: u32, selected: Option<u8>, fields: Seq<NodeV> },
    Composite { name: Option<Seq<char>>, fields: Seq<NodeV> },
    Tuple { name: Option<Seq<char>>, fields: Seq<NodeV> },
    SequenceBytes { name: Option<Seq<char>>, element_ty: u32, hex_mode: bool, bytes: Seq<u8> },
    SequenceNodes { name: Option<Seq<char>>, element_ty: u32, fields: Seq<NodeV> },
    ArrayBytes { name: Option<Seq<char>>, element_ty: u32, len: u32, hex_mode: bool, bytes: Seq<u8> },
    ArrayNodes { name: Option<Seq<char>>, element_ty: u32, len: u32, fields: Seq<NodeV> },
    Compact { name: Option<Seq<char>>, value: Seq<u8>, max: nat },
    Primitive { name: Option<Seq<char>>, value: PrimV },
    BitSequence { name: Option<Seq<char>>, payload: Seq<u8> },
    Error(Seq<char>),
}

/// The mathematical value of a primitive leaf.
pub enum PrimV {
    Bool(bool),
    Char(char),
    Str(Seq<char>),
    U8(u8),
    U16(u16),
    U32(u32),
    U64(u64),
    U128(u128),
    U256(Seq<u8>),
    I8(i8),
    I16(i16),
    I32(i32),
    I64(i64),
    I128(i128),
    I256(Seq<u8>),
}

/// The view of an optional display name.
pub open spec fn opt_name(n: Option<String>) -> Option<Seq<char>> {
    match n {
        Some(s) => Some(s@),
        None => None,
    }
}

/// The view of an optional borrowed display name.
pub open spec fn opt_str_view(n: Option<&str>) -> Option<Seq<char>> {
    match n {
        Some(s) => Some(s@),
        None => None,
    }
}

/// The views of a child list, in order.
pub open spec fn views_of(s: Seq<FieldContent>) -> Seq<NodeV>
    decreases s,
{
    if s.len() == 0 {
        Seq::empty()
    } else {
        seq![s[0]@] + views_of(s.skip(1))
    }
}

/// `views_of` maps the list pointwise.
pub proof fn lemma_views_of(s: Seq<FieldContent>)
    ensures
        views_of(s).len() == s.len(),
        forall|i: int| 0 <= i < s.len() ==> views_of(s)[i] == s[i]@,
    decreases s.len(),
{
    if s.len() > 0 {
        lemma_views_of(s.skip(1));
        assert(views_of(s) == seq![s[0]@] + views_of(s.skip(1)));
        assert forall|i: int| 0 <= i < s.len() implies views_of(s)[i] == s[i]@ by {
            if i > 0 {
                assert(views_of(s)[i] == views_of(s.skip(1))[i - 1]);
                assert(s.skip(1)[i - 1] == s[i]);
            }
        }
    }
}

/// The view of a primitive leaf value.
pub open spec fn prim_view(p: PrimitiveContent) -> PrimV {
    match p {
        PrimitiveContent::Bool(v) => PrimV::Bool(v),
        PrimitiveContent::Char(v) => PrimV::Char(v),
        PrimitiveContent::Str(v) => PrimV::Str(v@),
        PrimitiveContent::U8(v) => PrimV::U8(v),
        PrimitiveContent::U16(v) => PrimV::U16(v),
        PrimitiveContent::U32(v) => PrimV::U32(v),
        PrimitiveContent::U64(v) => PrimV::U64(v),
        PrimitiveContent::U128(v) => PrimV::U128(v),
        PrimitiveContent::U256(v) => PrimV::U256(v@),
        PrimitiveContent::I8(v) => PrimV::I8(v),
        PrimitiveContent::I16(v) => PrimV::I16(v),
        PrimitiveContent::I32(v) => PrimV::I32(v),
        PrimitiveContent::I64(v) => PrimV::I64(v),
        PrimitiveContent::I128(v) => PrimV::I128(v),
        PrimitiveContent::I256(v) => PrimV::I256(v@),
    }
}

impl View for FieldContent {
    type V = NodeV;

    open spec fn view(&self) -> NodeV
        decreases self,
    {
        match self {
            FieldContent::PalletCall(n) => NodeV::PalletCall {
                pallet: n.pallet,
                call: n.call,
                fields: views_of(n.fields@),
            },
            FieldContent::MagicUncheckedExtrinsic(n) => NodeV::Extrinsic {
                signed: n.signature is Some,
                sig_fields: match n.signature {
                    Some(sg) => seq![(*sg.address).view(), (*sg.signature).view(), (*sg.extra).view()],
                    None => Seq::empty(),
                },
                fields: views_of(n.fields@),
            },
            FieldContent::Variant(n) => NodeV::Variant {
                name: opt_name(n.name),
                ty: n.ty,
                selected: n.selected,
                fields: views_of(n.fields@),
            },
            FieldContent::Composite(n) => NodeV::Composite {
                name: opt_name(n.name),
                fields: views_of(n.fields@),
            },
            FieldContent::Tuple(n) => NodeV::Tuple {
                name: opt_name(n.name),
                fields: views_of(n.fields@),
            },
            FieldContent::Sequence(n) => match n.content {
                SequenceType::PrimitiveU8(b) => NodeV::SequenceBytes {
                    name: opt_name(n.name),
                    element_ty: n.element_ty,
                    hex_mode: b.input_mode is Hex,
                    bytes: b.content@,
                },
                SequenceType::Composite(c) => NodeV::SequenceNodes {
                    name: opt_name(n.name),
                    element_ty: n.element_ty,
                    fields: views_of(c.content@),
                },
            },
            FieldContent::Array(n) => match n.content {
                SequenceType::PrimitiveU8(b) => NodeV::ArrayBytes {
                    name: opt_name(n.name),
                    element_ty: n.element_ty,
                    len: n.len,
                    hex_mode: b.input_mode is Hex,
                    bytes: b.content@,
                },
                SequenceType::Composite(c) => NodeV::ArrayNodes {
                    name: opt_name(n.name),
                    element_ty: n.element_ty,
                    len: n.len,
                    fields: views_of(c.content@),
                },
            },
            FieldContent::Compact(n) => NodeV::Compact {
                name: opt_name(n.name),
                value: n.value@,
                max: n.max as nat,
            },
            FieldContent::Primitive(n) => NodeV::Primitive {
                name: opt_name(n.name),
                value: prim_view(n.content),
            },
            FieldContent::BitSequence(n) => NodeV::BitSequence {
                name: opt_name(n.name),
                payload: n.payload@,
            },
            FieldContent::Error(msg) => NodeV::Error(msg@),
        }
    }
}

/// The diagnostic a node carries when a type id has no registry entry.
pub open spec fn msg_type_not_found() -> Seq<char> {
    "type not found"@
}

/// The diagnostic for a schema that nests deeper than the resolver walks.
pub open spec fn msg_depth_exceeded() -> Seq<char> {
    "type nesting too deep"@
}

/// The diagnostic when the extrinsic type declares no call parameter.
pub open spec fn msg_call_not_found() -> Seq<char> {
    "call extrinsic parameter not found"@
}

/// Thirty-two zero bytes: the default 256-bit magnitude.
pub open spec fn zero32() -> Seq<u8> {
    Seq::new(32, |i: int| 0u8)
}

/// The value a fresh primitive leaf of kind `k` holds.
pub open spec fn default_prim(k: PrimitiveKind) -> PrimV {
    match k {
        PrimitiveKind::Bool => PrimV::Bool(false),
        PrimitiveKind::Char => PrimV::Char('a'),
        PrimitiveKind::Str => PrimV::Str(Seq::empty()),
        PrimitiveKind::U8 => PrimV::U8(0),
        PrimitiveKind::U16 => PrimV::U16(0),
        PrimitiveKind::U32 => PrimV::U32(0),
        PrimitiveKind::U64 => PrimV::U64(0),
        PrimitiveKind::U128 => PrimV::U128(0),
        PrimitiveKind::U256 => PrimV::U256(zero32()),
        PrimitiveKind::I8 => PrimV::I8(0),
        PrimitiveKind::I16 => PrimV::I16(0),
        PrimitiveKind::I32 => PrimV::I32(0),
        PrimitiveKind::I64 => PrimV::I64(0),
        PrimitiveKind::I128 => PrimV::I128(0),
        PrimitiveKind::I256 => PrimV::I256(zero32()),
    }
}

/// The node that resolving type `id` under `name` yields, with `depth`
/// levels of nesting still allowed.
pub open spec fn spec_resolve(s: Schema, id: u32, name: Option<Seq<char>>, depth: nat) -> NodeV
    decreases depth, 0nat,
{
    if depth == 0 {
        NodeV::Error(msg_depth_exceeded())
    } else {
        match s.entry_of(id) {
            None => NodeV::Error(msg_type_not_found()),
            Some(entry) => match entry.def {
                TypeDescriptor::Primitive(k) => NodeV::Primitive { name, value: default_prim(k) },
                TypeDescriptor::Composite(fds) => NodeV::Composite {
                    name,
                    fields: spec_resolve_fields(s, fds@, (depth - 1) as nat),
                },
                TypeDescriptor::Variant(_) => NodeV::Variant {
                    name,
                    ty: id,
                    selected: None,
                    fields: Seq::empty(),
                },
                TypeDescriptor::Sequence(el) => if s.entry_of(el) is None {
                    NodeV::Error(msg_type_not_found())
                } else if s.is_byte_type(el) {
                    NodeV::SequenceBytes {
                        name,
                        element_ty: el,
                        hex_mode: false,
                        bytes: Seq::empty(),
                    }
                } else {
                    NodeV::SequenceNodes { name, element_ty: el, fields: Seq::empty() }
                },
                TypeDescriptor::Array(el, len) => if s.entry_of(el) is None {
                    NodeV::Error(msg_type_not_found())
                } else if s.is_byte_type(el) {
                    NodeV::ArrayBytes {
                        name,
                        element_ty: el,
                        len,
                        hex_mode: true,
                        bytes: Seq::new(len as nat, |i: int| 0u8),
                    }
                } else {
                    NodeV::ArrayNodes {
                        name,
                        element_ty: el,
                        len,
                        fields: spec_resolve_copies(s, el, len as nat, (depth - 1) as nat),
                    }
                },
                TypeDescriptor::Tuple(tys) => NodeV::Tuple {
                    name,
                    fields: spec_resolve_types(s, tys@, (depth - 1) as nat),
                },
                TypeDescriptor::Compact(inner) => match s.entry_of(inner) {
                    None => NodeV::Error(msg_type_not_found()),
                    Some(ie) => NodeV::Compact {
                        name,
                        value: Seq::empty(),
                        max: spec_compact_cap(ie.def) as nat,
                    },
                },
                TypeDescriptor::BitSequence => NodeV::BitSequence { name, payload: Seq::empty() },
            },
        }
    }
}

/// The nodes that a list of declared fields resolves to.
pub open spec fn spec_resolve_fields(s: Schema, fds: Seq<crate::schema::FieldDef>, depth: nat) -> Seq<
    NodeV,
>
    decreases depth, 1nat,
{
    Seq::new(fds.len(), |i: int| spec_resolve(s, fds[i].ty, opt_name(fds[i].name), depth))
}

/// The nodes that a list of bare type ids resolves to.
pub open spec fn spec_resolve_types(s: Schema, tys: Seq<u32>, depth: nat) -> Seq<NodeV>
    decreases depth, 1nat,
{
    Seq::new(tys.len(), |i: int| spec_resolve(s, tys[i], None, depth))
}

/// `count` fresh nodes of one element type.
pub open spec fn spec_resolve_copies(s: Schema, el: u32, count: nat, depth: nat) -> Seq<NodeV>
    decreases depth, 1nat,
{
    Seq::new(count, |i: int| spec_resolve(s, el, None, depth))
}

/// Take ownership of an optional borrowed name.
pub(crate) fn own_name(name: Option<&str>) -> (r: Option<String>)
    ensures
        opt_name(r) == opt_str_view(name),
{
    match name {
        Some(n) => Some(String::from_str(n)),
        None => None,
    }
}

/// Build the node for registry type `id`, giving it `name` for display.
///
/// An id without a registry entry yields an error node; nesting deeper
/// than `depth` converts further resolution into error nodes too, so a
/// malformed cyclic schema cannot recurse unboundedly.
pub fn resolve_node(s: &Schema, id: u32, name: Option<&str>, depth: u32) -> (r: FieldContent)
    ensures
        r@ == spec_resolve(*s, id, opt_str_view(name), depth as nat),
    decreases depth, 0nat,
{
    let ghost target = spec_resolve(*s, id, opt_str_view(name), depth as nat);
    if depth == 0 {
        return FieldContent::Error(String::from_str("type nesting too deep"));
    }
    let entry = match s.resolve(id) {
        Some(e) => e,
        None => {
            return FieldContent::Error(String::from_str("type not found"));
        },
    };
    match &entry.def {
        TypeDescriptor::Primitive(k) => FieldContent::Primitive(Primitive::resolve(*k, name)),
        TypeDescriptor::Composite(fds) => FieldContent::Composite(
            Composite::resolve(fds, name, s, depth - 1),
        ),
        TypeDescriptor::Variant(_) => FieldContent::Variant(VariantContent::resolve(id, name)),
        TypeDescriptor::Sequence(el) => Sequence::resolve(*el, name, s),
        TypeDescriptor::Array(el, len) => {
            let elv = *el;
            let lenv = *len;
            match s.resolve(elv) {
                None => FieldContent::Error(String::from_str("type not found")),
                Some(e2) => {
                    if is_byte_entry(&e2.def) {
                        let mut bytes: Vec<u8> = Vec::new();
                        let mut i: usize = 0;
                        while i < lenv as usize
                            invariant
                                i <= lenv as usize,
                                bytes@.len() == i,
                                forall|j: int| 0 <= j < i ==> bytes@[j] == 0u8,
                            decreases lenv as usize - i,
                        {
                            bytes.push(0);
                            i += 1;
                        }
                        proof {
                            assert(bytes@ =~= Seq::new(lenv as nat, |i: int| 0u8));
                        }
                        FieldContent::Array(
                            ArrayContent {
                                name: own_name(name),
                                element_ty: elv,
                                len: lenv,
                                content: SequenceType::PrimitiveU8(
                                    SequenceU8 { content: bytes, input_mode: StringInputMode::Hex },
                                ),
                            },
                        )
                    } else {
                        let mut fields: Vec<FieldContent> = Vec::new();
                        let ghost want = spec_resolve_copies(*s, elv, lenv as nat, (depth - 1) as nat);
                        let mut i: usize = 0;
                        while i < lenv as usize
                            invariant
                                depth >= 1,
                                i <= lenv as usize,
                                want == spec_resolve_copies(*s, elv, lenv as nat, (depth - 1) as nat),
                                fields@.len() == i,
                                forall|j: int| 0 <= j < i ==> fields@[j]@ == want[j],
                            decreases lenv as usize - i,
                        {
                            let child = resolve_node(s, elv, None, depth - 1);
                            fields.push(child);
                            i += 1;
                        }
                        proof {
                            lemma_views_of(fields@);
                            assert(views_of(fields@) =~= want);
                        }
                        FieldContent::Array(
                            ArrayContent {
                                name: own_name(name),
                                element_ty: elv,
                                len: lenv,
                                content: SequenceType::Composite(CompositeContent { content: fields }),
                            },
                        )
                    }
                },
            }
        },
        TypeDescriptor::Tuple(tys) => {
            let mut fields: Vec<FieldContent> = Vec::new();
            let ghost want = spec_resolve_types(*s, tys@, (depth - 1) as nat);
            let mut i: usize = 0;
            while i < tys.len()
                invariant
                    depth >= 1,
                    i <= tys@.len(),
                    want == spec_resolve_types(*s, tys@, (depth - 1) as nat),
                    fields@.len() == i,
                    forall|j: int| 0 <= j < i ==> fields@[j]@ == want[j],
                decreases tys@.len() - i,
            {
                let child = resolve_node(s, tys[i], None, depth - 1);
                fields.push(child);
                i += 1;
            }
            proof {
                lemma_views_of(fields@);
                assert(views_of(fields@) =~= want);
            }
            FieldContent::Tuple(Composite { name: own_name(name), fields })
        },
        TypeDescriptor::Compact(inner) => {
            let innerv = *inner;
            match s.resolve(innerv) {
                None => FieldContent::Error(String::from_str("type not found")),
                Some(ie) => FieldContent::Compact(Compact::resolve(name, compact_cap(&ie.def))),
            }
        },
        TypeDescriptor::BitSequence => FieldContent::BitSequence(
            BitSequenceContent { name: own_name(name), payload: Vec::new() },
        ),
    }
}

/// Resolve a declared field list into fresh child nodes, each under its
/// declared name, every one with `depth` levels of nesting allowed.
pub fn resolve_fields_vec(s: &Schema, fds: &Vec<crate::schema::FieldDef>, depth: u32) -> (r: Vec<
    FieldContent,
>)
    ensures
        views_of(r@) == spec_resolve_fields(*s, fds@, depth as nat),
    decreases depth, 1nat,
{
    let mut fields: Vec<FieldContent> = Vec::new();
    let ghost want = spec_resolve_fields(*s, fds@, depth as nat);
    let mut i: usize = 0;
    while i < fds.len()
        invariant
            i <= fds@.len(),
            want == spec_resolve_fields(*s, fds@, depth as nat),
            fields@.len() == i,
            forall|j: int| 0 <= j < i ==> fields@[j]@ == want[j],
        decreases fds@.len() - i,
    {
        let fname = match &fds[i].name {
            Some(nm) => Some(nm.as_str()),
            None => None,
        };
        let child = resolve_node(s, fds[i].ty, fname, depth);
        fields.push(child);
        i += 1;
    }
    proof {
        lemma_views_of(fields@);
        assert(views_of(fields@) =~= want);
    }
    fields
}

/// The byte cap a compact node takes from its inner type: an unsigned
/// primitive's own width, and thirty-two bytes over every other kind,
/// so a magnitude can never outgrow what the declared inner type holds.
pub open spec fn spec_compact_cap(d: TypeDescriptor) -> usize {
    match d {
        TypeDescriptor::Primitive(k) => match k {
            PrimitiveKind::U8 => 1,
            PrimitiveKind::U16 => 2,
            PrimitiveKind::U32 => 4,
            PrimitiveKind::U64 => 8,
            PrimitiveKind::U128 => 16,
            _ => 32,
        },
        _ => 32,
    }
}

/// The byte cap for a compact node over the given inner descriptor.
fn compact_cap(d: &TypeDescriptor) -> (r: usize)
    ensures
        r == spec_compact_cap(*d),
{
    match d {
        TypeDescriptor::Primitive(k) => match k {
            PrimitiveKind::U8 => 1,
            PrimitiveKind::U16 => 2,
            PrimitiveKind::U32 => 4,
            PrimitiveKind::U64 => 8,
            PrimitiveKind::U128 => 16,
            _ => 32,
        },
        _ => 32,
    }
}

/// Is this descriptor the lone-byte primitive?
pub(crate) fn is_byte_entry(d: &TypeDescriptor) -> (r: bool)
    ensures
        r == (d matches TypeDescriptor::Primitive(PrimitiveKind::U8)),
{
    match d {
        TypeDescriptor::Primitive(PrimitiveKind::U8) => true,
        _ => false,
    }
}

/// The fresh content for a primitive leaf of kind `k`.
pub(crate) fn default_content(k: PrimitiveKind) -> (r: PrimitiveContent)
    ensures
        prim_view(r) == default_prim(k),
{
    match k {
        PrimitiveKind::Bool => PrimitiveContent::Bool(false),
        PrimitiveKind::Char => PrimitiveContent::Char('a'),
        PrimitiveKind::Str => PrimitiveContent::Str(String::new()),
        PrimitiveKind::U8 => PrimitiveContent::U8(0),
        PrimitiveKind::U16 => PrimitiveContent::U16(0),
        PrimitiveKind::U32 => PrimitiveContent::U32(0),
        PrimitiveKind::U64 => PrimitiveContent::U64(0),
        PrimitiveKind::U128 => PrimitiveContent::U128(0),
        PrimitiveKind::U256 => PrimitiveContent::U256(zero_bytes32()),
        PrimitiveKind::I8 => PrimitiveContent::I8(0),
        PrimitiveKind::I16 => PrimitiveContent::I16(0),
        PrimitiveKind::I32 => PrimitiveContent::I32(0),
        PrimitiveKind::I64 => PrimitiveContent::I64(0),
        PrimitiveKind::I128 => PrimitiveContent::I128(0),
        PrimitiveKind::I256 => PrimitiveContent::I256(zero_bytes32()),
    }
}

/// Thirty-two zero bytes.
fn zero_bytes32() -> (r: Vec<u8>)
    ensures
        r@ == zero32(),
{
    let mut bytes: Vec<u8> = Vec::new();
    let mut i: usize = 0;
    while i < 32
        invariant
            i <= 32,
            bytes@.len() == i,
            forall|j: int| 0 <= j < i ==> bytes@[j] == 0u8,
        decreases 32 - i,
    {
        bytes.push(0);
        i += 1;
    }
    proof {
        assert(bytes@ =~= zero32());
    }
    bytes
}

impl FieldContent {
    /// Build the node for an optional registry type: an error node when
    /// the environment could not find the type at all.
    pub fn new(input: Option<u32>, name: Option<&str>, schema: &Schema) -> (r: FieldContent)
        ensures
            (input matches Some(id) ==> r@ == spec_resolve(
                *schema,
                id,
                opt_str_view(name),
                MAX_DEPTH as nat,
            )),
            (input is None ==> r@ == NodeV::Error(msg_type_not_found())),
    {
        match input {
            Some(id) => resolve_node(schema, id, name, MAX_DEPTH),
            None => FieldContent::Error(String::from_str("type not found")),
        }
    }
}

/// The canonical bytes of a primitive leaf: little-endian fixed widths,
/// raw UTF-8 for characters, a length-prefixed byte string for strings,
/// one byte for booleans.
pub open spec fn encoded_prim(p: PrimV) -> Seq<u8> {
    match p {
        PrimV::Bool(b) => seq![if b { 1u8 } else { 0u8 }],
        PrimV::Char(c) => encode_utf8(seq![c]),
        PrimV::Str(s) => spec_encode_compact(encode_utf8(s).len()) + encode_utf8(s),
        PrimV::U8(v) => seq![v],
        PrimV::U16(v) => le_bytes(v as nat, 2),
        PrimV::U32(v) => le_bytes(v as nat, 4),
        PrimV::U64(v) => le_bytes(v as nat, 8),
        PrimV::U128(v) => le_bytes(v as nat, 16),
        PrimV::U256(b) => b,
        PrimV::I8(v) => seq![v as u8],
        PrimV::I16(v) => le_bytes((v as u16) as nat, 2),
        PrimV::I32(v) => le_bytes((v as u32) as nat, 4),
        PrimV::I64(v) => le_bytes((v as u64) as nat, 8),
        PrimV::I128(v) => le_bytes((v as u128) as nat, 16),
        PrimV::I256(b) => b,
    }
}

/// The canonical bytes of one node. An error node and an unselected
/// selector contribute nothing; sequences and bit sequences carry a
/// compact length prefix; arrays and composites are bare concatenations.
pub open spec fn encoded_node(n: NodeV, version: u8) -> Seq<u8>
    decreases n,
{
    match n {
        NodeV::PalletCall { pallet, call, fields } => (match (pallet, call) {
            (Some(p), Some(c)) => seq![p.index, c],
            _ => Seq::empty(),
        }) + encoded_list(fields, version),
        NodeV::Extrinsic { signed, sig_fields, fields } => seq![
            if signed {
                version | 0x80
            } else {
                version
            },
        ] + encoded_list(sig_fields, version) + encoded_list(fields, version),
        NodeV::Variant { selected, fields, .. } => (match selected {
            Some(d) => seq![d],
            None => Seq::empty(),
        }) + encoded_list(fields, version),
        NodeV::Composite { fields, .. } => encoded_list(fields, version),
        NodeV::Tuple { fields, .. } => encoded_list(fields, version),
        NodeV::SequenceBytes { bytes, .. } => spec_encode_compact(bytes.len()) + bytes,
        NodeV::SequenceNodes { fields, .. } => spec_encode_compact(fields.len()) + encoded_list(
            fields,
            version,
        ),
        NodeV::ArrayBytes { bytes, .. } => bytes,
        NodeV::ArrayNodes { fields, .. } => encoded_list(fields, version),
        NodeV::Compact { value, .. } => if byte_len(le_value(value)) <= 67 {
            spec_encode_compact(le_value(value))
        } else {
            Seq::empty()
        },
        NodeV::Primitive { value, .. } => encoded_prim(value),
        NodeV::BitSequence { payload, .. } => spec_encode_compact(payload.len()) + payload,
        NodeV::Error(_) => Seq::empty(),
    }
}

/// The concatenated bytes of a child list, in declared order.
pub open spec fn encoded_list(s: Seq<NodeV>, version: u8) -> Seq<u8>
    decreases s,
{
    if s.len() == 0 {
        Seq::empty()
    } else {
        encoded_node(s[0], version) + encoded_list(s.skip(1), version)
    }
}

/// Concatenating child lists concatenates their encodings.
pub proof fn lemma_encoded_list_append(a: Seq<NodeV>, b: Seq<NodeV>, version: u8)
    ensures
        encoded_list(a + b, version) == encoded_list(a, version) + encoded_list(b, version),
    decreases a.len(),
{
    if a.len() == 0 {
        assert(a + b =~= b);
        assert(encoded_list(a, version) + encoded_list(b, version) =~= encoded_list(b, version));
    } else {
        assert((a + b).skip(1) =~= a.skip(1) + b);
        assert((a + b)[0] == a[0]);
        lemma_encoded_list_append(a.skip(1), b, version);
        assert(encoded_node(a[0], version) + (encoded_list(a.skip(1), version) + encoded_list(
            b,
            version,
        )) =~= (encoded_node(a[0], version) + encoded_list(a.skip(1), version)) + encoded_list(
            b,
            version,
        ));
    }
}

/// One more child extends the encoding by that child's bytes.
pub proof fn lemma_encoded_list_take(s: Seq<NodeV>, i: int, version: u8)
    requires
        0 <= i < s.len(),
    ensures
        encoded_list(s.take(i + 1), version) == encoded_list(s.take(i), version) + encoded_node(
            s[i],
            version,
        ),
{
    let single = seq![s[i]];
    assert(s.take(i + 1) =~= s.take(i) + single);
    lemma_encoded_list_append(s.take(i), single, version);
    assert(single.skip(1) =~= Seq::<NodeV>::empty());
    reveal_with_fuel(encoded_list, 2);
    assert(encoded_list(single, version) =~= encoded_node(s[i], version));
}

/// Copy a byte buffer.
pub fn copy_bytes(v: &Vec<u8>) -> (r: Vec<u8>)
    ensures
        r@ == v@,
{
    let mut r: Vec<u8> = Vec::new();
    let mut i: usize = 0;
    while i < v.len()
        invariant
            i <= v@.len(),
            r@ =~= v@.take(i as int),
        decreases v@.len() - i,
    {
        r.push(v[i]);
        i += 1;
    }
    proof {
        assert(v@.take(v@.len() as int) =~= v@);
    }
    r
}

/// The UTF-8 bytes of one character.
pub(crate) fn encode_char(c: char) -> (r: Vec<u8>)
    ensures
        r@ == encode_utf8(seq![c]),
{
    proof {
        vstd::utf8::char_is_scalar(c);
    }
    let u = c as u32;
    let mut r: Vec<u8> = Vec::new();
    if u <= 0x7F {
        r.push((u & 0x7F) as u8);
    } else if u <= 0x7FF {
        r.push(0xC0 | ((u >> 6) & 0x1F) as u8);
        r.push(0x80 | (u & 0x3F) as u8);
    } else if u <= 0xFFFF {
        r.push(0xE0 | ((u >> 12) & 0x0F) as u8);
        r.push(0x80 | ((u >> 6) & 0x3F) as u8);
        r.push(0x80 | (u & 0x3F) as u8);
    } else {
        r.push(0xF0 | ((u >> 18) & 0x7) as u8);
        r.push(0x80 | ((u >> 12) & 0x3F) as u8);
        r.push(0x80 | ((u >> 6) & 0x3F) as u8);
        r.push(0x80 | (u & 0x3F) as u8);
    }
    proof {
        assert(seq![c].drop_first() =~= Seq::<char>::empty());
        assert(encode_utf8(seq![c]) == vstd::utf8::encode_scalar(c as u32) + encode_utf8(
            Seq::<char>::empty(),
        ));
        assert(r@ =~= vstd::utf8::encode_scalar(c as u32) + encode_utf8(Seq::<char>::empty()));
    }
    r
}

/// The canonical bytes of a primitive leaf.
fn encoded_prim_exec(p: &PrimitiveContent) -> (r: Vec<u8>)
    ensures
        r@ == encoded_prim(prim_view(*p)),
{
    match p {
        PrimitiveContent::Bool(b) => {
            let mut r: Vec<u8> = Vec::new();
            r.push(if *b { 1 } else { 0 });
            proof {
                assert(r@ =~= encoded_prim(prim_view(*p)));
            }
            r
        },
        PrimitiveContent::Char(c) => encode_char(*c),
        PrimitiveContent::Str(s) => {
            let mut bytes = s.as_str().as_bytes_vec();
            let mut r = crate::scale::encode_compact(bytes.len() as u64);
            r.append(&mut bytes);
            r
        },
        PrimitiveContent::U8(v) => {
            let mut r: Vec<u8> = Vec::new();
            r.push(*v);
            proof {
                assert(r@ =~= seq![*v]);
            }
            r
        },
        PrimitiveContent::U16(v) => crate::scale::le_bytes_u128(*v as u128, 2),
        PrimitiveContent::U32(v) => crate::scale::le_bytes_u128(*v as u128, 4),
        PrimitiveContent::U64(v) => crate::scale::le_bytes_u128(*v as u128, 8),
        PrimitiveContent::U128(v) => crate::scale::le_bytes_u128(*v, 16),
        PrimitiveContent::U256(b) => copy_bytes(b),
        PrimitiveContent::I8(v) => {
            let mut r: Vec<u8> = Vec::new();
            r.push(*v as u8);
            proof {
                assert(r@ =~= seq![*v as u8]);
            }
            r
        },
        PrimitiveContent::I16(v) => crate::scale::le_bytes_u128(*v as u16 as u128, 2),
        PrimitiveContent::I32(v) => crate::scale::le_bytes_u128(*v as u32 as u128, 4),
        PrimitiveContent::I64(v) => crate::scale::le_bytes_u128(*v as u64 as u128, 8),
        PrimitiveContent::I128(v) => crate::scale::le_bytes_u128(*v as u128, 16),
        PrimitiveContent::I256(b) => copy_bytes(b),
    }
}

/// The concatenated encodings of a child list.
pub fn encoded_children(fields: &Vec<FieldContent>, schema: &Schema) -> (r: Vec<u8>)
    ensures
        r@ == encoded_list(views_of(fields@), schema.extrinsic.version),
    decreases fields@,
{
    let ghost version = schema.extrinsic.version;
    let ghost vs = views_of(fields@);
    proof {
        lemma_views_of(fields@);
    }
    let mut out: Vec<u8> = Vec::new();
    let mut i: usize = 0;
    while i < fields.len()
        invariant
            i <= fields@.len(),
            version == schema.extrinsic.version,
            vs == views_of(fields@),
            vs.len() == fields@.len(),
            out@ == encoded_list(vs.take(i as int), version),
        decreases fields@.len() - i,
    {
        let mut e = fields[i].encoded(schema);
        out.append(&mut e);
        proof {
            lemma_views_of(fields@);
            lemma_encoded_list_take(vs, i as int, version);
        }
        i += 1;
    }
    proof {
        assert(vs.take(vs.len() as int) =~= vs);
    }
    out
}

impl FieldContent {
    /// The canonical bytes of this node and everything below it.
    pub fn encoded(&self, schema: &Schema) -> (r: Vec<u8>)
        ensures
            r@ == encoded_node(self@, schema.extrinsic.version),
        decreases *self,
    {
        let ghost version = schema.extrinsic.version;
        match self {
            FieldContent::PalletCall(n) => {
                let mut out: Vec<u8> = Vec::new();
                match (&n.pallet, &n.call) {
                    (Some(p), Some(c)) => {
                        out.push(p.index);
                        out.push(*c);
                        proof {
                            assert(out@ =~= seq![p.index, *c]);
                        }
                    },
                    _ => {
                        proof {
                            assert(out@ =~= Seq::<u8>::empty());
                        }
                    },
                }
                let mut rest = encoded_children(&n.fields, schema);
                out.append(&mut rest);
                out
            },
            FieldContent::MagicUncheckedExtrinsic(n) => {
                let mut out: Vec<u8> = Vec::new();
                match &n.signature {
                    Some(sg) => {
                        out.push(schema.extrinsic.version | 0x80);
                        let mut a = sg.address.encoded(schema);
                        out.append(&mut a);
                        let mut b = sg.signature.encoded(schema);
                        out.append(&mut b);
                        let mut c = sg.extra.encoded(schema);
                        out.append(&mut c);
                        proof {
                            reveal_with_fuel(encoded_list, 4);
                            let sv = seq![
                                (*sg.address).view(),
                                (*sg.signature).view(),
                                (*sg.extra).view(),
                            ];
                            assert(sv.skip(1) =~= seq![(*sg.signature).view(), (*sg.extra).view()]);
                            assert(sv.skip(1).skip(1) =~= seq![(*sg.extra).view()]);
                            assert(sv.skip(1).skip(1).skip(1) =~= Seq::<NodeV>::empty());
                            assert(out@ =~= seq![version | 0x80] + encoded_list(sv, version));
                        }
                    },
                    None => {
                        out.push(schema.extrinsic.version);
                        proof {
                            assert(out@ =~= seq![version] + encoded_list(
                                Seq::<NodeV>::empty(),
                                version,
                            ));
                        }
                    },
                }
                let mut rest = encoded_children(&n.fields, schema);
                out.append(&mut rest);
                out
            },
            FieldContent::Variant(n) => {
                let mut out: Vec<u8> = Vec::new();
                match &n.selected {
                    Some(d) => {
                        out.push(*d);
                        proof {
                            assert(out@ =~= seq![*d]);
                        }
                    },
                    None => {
                        proof {
                            assert(out@ =~= Seq::<u8>::empty());
                        }
                    },
                }
                let mut rest = encoded_children(&n.fields, schema);
                out.append(&mut rest);
                out
            },
            FieldContent::Composite(n) => encoded_children(&n.fields, schema),
            FieldContent::Tuple(n) => encoded_children(&n.fields, schema),
            FieldContent::Sequence(n) => match &n.content {
                SequenceType::PrimitiveU8(b) => {
                    let mut out = crate::scale::encode_compact(b.content.len() as u64);
                    let mut bytes = copy_bytes(&b.content);
                    out.append(&mut bytes);
                    out
                },
                SequenceType::Composite(c) => {
                    let mut out = crate::scale::encode_compact(c.content.len() as u64);
                    proof {
                        lemma_views_of(c.content@);
                    }
                    let mut rest = encoded_children(&c.content, schema);
                    out.append(&mut rest);
                    out
                },
            },
            FieldContent::Array(n) => match &n.content {
                SequenceType::PrimitiveU8(b) => copy_bytes(&b.content),
                SequenceType::Composite(c) => encoded_children(&c.content, schema),
            },
            FieldContent::Compact(n) => {
                let mut mag = copy_bytes(&n.value);
                while mag.len() > 0 && mag[mag.len() - 1] == 0
                    invariant
                        le_value(mag@) == le_value(n.value@),
                    decreases mag@.len(),
                {
                    proof {
                        lemma_le_value_drop_zero(mag@);
                        assert(mag@.take(mag@.len() - 1) =~= mag@.drop_last());
                    }
                    mag.pop();
                }
                proof {
                    assert(crate::scale::minimal_le(mag@));
                    lemma_minimal_le(mag@);
                }
                if mag.len() <= 67 {
                    crate::scale::encode_compact_magnitude(&mag)
                } else {
                    let r: Vec<u8> = Vec::new();
                    proof {
                        assert(r@ =~= Seq::<u8>::empty());
                    }
                    r
                }
            },
            FieldContent::Primitive(n) => encoded_prim_exec(&n.content),
            FieldContent::BitSequence(n) => {
                let mut out = crate::scale::encode_compact(n.payload.len() as u64);
                let mut bytes = copy_bytes(&n.payload);
                out.append(&mut bytes);
                out
            },
            FieldContent::Error(_) => {
                let r: Vec<u8> = Vec::new();
                proof {
                    assert(r@ =~= Seq::<u8>::empty());
                }
                r
            },
        }
    }
}

/// The payload of a selection event, read as a wire index.
pub open spec fn parse_u8_msg(msg: Seq<char>) -> Option<u8> {
    match crate::text::spec_parse_uint(msg) {
        Some(v) => if v <= 255 {
            Some(v as u8)
        } else {
            None
        },
        None => None,
    }
}

/// What a node-level event does to the node it addresses: the node's new
/// state when the event is taken at all — including a selection event
/// whose index matches nothing, which clears the selection — and nothing
/// when the payload is malformed or the selector tag is not the node's.
/// Whether the event *succeeded* is `local_success`.
pub open spec fn apply_local(n: NodeV, s: Schema, id: usize, msg: Seq<char>) -> Option<NodeV> {
    match n {
        NodeV::PalletCall { pallet, call, fields } => if id == 0 {
            match parse_u8_msg(msg) {
                Some(v) => Some(pallet_call::spec_pallet_selected(s, v)),
                None => None,
            }
        } else if id == 1 {
            match parse_u8_msg(msg) {
                Some(v) => Some(pallet_call::spec_call_selected(s, pallet, v)),
                None => None,
            }
        } else {
            None
        },
        NodeV::Variant { name, ty, .. } => if id == 0 {
            match parse_u8_msg(msg) {
                Some(v) => Some(variant::spec_variant_selected(s, name, ty, v)),
                None => None,
            }
        } else {
            None
        },
        NodeV::SequenceBytes { name, element_ty, hex_mode, bytes } => if id == 0 {
            if hex_mode {
                match crate::text::spec_unhex(msg) {
                    Some(b) => Some(
                        NodeV::SequenceBytes { name, element_ty, hex_mode, bytes: b },
                    ),
                    None => None,
                }
            } else {
                Some(
                    NodeV::SequenceBytes { name, element_ty, hex_mode, bytes: encode_utf8(msg) },
                )
            }
        } else if id == 3 {
            if msg == "hex"@ {
                Some(NodeV::SequenceBytes { name, element_ty, hex_mode: true, bytes })
            } else if msg == "text"@ {
                Some(NodeV::SequenceBytes { name, element_ty, hex_mode: false, bytes })
            } else {
                None
            }
        } else {
            None
        },
        NodeV::SequenceNodes { name, element_ty, fields } => if id == 1 {
            Some(
                NodeV::SequenceNodes {
                    name,
                    element_ty,
                    fields: fields.push(spec_resolve(s, element_ty, None, MAX_DEPTH as nat)),
                },
            )
        } else if id == 2 {
            match crate::text::spec_parse_uint(msg) {
                Some(v) => if v < fields.len() {
                    Some(
                        NodeV::SequenceNodes { name, element_ty, fields: fields.remove(v as int) },
                    )
                } else {
                    None
                },
                None => None,
            }
        } else {
            None
        },
        NodeV::ArrayBytes { name, element_ty, len, hex_mode, bytes } => if id == 0 {
            match crate::text::spec_unhex(msg) {
                Some(b) => if b.len() == len {
                    Some(NodeV::ArrayBytes { name, element_ty, len, hex_mode, bytes: b })
                } else {
                    None
                },
                None => None,
            }
        } else {
            None
        },
        NodeV::Compact { name, value, max } => if id == 0 {
            match crate::text::spec_parse_uint(msg) {
                Some(v) => if (crate::text::has_hex_prefix(msg) || v <= u128::MAX) && byte_len(v)
                    <= max {
                    Some(NodeV::Compact { name, value: le_bytes(v, byte_len(v)), max })
                } else {
                    None
                },
                None => None,
            }
        } else {
            None
        },
        NodeV::Primitive { name, value } => if id == 0 {
            match primitive::prim_parse(value, msg) {
                Some(p2) => Some(NodeV::Primitive { name, value: p2 }),
                None => None,
            }
        } else {
            None
        },
        NodeV::BitSequence { name, .. } => if id == 0 {
            match crate::text::spec_unhex(msg) {
                Some(b) => Some(NodeV::BitSequence { name, payload: b }),
                None => None,
            }
        } else {
            None
        },
        _ => None,
    }
}

/// Did a node-level event succeed? A selection event succeeds only when
/// the payload parses and the index names a declared pallet, call or
/// option: an unmatched index still clears the selection (see
/// `apply_local`) but reports failure. Every other event succeeds exactly
/// when it changes the node.
pub open spec fn local_success(n: NodeV, s: Schema, id: usize, msg: Seq<char>) -> bool {
    match n {
        NodeV::PalletCall { pallet, .. } => if id == 0 {
            match parse_u8_msg(msg) {
                Some(v) => pallet_call::spec_find_pallet(s.pallets@, v) is Some,
                None => false,
            }
        } else if id == 1 {
            match parse_u8_msg(msg) {
                Some(v) => (match pallet_call::spec_calls_of(s, pallet) {
                    Some(vars) => pallet_call::spec_find_variant(vars, v) is Some,
                    None => false,
                }),
                None => false,
            }
        } else {
            false
        },
        NodeV::Variant { ty, .. } => if id == 0 {
            match parse_u8_msg(msg) {
                Some(v) => (match variant::spec_variant_options(s, ty) {
                    Some(vars) => pallet_call::spec_find_variant(vars, v) is Some,
                    None => false,
                }),
                None => false,
            }
        } else {
            false
        },
        _ => apply_local(n, s, id, msg) is Some,
    }
}

/// The addressable children of a node: the child container of aggregate
/// kinds, nothing for leaves, byte buffers and error nodes.
pub open spec fn children_of(n: NodeV) -> Seq<NodeV> {
    match n {
        NodeV::PalletCall { fields, .. } => fields,
        NodeV::Extrinsic { fields, .. } => fields,
        NodeV::Variant { fields, .. } => fields,
        NodeV::Composite { fields, .. } => fields,
        NodeV::Tuple { fields, .. } => fields,
        NodeV::SequenceNodes { fields, .. } => fields,
        NodeV::ArrayNodes { fields, .. } => fields,
        _ => Seq::empty(),
    }
}

/// The same node with its child container replaced.
pub open spec fn with_children(n: NodeV, f: Seq<NodeV>) -> NodeV {
    match n {
        NodeV::PalletCall { pallet, call, .. } => NodeV::PalletCall { pallet, call, fields: f },
        NodeV::Extrinsic { signed, sig_fields, .. } => NodeV::Extrinsic {
            signed,
            sig_fields,
            fields: f,
        },
        NodeV::Variant { name, ty, selected, .. } => NodeV::Variant {
            name,
            ty,
            selected,
            fields: f,
        },
        NodeV::Composite { name, .. } => NodeV::Composite { name, fields: f },
        NodeV::Tuple { name, .. } => NodeV::Tuple { name, fields: f },
        NodeV::SequenceNodes { name, element_ty, .. } => NodeV::SequenceNodes {
            name,
            element_ty,
            fields: f,
        },
        NodeV::ArrayNodes { name, element_ty, len, .. } => NodeV::ArrayNodes {
            name,
            element_ty,
            len,
            fields: f,
        },
        _ => n,
    }
}

/// Putting a node's own children back leaves it unchanged.
pub proof fn lemma_with_children_id(n: NodeV)
    ensures
        with_children(n, children_of(n)) == n,
{
}

/// Updating one element of a child list updates its views pointwise.
pub proof fn lemma_views_of_update(s: Seq<FieldContent>, k: int, x: FieldContent)
    requires
        0 <= k < s.len(),
    ensures
        views_of(s.update(k, x)) == views_of(s).update(k, x@),
{
    lemma_views_of(s);
    lemma_views_of(s.update(k, x));
    assert(views_of(s.update(k, x)) =~= views_of(s).update(k, x@));
}

/// What an event addressed by `path` (from position `pos` on) does to a
/// node: the updated node, or nothing when the path runs off the tree or
/// the addressed node refuses the event.
pub open spec fn apply_at(
    n: NodeV,
    s: Schema,
    path: Seq<usize>,
    pos: int,
    id: usize,
    msg: Seq<char>,
) -> Option<NodeV>
    decreases path.len() - pos,
{
    if pos < 0 {
        None
    } else if pos >= path.len() {
        apply_local(n, s, id, msg)
    } else {
        let k = path[pos] as int;
        if k < children_of(n).len() {
            match apply_at(children_of(n)[k], s, path, pos + 1, id, msg) {
                Some(c2) => Some(with_children(n, children_of(n).update(k, c2))),
                None => None,
            }
        } else {
            None
        }
    }
}

/// Did the event addressed by `path` succeed? It did exactly when the
/// path reaches a node and that node reports local success; an unmatched
/// selection index deep in the tree mutates (clearing that selector) yet
/// still reports failure here.
pub open spec fn success_at(
    n: NodeV,
    s: Schema,
    path: Seq<usize>,
    pos: int,
    id: usize,
    msg: Seq<char>,
) -> bool
    decreases path.len() - pos,
{
    if pos < 0 {
        false
    } else if pos >= path.len() {
        local_success(n, s, id, msg)
    } else {
        let k = path[pos] as int;
        if k < children_of(n).len() {
            success_at(children_of(n)[k], s, path, pos + 1, id, msg)
        } else {
            false
        }
    }
}

/// A mutable borrow of one element of a child list.
pub(crate) fn child_in(fields: &mut Vec<FieldContent>, id: usize) -> (r: Option<&mut FieldContent>)
    ensures
        (r matches Some(c) ==> id < old(fields)@.len() && (*c)@ == old(fields)@[id as int]@
            && views_of(final(fields)@) == views_of(old(fields)@).update(
            id as int,
            final(c)@,
        )),
        (r is None ==> final(fields)@ == old(fields)@ && id >= old(fields)@.len()),
{
    if id < fields.len() {
        let ghost pre = fields@;
        let c = &mut fields[id];
        proof {
            assert(after_borrow(*fields)@ =~= pre.update(id as int, *final(c)));
            lemma_views_of_update(pre, id as int, *final(c));
        }
        Some(c)
    } else {
        None
    }
}

impl FieldContent {
    /// The addressable child at position `id`, for event routing.
    pub fn get_child(&mut self, id: &usize) -> (r: Option<&mut FieldContent>)
        ensures
            (r matches Some(c) ==> *id < children_of(old(self)@).len() && (*c)@ == children_of(
                old(self)@,
            )[*id as int] && final(self)@ == with_children(
                old(self)@,
                children_of(old(self)@).update(*id as int, final(c)@),
            )),
            (r is None ==> final(self)@ == old(self)@ && *id >= children_of(old(self)@).len()),
    {
        proof {
            lemma_views_of(children_vec_view(*self));
        }
        match self {
            FieldContent::PalletCall(n) => child_in(&mut n.fields, *id),
            FieldContent::MagicUncheckedExtrinsic(n) => child_in(&mut n.fields, *id),
            FieldContent::Variant(n) => child_in(&mut n.fields, *id),
            FieldContent::Composite(n) => child_in(&mut n.fields, *id),
            FieldContent::Tuple(n) => child_in(&mut n.fields, *id),
            FieldContent::Sequence(n) => match &mut n.content {
                SequenceType::Composite(c) => child_in(&mut c.content, *id),
                SequenceType::PrimitiveU8(_) => None,
            },
            FieldContent::Array(n) => match &mut n.content {
                SequenceType::Composite(c) => child_in(&mut c.content, *id),
                SequenceType::PrimitiveU8(_) => None,
            },
            _ => None,
        }
    }

    /// Route a node-level event to the node `path` addresses, starting at
    /// path position `pos`, and let that node handle it. A path that runs
    /// off the tree, or an event the addressed node refuses, changes
    /// nothing and reports failure; a selection index that names no
    /// declared entry clears that selector and reports failure too.
    pub fn handle_event_at(
        &mut self,
        path: &Vec<usize>,
        pos: usize,
        ccei: &crate::messaging::CCEI,
        schema: &Schema,
    ) -> (r: bool)
        requires
            pos <= path@.len(),
        ensures
            r == success_at(old(self)@, *schema, path@, pos as int, ccei.id, ccei.message@),
            (apply_at(old(self)@, *schema, path@, pos as int, ccei.id, ccei.message@) matches Some(
                nv,
            ) ==> final(self)@ == nv),
            (apply_at(old(self)@, *schema, path@, pos as int, ccei.id, ccei.message@) is None
                ==> final(self)@ == old(self)@),
        decreases path@.len() - pos,
    {
        if pos == path.len() {
            self.handle_event(ccei, schema)
        } else {
            let k = path[pos];
            let ghost pre = self@;
            match self.get_child(&k) {
                Some(c) => {
                    let ghost childv = (*c)@;
                    let ok = c.handle_event_at(path, pos + 1, ccei, schema);
                    proof {
                        if apply_at(childv, *schema, path@, pos as int + 1, ccei.id, ccei.message@)
                            is None {
                            assert(children_of(pre).update(k as int, children_of(pre)[k as int])
                                =~= children_of(pre));
                            lemma_with_children_id(pre);
                        }
                    }
                    ok
                },
                None => false,
            }
        }
    }
}

impl FieldContent {
    /// Let this node handle a node-level event. Selection events rebuild
    /// children; value events replace the held value; anything malformed
    /// changes nothing and reports failure, and a selection index that
    /// names no declared entry clears the selection and reports failure.
    pub fn handle_event(&mut self, ccei: &crate::messaging::CCEI, schema: &Schema) -> (r: bool)
        ensures
            r == local_success(old(self)@, *schema, ccei.id, ccei.message@),
            (apply_local(old(self)@, *schema, ccei.id, ccei.message@) matches Some(nv)
                ==> final(self)@ == nv),
            (apply_local(old(self)@, *schema, ccei.id, ccei.message@) is None ==> final(self)@
                == old(self)@),
    {
        match self {
            FieldContent::PalletCall(n) => n.handle_event(ccei, schema),
            FieldContent::Variant(n) => n.handle_event(ccei, schema),
            FieldContent::Sequence(n) => n.handle_event(ccei, schema),
            FieldContent::Array(n) => n.handle_event(ccei, schema),
            FieldContent::Compact(n) => n.handle_event(ccei, schema),
            FieldContent::Primitive(n) => n.handle_event(ccei, schema),
            FieldContent::BitSequence(n) => n.handle_event(ccei, schema),
            _ => false,
        }
    }
}

/// The child vector a node holds, for proofs about `get_child`.
pub open spec fn children_vec_view(n: FieldContent) -> Seq<FieldContent> {
    match n {
        FieldContent::PalletCall(c) => c.fields@,
        FieldContent::MagicUncheckedExtrinsic(c) => c.fields@,
        FieldContent::Variant(c) => c.fields@,
        FieldContent::Composite(c) => c.fields@,
        FieldContent::Tuple(c) => c.fields@,
        FieldContent::Sequence(c) => match c.content {
            SequenceType::Composite(cc) => cc.content@,
            _ => Seq::empty(),
        },
        FieldContent::Array(c) => match c.content {
            SequenceType::Composite(cc) => cc.content@,
            _ => Seq::empty(),
        },
        _ => Seq::empty(),
    }
}

/// Appending to a child list appends its view.
pub proof fn lemma_views_of_push(s: Seq<FieldContent>, x: FieldContent)
    ensures
        views_of(s.push(x)) == views_of(s).push(x@),
{
    lemma_views_of(s);
    lemma_views_of(s.push(x));
    assert(views_of(s.push(x)) =~= views_of(s).push(x@));
}

/// Removing from a child list removes from its view.
pub proof fn lemma_views_of_remove(s: Seq<FieldContent>, k: int)
    requires
        0 <= k < s.len(),
    ensures
        views_of(s.remove(k)) == views_of(s).remove(k),
{
    lemma_views_of(s);
    lemma_views_of(s.remove(k));
    assert(views_of(s.remove(k)) =~= views_of(s).remove(k));
}

/// A selection event's outcome is a function of the schema, the node's
/// name and type id, and the payload alone: whatever discriminant was
/// selected before and whatever children were held, the resulting node is
/// the same, so no data of the previous children survives a re-selection.
pub proof fn lemma_selection_discards_children(
    s: Schema,
    name: Option<Seq<char>>,
    ty: u32,
    sel1: Option<u8>,
    f1: Seq<NodeV>,
    sel2: Option<u8>,
    f2: Seq<NodeV>,
    id: usize,
    msg: Seq<char>,
)
    ensures
        apply_local(NodeV::Variant { name, ty, selected: sel1, fields: f1 }, s, id, msg)
            == apply_local(NodeV::Variant { name, ty, selected: sel2, fields: f2 }, s, id, msg),
{
}

} // verus!
