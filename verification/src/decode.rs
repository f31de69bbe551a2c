//! The decoding direction: every fully populated tree's canonical byte
//! stream parses back, with the tree's shape as the type information, to
//! exactly the tree's semantic value, whatever bytes follow it.

use vstd::prelude::*;
use vstd::utf8::{decode_first_scalar, encode_scalar, encode_utf8, length_of_first_scalar,
    valid_first_scalar};

use crate::field_content::{encoded_list, encoded_node, lemma_views_of, views_of, FieldContent,
    NodeV, PrimV};
use crate::field_content::primitive::PrimitiveContent;
use crate::field_content::sequence::SequenceType;
use crate::scale::{byte_len, le_bytes, le_value, lemma_byte_len_le, lemma_compact_round_trip,
    lemma_le_bytes_len, lemma_le_value_le_bytes, lemma_minimal_le, pow256, spec_decode_compact,
    spec_encode_compact};

verus! {

/// The semantic value a populated tree denotes.
pub enum Value {
    Bool(bool),
    Char(char),
    Bytes(Seq<u8>),
    Uint(nat),
    Int(int),
    Compact(nat),
    List(Seq<Value>),
    Variant(u8, Seq<Value>),
    Call(u8, u8, Seq<Value>),
    Extrinsic(Seq<Value>),
}

/// The semantic value of a primitive leaf.
pub open spec fn prim_value(p: PrimV) -> Value {
    match p {
        PrimV::Bool(b) => Value::Bool(b),
        PrimV::Char(c) => Value::Char(c),
        PrimV::Str(s) => Value::Bytes(encode_utf8(s)),
        PrimV::U8(v) => Value::Uint(v as nat),
        PrimV::U16(v) => Value::Uint(v as nat),
        PrimV::U32(v) => Value::Uint(v as nat),
        PrimV::U64(v) => Value::Uint(v as nat),
        PrimV::U128(v) => Value::Uint(v as nat),
        PrimV::U256(b) => Value::Uint(le_value(b)),
        PrimV::I8(v) => Value::Int(v as int),
        PrimV::I16(v) => Value::Int(v as int),
        PrimV::I32(v) => Value::Int(v as int),
        PrimV::I64(v) => Value::Int(v as int),
        PrimV::I128(v) => Value::Int(v as int),
        PrimV::I256(b) => Value::Int(
            if b.len() == 32 && b[31] >= 0x80 {
                le_value(b) - pow256(32)
            } else {
                le_value(b) as int
            },
        ),
    }
}

/// The semantic value of a tree node.
pub open spec fn value_of(n: NodeV) -> Value
    decreases n,
{
    match n {
        NodeV::PalletCall { pallet, call, fields } => Value::Call(
            match pallet {
                Some(p) => p.index,
                None => 0,
            },
            match call {
                Some(c) => c,
                None => 0,
            },
            values_of(fields),
        ),
        NodeV::Extrinsic { fields, .. } => Value::Extrinsic(values_of(fields)),
        NodeV::Variant { selected, fields, .. } => Value::Variant(
            match selected {
                Some(d) => d,
                None => 0,
            },
            values_of(fields),
        ),
        NodeV::Composite { fields, .. } => Value::List(values_of(fields)),
        NodeV::Tuple { fields, .. } => Value::List(values_of(fields)),
        NodeV::SequenceBytes { bytes, .. } => Value::Bytes(bytes),
        NodeV::SequenceNodes { fields, .. } => Value::List(values_of(fields)),
        NodeV::ArrayBytes { bytes, .. } => Value::Bytes(bytes),
        NodeV::ArrayNodes { fields, .. } => Value::List(values_of(fields)),
        NodeV::Compact { value, .. } => Value::Compact(le_value(value)),
        NodeV::Primitive { value, .. } => prim_value(value),
        NodeV::BitSequence { payload, .. } => Value::Bytes(payload),
        NodeV::Error(_) => Value::Bytes(Seq::empty()),
    }
}

/// The semantic values of a child list.
pub open spec fn values_of(s: Seq<NodeV>) -> Seq<Value>
    decreases s,
{
    if s.len() == 0 {
        Seq::empty()
    } else {
        seq![value_of(s[0])] + values_of(s.skip(1))
    }
}

/// Is a primitive leaf fully populated and within its declared width?
pub open spec fn prim_complete(p: PrimV) -> bool {
    match p {
        PrimV::Str(s) => encode_utf8(s).len() < pow256(8),
        PrimV::U256(b) => b.len() == 32,
        PrimV::I256(b) => b.len() == 32,
        _ => true,
    }
}

/// Is every selector chosen, every magnitude canonical, every fixed-width
/// buffer at its declared width, below this node? Only a fully populated
/// tree has a well-defined wire value.
pub open spec fn complete(n: NodeV) -> bool
    decreases n,
{
    match n {
        NodeV::PalletCall { pallet, call, fields } => pallet is Some && call is Some
            && all_complete(fields),
        NodeV::Extrinsic { signed, sig_fields, fields } => !signed && sig_fields.len() == 0
            && all_complete(fields),
        NodeV::Variant { selected, fields, .. } => selected is Some && all_complete(fields),
        NodeV::Composite { fields, .. } => all_complete(fields),
        NodeV::Tuple { fields, .. } => all_complete(fields),
        NodeV::SequenceBytes { bytes, .. } => bytes.len() < pow256(8),
        NodeV::SequenceNodes { fields, .. } => fields.len() < pow256(8) && all_complete(fields),
        NodeV::ArrayBytes { len, bytes, .. } => bytes.len() == len,
        NodeV::ArrayNodes { len, fields, .. } => fields.len() == len && all_complete(fields),
        NodeV::Compact { value, max, .. } => crate::scale::minimal_le(value) && value.len() <= 32,
        NodeV::Primitive { value, .. } => prim_complete(value),
        NodeV::BitSequence { payload, .. } => payload.len() < pow256(8),
        NodeV::Error(_) => false,
    }
}

/// Is every node of a child list fully populated?
pub open spec fn all_complete(s: Seq<NodeV>) -> bool
    decreases s,
{
    if s.len() == 0 {
        true
    } else {
        complete(s[0]) && all_complete(s.skip(1))
    }
}

/// The signed reading of an unsigned `width`-byte value.
pub open spec fn signed_of(w: nat, width: nat) -> int {
    if 2 * w >= pow256(width) {
        w - pow256(width)
    } else {
        w as int
    }
}

/// Parse the value of a primitive leaf of `p`'s kind from the front of
/// `b`.
pub open spec fn decode_prim(p: PrimV, b: Seq<u8>) -> Option<(Value, Seq<u8>)> {
    match p {
        PrimV::Bool(_) => if b.len() >= 1 && (b[0] == 0 || b[0] == 1) {
            Some((Value::Bool(b[0] == 1), b.skip(1)))
        } else {
            None
        },
        PrimV::Char(_) => if b.len() >= 1 && valid_first_scalar(b) && length_of_first_scalar(b)
            <= b.len() {
            Some((Value::Char(decode_first_scalar(b) as char), b.skip(length_of_first_scalar(b))))
        } else {
            None
        },
        PrimV::Str(_) => match spec_decode_compact(b) {
            Some((cnt, r1)) => if r1.len() >= cnt {
                Some((Value::Bytes(r1.take(cnt as int)), r1.skip(cnt as int)))
            } else {
                None
            },
            None => None,
        },
        PrimV::U8(_) => if b.len() >= 1 {
            Some((Value::Uint(b[0] as nat), b.skip(1)))
        } else {
            None
        },
        PrimV::U16(_) => if b.len() >= 2 {
            Some((Value::Uint(le_value(b.take(2))), b.skip(2)))
        } else {
            None
        },
        PrimV::U32(_) => if b.len() >= 4 {
            Some((Value::Uint(le_value(b.take(4))), b.skip(4)))
        } else {
            None
        },
        PrimV::U64(_) => if b.len() >= 8 {
            Some((Value::Uint(le_value(b.take(8))), b.skip(8)))
        } else {
            None
        },
        PrimV::U128(_) => if b.len() >= 16 {
            Some((Value::Uint(le_value(b.take(16))), b.skip(16)))
        } else {
            None
        },
        PrimV::U256(_) => if b.len() >= 32 {
            Some((Value::Uint(le_value(b.take(32))), b.skip(32)))
        } else {
            None
        },
        PrimV::I8(_) => if b.len() >= 1 {
            Some((Value::Int(signed_of(b[0] as nat, 1)), b.skip(1)))
        } else {
            None
        },
        PrimV::I16(_) => if b.len() >= 2 {
            Some((Value::Int(signed_of(le_value(b.take(2)), 2)), b.skip(2)))
        } else {
            None
        },
        PrimV::I32(_) => if b.len() >= 4 {
            Some((Value::Int(signed_of(le_value(b.take(4)), 4)), b.skip(4)))
        } else {
            None
        },
        PrimV::I64(_) => if b.len() >= 8 {
            Some((Value::Int(signed_of(le_value(b.take(8)), 8)), b.skip(8)))
        } else {
            None
        },
        PrimV::I128(_) => if b.len() >= 16 {
            Some((Value::Int(signed_of(le_value(b.take(16)), 16)), b.skip(16)))
        } else {
            None
        },
        PrimV::I256(_) => if b.len() >= 32 {
            Some(
                (
                    Value::Int(
                        if b.take(32)[31] >= 0x80 {
                            le_value(b.take(32)) - pow256(32)
                        } else {
                            le_value(b.take(32)) as int
                        },
                    ),
                    b.skip(32),
                ),
            )
        } else {
            None
        },
    }
}

/// Parse the value a byte stream denotes, directed by the shape of `n`:
/// the node kinds, child shapes and declared widths act as the type
/// information, never the leaf values held in `n`.
pub open spec fn decode_node(n: NodeV, version: u8, b: Seq<u8>) -> Option<(Value, Seq<u8>)>
    decreases n,
{
    match n {
        NodeV::PalletCall { pallet, call, fields } => if pallet is Some && call is Some && b.len()
            >= 2 {
            match decode_list(fields, version, b.skip(2)) {
                Some(p) => Some((Value::Call(b[0], b[1], p.0), p.1)),
                None => None,
            }
        } else {
            None
        },
        NodeV::Extrinsic { signed, fields, .. } => if !signed && b.len() >= 1 && b[0] == version {
            match decode_list(fields, version, b.skip(1)) {
                Some(p) => Some((Value::Extrinsic(p.0), p.1)),
                None => None,
            }
        } else {
            None
        },
        NodeV::Variant { selected, fields, .. } => match selected {
            Some(d) => if b.len() >= 1 && b[0] == d {
                match decode_list(fields, version, b.skip(1)) {
                    Some(p) => Some((Value::Variant(b[0], p.0), p.1)),
                    None => None,
                }
            } else {
                None
            },
            None => None,
        },
        NodeV::Composite { fields, .. } => match decode_list(fields, version, b) {
            Some(p) => Some((Value::List(p.0), p.1)),
            None => None,
        },
        NodeV::Tuple { fields, .. } => match decode_list(fields, version, b) {
            Some(p) => Some((Value::List(p.0), p.1)),
            None => None,
        },
        NodeV::SequenceBytes { .. } => match spec_decode_compact(b) {
            Some(p) => if p.1.len() >= p.0 {
                Some((Value::Bytes(p.1.take(p.0 as int)), p.1.skip(p.0 as int)))
            } else {
                None
            },
            None => None,
        },
        NodeV::SequenceNodes { fields, .. } => match spec_decode_compact(b) {
            Some(p) => if p.0 == fields.len() {
                match decode_list(fields, version, p.1) {
                    Some(q) => Some((Value::List(q.0), q.1)),
                    None => None,
                }
            } else {
                None
            },
            None => None,
        },
        NodeV::ArrayBytes { len, .. } => if b.len() >= len {
            Some((Value::Bytes(b.take(len as int)), b.skip(len as int)))
        } else {
            None
        },
        NodeV::ArrayNodes { fields, .. } => match decode_list(fields, version, b) {
            Some(p) => Some((Value::List(p.0), p.1)),
            None => None,
        },
        NodeV::Compact { .. } => match spec_decode_compact(b) {
            Some(p) => Some((Value::Compact(p.0), p.1)),
            None => None,
        },
        NodeV::Primitive { value, .. } => decode_prim(value, b),
        NodeV::BitSequence { .. } => match spec_decode_compact(b) {
            Some(p) => if p.1.len() >= p.0 {
                Some((Value::Bytes(p.1.take(p.0 as int)), p.1.skip(p.0 as int)))
            } else {
                None
            },
            None => None,
        },
        NodeV::Error(_) => None,
    }
}

/// Parse one value per child shape, in order.
pub open spec fn decode_list(s: Seq<NodeV>, version: u8, b: Seq<u8>) -> Option<
    (Seq<Value>, Seq<u8>),
>
    decreases s,
{
    if s.len() == 0 {
        Some((Seq::empty(), b))
    } else {
        match decode_node(s[0], version, b) {
            Some(p) => match decode_list(s.skip(1), version, p.1) {
                Some(q) => Some((seq![p.0] + q.0, q.1)),
                None => None,
            },
            None => None,
        }
    }
}

/// Reading the UTF-8 encoding of one character from the front of a
/// longer stream yields that character and consumes exactly its bytes.
proof fn lemma_first_scalar_prefix(c: char, rest: Seq<u8>)
    ensures
        ({
            let b = encode_utf8(seq![c]) + rest;
            &&& valid_first_scalar(b)
            &&& length_of_first_scalar(b) == encode_utf8(seq![c]).len()
            &&& decode_first_scalar(b) == c as u32
        }),
{
    vstd::utf8::char_is_scalar(c);
    let eu = encode_utf8(seq![c]);
    assert(seq![c].drop_first() =~= Seq::<char>::empty());
    assert(eu =~= encode_scalar(c as u32)) by {
        reveal_with_fuel(encode_utf8, 2);
        assert(seq![c][0] == c);
        assert(encode_utf8(Seq::<char>::empty()) =~= Seq::<u8>::empty());
        assert(encode_scalar(c as u32) + Seq::<u8>::empty() =~= encode_scalar(c as u32));
    };
    vstd::utf8::encode_utf8_first_scalar(seq![c]);
    let b = eu + rest;
    assert(b[0] == eu[0]);
    assert(forall|i: int| 0 <= i < eu.len() ==> b[i] == eu[i]);
    assert(b.len() >= eu.len());
    assert(valid_first_scalar(b) && length_of_first_scalar(b) == eu.len()
        && decode_first_scalar(b) == c as u32) by {
        assert(eu.len() <= 4);
        assert(forall|i: int| 0 <= i < eu.len() ==> b[i] == eu[i]);
        assert(vstd::utf8::length_of_first_codepoint(b) == vstd::utf8::length_of_first_codepoint(
            eu,
        ));
        assert(vstd::utf8::valid_leading_and_continuation_bytes_first_codepoint(b)
            == vstd::utf8::valid_leading_and_continuation_bytes_first_codepoint(eu));
        assert(vstd::utf8::decode_first_codepoint(b) == vstd::utf8::decode_first_codepoint(eu));
    };
}

/// Every populated primitive's bytes parse back to its value.
#[verifier::rlimit(60)]
proof fn lemma_decode_prim(p: PrimV, b0: Seq<u8>, rest: Seq<u8>)
    requires
        prim_complete(p),
        b0 == crate::field_content::encoded_prim(p) + rest,
    ensures
        decode_prim(p, b0) == Some((prim_value(p), rest)),
{
    match p {
        PrimV::Bool(v) => {
            assert(b0.skip(1) =~= rest);
        },
        PrimV::Char(c) => {
            lemma_first_scalar_prefix(c, rest);
            assert(b0.skip(encode_utf8(seq![c]).len() as int) =~= rest);
            vstd::utf8::char_u32_cast(c, c as u32);
        },
        PrimV::Str(s) => {
            let eb = encode_utf8(s);
            lemma_byte_len_le(eb.len(), 8);
            lemma_compact_round_trip(eb.len(), eb + rest);
            assert(b0 =~= spec_encode_compact(eb.len()) + (eb + rest));
            assert((eb + rest).take(eb.len() as int) =~= eb);
            assert((eb + rest).skip(eb.len() as int) =~= rest);
        },
        PrimV::U8(v) => {
            assert(b0.skip(1) =~= rest);
        },
        PrimV::U16(v) => {
            assert(pow256(2) == 0x1_0000) by {
                reveal_with_fuel(pow256, 3);
            };
            lemma_decode_uint_fixed(v as nat, 2, rest);
        },
        PrimV::U32(v) => {
            assert(pow256(4) == 0x1_0000_0000) by {
                reveal_with_fuel(pow256, 5);
            };
            lemma_decode_uint_fixed(v as nat, 4, rest);
        },
        PrimV::U64(v) => {
            assert(pow256(8) == 0x1_0000_0000_0000_0000) by {
                reveal_with_fuel(pow256, 9);
            };
            lemma_decode_uint_fixed(v as nat, 8, rest);
        },
        PrimV::U128(v) => {
            assert(pow256(16) == 0x1_0000_0000_0000_0000_0000_0000_0000_0000) by {
                reveal_with_fuel(pow256, 17);
            };
            lemma_decode_uint_fixed(v as nat, 16, rest);
        },
        PrimV::U256(b) => {
            assert(b0.take(32) =~= b);
            assert(b0.skip(32) =~= rest);
        },
        PrimV::I8(v) => {
            assert(b0.skip(1) =~= rest);
            assert(v as u8 == (if v < 0 {
                v + 0x100
            } else {
                v as int
            })) by (bit_vector);
            assert(pow256(1) == 0x100) by {
                reveal_with_fuel(pow256, 2);
            };
        },
        PrimV::I16(v) => {
            assert(pow256(2) == 0x1_0000) by {
                reveal_with_fuel(pow256, 3);
            };
            lemma_decode_uint_fixed((v as u16) as nat, 2, rest);
            assert(v as u16 == (if v < 0 {
                v + 0x1_0000
            } else {
                v as int
            })) by (bit_vector);
        },
        PrimV::I32(v) => {
            assert(pow256(4) == 0x1_0000_0000) by {
                reveal_with_fuel(pow256, 5);
            };
            lemma_decode_uint_fixed((v as u32) as nat, 4, rest);
            assert(v as u32 == (if v < 0 {
                v + 0x1_0000_0000
            } else {
                v as int
            })) by (bit_vector);
        },
        PrimV::I64(v) => {
            assert(pow256(8) == 0x1_0000_0000_0000_0000) by {
                reveal_with_fuel(pow256, 9);
            };
            lemma_decode_uint_fixed((v as u64) as nat, 8, rest);
            assert(v as u64 == (if v < 0 {
                v + 0x1_0000_0000_0000_0000
            } else {
                v as int
            })) by (bit_vector);
        },
        PrimV::I128(v) => {
            assert(pow256(16) == 0x1_0000_0000_0000_0000_0000_0000_0000_0000) by {
                reveal_with_fuel(pow256, 17);
            };
            lemma_decode_uint_fixed((v as u128) as nat, 16, rest);
            assert(v as u128 == (if v < 0 {
                v + 0x1_0000_0000_0000_0000_0000_0000_0000_0000
            } else {
                v as int
            })) by (bit_vector);
        },
        PrimV::I256(b) => {
            assert(b0.take(32) =~= b);
            assert(b0.skip(32) =~= rest);
        },
    }
}

/// A fixed-width little-endian value followed by anything parses back to
/// itself, consuming exactly its width.
proof fn lemma_decode_uint_fixed(v: nat, width: nat, rest: Seq<u8>)
    requires
        v < pow256(width),
    ensures
        (le_bytes(v, width) + rest).len() >= width,
        (le_bytes(v, width) + rest).take(width as int) == le_bytes(v, width),
        (le_bytes(v, width) + rest).skip(width as int) == rest,
        le_value((le_bytes(v, width) + rest).take(width as int)) == v,
{
    lemma_le_bytes_len(v, width);
    lemma_le_value_le_bytes(v, width);
    assert((le_bytes(v, width) + rest).take(width as int) =~= le_bytes(v, width));
    assert((le_bytes(v, width) + rest).skip(width as int) =~= rest);
}

/// The round trip: a fully populated tree's canonical bytes, followed by
/// any bytes at all, parse back to exactly the tree's semantic value with
/// exactly the following bytes left over.
#[verifier::rlimit(100)]
pub proof fn lemma_round_trip(n: NodeV, version: u8, rest: Seq<u8>)
    requires
        complete(n),
    ensures
        decode_node(n, version, encoded_node(n, version) + rest) == Some((value_of(n), rest)),
    decreases n,
{
    let b = encoded_node(n, version) + rest;
    match n {
        NodeV::PalletCall { pallet, call, fields } => {
            let p = pallet->0;
            let c = call->0;
            let el = encoded_list(fields, version);
            assert(encoded_node(n, version) == seq![p.index, c] + el);
            assert(b[0] == p.index);
            assert(b[1] == c);
            assert(b.skip(2) =~= el + rest);
            lemma_round_trip_list(fields, version, rest);
        },
        NodeV::Extrinsic { signed, sig_fields, fields } => {
            let el = encoded_list(fields, version);
            assert(encoded_list(sig_fields, version) == Seq::<u8>::empty()) by {
                assert(sig_fields.len() == 0);
            };
            assert(encoded_node(n, version) =~= seq![version] + el);
            assert(b[0] == version);
            assert(b.skip(1) =~= el + rest);
            lemma_round_trip_list(fields, version, rest);
        },
        NodeV::Variant { selected, fields, .. } => {
            let d = selected->0;
            let el = encoded_list(fields, version);
            assert(encoded_node(n, version) == seq![d] + el);
            assert(b[0] == d);
            assert(b.skip(1) =~= el + rest);
            lemma_round_trip_list(fields, version, rest);
        },
        NodeV::Composite { fields, .. } => {
            assert(b =~= encoded_list(fields, version) + rest);
            lemma_round_trip_list(fields, version, rest);
        },
        NodeV::Tuple { fields, .. } => {
            assert(b =~= encoded_list(fields, version) + rest);
            lemma_round_trip_list(fields, version, rest);
        },
        NodeV::SequenceBytes { bytes, .. } => {
            lemma_byte_len_le(bytes.len(), 8);
            lemma_compact_round_trip(bytes.len(), bytes + rest);
            assert(b =~= spec_encode_compact(bytes.len()) + (bytes + rest));
            assert((bytes + rest).take(bytes.len() as int) =~= bytes);
            assert((bytes + rest).skip(bytes.len() as int) =~= rest);
        },
        NodeV::SequenceNodes { fields, .. } => {
            let el = encoded_list(fields, version);
            lemma_byte_len_le(fields.len(), 8);
            lemma_compact_round_trip(fields.len(), el + rest);
            assert(b =~= spec_encode_compact(fields.len()) + (el + rest));
            lemma_round_trip_list(fields, version, rest);
        },
        NodeV::ArrayBytes { len, bytes, .. } => {
            assert(b.take(len as int) =~= bytes);
            assert(b.skip(len as int) =~= rest);
        },
        NodeV::ArrayNodes { fields, .. } => {
            assert(b =~= encoded_list(fields, version) + rest);
            lemma_round_trip_list(fields, version, rest);
        },
        NodeV::Compact { value, .. } => {
            lemma_minimal_le(value);
            assert(byte_len(le_value(value)) <= 67);
            lemma_compact_round_trip(le_value(value), rest);
        },
        NodeV::Primitive { value, .. } => {
            lemma_decode_prim(value, b, rest);
        },
        NodeV::BitSequence { payload, .. } => {
            lemma_byte_len_le(payload.len(), 8);
            lemma_compact_round_trip(payload.len(), payload + rest);
            assert(b =~= spec_encode_compact(payload.len()) + (payload + rest));
            assert((payload + rest).take(payload.len() as int) =~= payload);
            assert((payload + rest).skip(payload.len() as int) =~= rest);
        },
        NodeV::Error(_) => {
            assert(false);
        },
    }
}

/// The round trip over a child list: the concatenated encodings parse
/// back child by child to the children's values.
pub proof fn lemma_round_trip_list(s: Seq<NodeV>, version: u8, rest: Seq<u8>)
    requires
        all_complete(s),
    ensures
        decode_list(s, version, encoded_list(s, version) + rest) == Some((values_of(s), rest)),
    decreases s,
{
    let b = encoded_list(s, version) + rest;
    if s.len() == 0 {
        assert(b =~= rest);
    } else {
        let e0 = encoded_node(s[0], version);
        let etail = encoded_list(s.skip(1), version);
        assert(b =~= e0 + (etail + rest));
        lemma_round_trip(s[0], version, etail + rest);
        lemma_round_trip_list(s.skip(1), version, rest);
    }
}

/// A child list is fully populated exactly when each child is.
pub proof fn lemma_all_complete_pointwise(s: Seq<NodeV>)
    ensures
        all_complete(s) <==> (forall|i: int| 0 <= i < s.len() ==> complete(#[trigger] s[i])),
    decreases s.len(),
{
    if s.len() > 0 {
        lemma_all_complete_pointwise(s.skip(1));
        assert forall|i: int| 1 <= i < s.len() implies s.skip(1)[i - 1] == s[i] by {}
        if complete(s[0]) && (forall|i: int| 0 <= i < s.skip(1).len() ==> complete(
            #[trigger] s.skip(1)[i],
        )) {
            assert forall|i: int| 0 <= i < s.len() implies complete(#[trigger] s[i]) by {
                if i > 0 {
                    assert(s[i] == s.skip(1)[i - 1]);
                }
            }
        }
        if forall|i: int| 0 <= i < s.len() ==> complete(#[trigger] s[i]) {
            assert forall|i: int|
                0 <= i < s.skip(1).len() implies complete(#[trigger] s.skip(1)[i]) by {
                assert(s.skip(1)[i] == s[i + 1]);
            }
        }
    }
}

/// The byte-length bound every in-memory buffer meets by construction.
proof fn lemma_usize_bound(l: usize)
    ensures
        (l as nat) < pow256(8),
{
    assert(pow256(8) == 0x1_0000_0000_0000_0000) by {
        reveal_with_fuel(pow256, 9);
    };
}

/// Is every node of a child list fully populated?
fn all_complete_vec(fields: &Vec<FieldContent>) -> (r: bool)
    ensures
        r == all_complete(views_of(fields@)),
    decreases fields@,
{
    proof {
        lemma_views_of(fields@);
        lemma_all_complete_pointwise(views_of(fields@));
    }
    let mut i: usize = 0;
    while i < fields.len()
        invariant
            i <= fields@.len(),
            views_of(fields@).len() == fields@.len(),
            forall|j: int| 0 <= j < fields@.len() ==> views_of(fields@)[j] == fields@[j]@,
            forall|j: int| 0 <= j < i ==> complete(#[trigger] views_of(fields@)[j]),
        decreases fields@.len() - i,
    {
        if !fields[i].is_complete() {
            proof {
                assert(!complete(views_of(fields@)[i as int]));
                lemma_all_complete_pointwise(views_of(fields@));
            }
            return false;
        }
        i += 1;
    }
    proof {
        lemma_all_complete_pointwise(views_of(fields@));
    }
    true
}

impl FieldContent {
    /// Is this subtree fully populated: every selector chosen, every
    /// fixed-width buffer at its declared width, no error node anywhere?
    /// Only then do its bytes denote a finished value; an incomplete or
    /// failed subtree still encodes (to a truncated stream) but must not
    /// be taken for a finished one.
    pub fn is_complete(&self) -> (r: bool)
        ensures
            r == complete(self@),
        decreases *self,
    {
        match self {
            FieldContent::PalletCall(n) => n.pallet.is_some() && n.call.is_some()
                && all_complete_vec(&n.fields),
            FieldContent::MagicUncheckedExtrinsic(n) => n.signature.is_none() && all_complete_vec(
                &n.fields,
            ),
            FieldContent::Variant(n) => n.selected.is_some() && all_complete_vec(&n.fields),
            FieldContent::Composite(n) => all_complete_vec(&n.fields),
            FieldContent::Tuple(n) => all_complete_vec(&n.fields),
            FieldContent::Sequence(n) => match &n.content {
                SequenceType::PrimitiveU8(b) => {
                    proof {
                        lemma_usize_bound(usize::MAX);
                    }
                    let l = b.content.len();
                    true
                },
                SequenceType::Composite(c) => {
                    proof {
                        lemma_usize_bound(usize::MAX);
                        lemma_views_of(c.content@);
                    }
                    let l = c.content.len();
                    all_complete_vec(&c.content)
                },
            },
            FieldContent::Array(n) => match &n.content {
                SequenceType::PrimitiveU8(b) => b.content.len() == n.len as usize,
                SequenceType::Composite(c) => {
                    proof {
                        lemma_views_of(c.content@);
                    }
                    c.content.len() == n.len as usize && all_complete_vec(&c.content)
                },
            },
            FieldContent::Compact(n) => (n.value.len() == 0 || n.value[n.value.len() - 1] != 0)
                && n.value.len() <= 32,
            FieldContent::Primitive(n) => match &n.content {
                PrimitiveContent::Str(s) => {
                    let bytes = s.as_str().as_bytes_vec();
                    proof {
                        lemma_usize_bound(usize::MAX);
                    }
                    let l = bytes.len();
                    true
                },
                PrimitiveContent::U256(b) => b.len() == 32,
                PrimitiveContent::I256(b) => b.len() == 32,
                _ => true,
            },
            FieldContent::BitSequence(n) => {
                proof {
                    lemma_usize_bound(usize::MAX);
                }
                let l = n.payload.len();
                true
            },
            FieldContent::Error(_) => false,
        }
    }
}

} // verus!
