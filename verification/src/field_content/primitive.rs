//! Primitive leaf nodes: booleans, characters, strings, and integers up
//! to 256 bits.

use vstd::prelude::*;
use vstd::string::*;

use crate::field_content::{apply_local, opt_name, FieldContent, NodeV, PrimV};
use crate::messaging::CCEI;
use crate::scale::{le_bytes, le_bytes_u128, lemma_byte_len_bound, lemma_byte_len_lower,
    lemma_le_bytes_exact, lemma_le_value_bound, lemma_le_value_top_byte, lemma_minimal_le,
    lemma_pow256_mono, pad_to, pow256, twos_complement32};
use crate::text::has_hex_prefix;
use crate::schema::Schema;
use crate::text::{parse_int, parse_uint, spec_parse_int, spec_parse_uint, str_eq};

verus! {

/// A primitive leaf value. 256-bit integers are held as 32 little-endian
/// bytes.
#[derive(Debug)]
pub struct Primitive {
    pub name: Option<String>,
    pub content: PrimitiveContent,
}

/// The value a primitive leaf currently holds, one arm per declared kind.
#[derive(Debug)]
pub enum PrimitiveContent {
    Bool(bool),
    Char(char),
    Str(String),
    U8(u8),
    U16(u16),
    U32(u32),
    U64(u64),
    U128(u128),
    U256(Vec<u8>),
    I8(i8),
    I16(i16),
    I32(i32),
    I64(i64),
    I128(i128),
    I256(Vec<u8>),
}

impl View for Primitive {
    type V = NodeV;

    open spec fn view(&self) -> NodeV {
        NodeV::Primitive {
            name: opt_name(self.name),
            value: crate::field_content::prim_view(self.content),
        }
    }
}

/// The 32 little-endian two's-complement bytes of a signed value within
/// the symmetric 256-bit range.
pub open spec fn i256_bytes(v: int) -> Seq<u8> {
    if v >= 0 {
        le_bytes(v as nat, 32)
    } else {
        le_bytes((pow256(32) + v) as nat, 32)
    }
}

/// Can a signed payload fill a 256-bit leaf: its magnitude is given in
/// hexadecimal or fits 128 bits, and the value lies strictly between
/// minus and plus 2^255.
pub open spec fn i256_accepts(msg: Seq<char>, v: int) -> bool {
    let mag_msg = if msg.len() >= 1 && msg[0] == '-' {
        msg.skip(1)
    } else {
        msg
    };
    &&& (has_hex_prefix(mag_msg) || (-(u128::MAX as int) <= v && v <= u128::MAX as int))
    &&& -(128 * pow256(31) as int) < v < 128 * pow256(31) as int
}

/// What a value event does to a primitive leaf: the new value parsed in
/// the leaf's declared kind, or nothing when the text does not fit it.
pub open spec fn prim_parse(p: PrimV, msg: Seq<char>) -> Option<PrimV> {
    match p {
        PrimV::Bool(_) => if msg == "true"@ {
            Some(PrimV::Bool(true))
        } else if msg == "false"@ {
            Some(PrimV::Bool(false))
        } else {
            None
        },
        PrimV::Char(_) => if msg.len() == 1 {
            Some(PrimV::Char(msg[0]))
        } else {
            None
        },
        PrimV::Str(_) => Some(PrimV::Str(msg)),
        PrimV::U8(_) => match spec_parse_uint(msg) {
            Some(v) => if v <= u8::MAX {
                Some(PrimV::U8(v as u8))
            } else {
                None
            },
            None => None,
        },
        PrimV::U16(_) => match spec_parse_uint(msg) {
            Some(v) => if v <= u16::MAX {
                Some(PrimV::U16(v as u16))
            } else {
                None
            },
            None => None,
        },
        PrimV::U32(_) => match spec_parse_uint(msg) {
            Some(v) => if v <= u32::MAX {
                Some(PrimV::U32(v as u32))
            } else {
                None
            },
            None => None,
        },
        PrimV::U64(_) => match spec_parse_uint(msg) {
            Some(v) => if v <= u64::MAX {
                Some(PrimV::U64(v as u64))
            } else {
                None
            },
            None => None,
        },
        PrimV::U128(_) => match spec_parse_uint(msg) {
            Some(v) => if v <= u128::MAX {
                Some(PrimV::U128(v as u128))
            } else {
                None
            },
            None => None,
        },
        PrimV::U256(_) => match spec_parse_uint(msg) {
            Some(v) => if (has_hex_prefix(msg) || v <= u128::MAX) && v < pow256(32) {
                Some(PrimV::U256(le_bytes(v, 32)))
            } else {
                None
            },
            None => None,
        },
        PrimV::I8(_) => match spec_parse_int(msg) {
            Some(v) => if i8::MIN <= v <= i8::MAX {
                Some(PrimV::I8(v as i8))
            } else {
                None
            },
            None => None,
        },
        PrimV::I16(_) => match spec_parse_int(msg) {
            Some(v) => if i16::MIN <= v <= i16::MAX {
                Some(PrimV::I16(v as i16))
            } else {
                None
            },
            None => None,
        },
        PrimV::I32(_) => match spec_parse_int(msg) {
            Some(v) => if i32::MIN <= v <= i32::MAX {
                Some(PrimV::I32(v as i32))
            } else {
                None
            },
            None => None,
        },
        PrimV::I64(_) => match spec_parse_int(msg) {
            Some(v) => if i64::MIN <= v <= i64::MAX {
                Some(PrimV::I64(v as i64))
            } else {
                None
            },
            None => None,
        },
        PrimV::I128(_) => match spec_parse_int(msg) {
            Some(v) => if i128::MIN <= v <= i128::MAX {
                Some(PrimV::I128(v as i128))
            } else {
                None
            },
            None => None,
        },
        PrimV::I256(_) => match spec_parse_int(msg) {
            Some(v) => if i256_accepts(msg, v) {
                Some(PrimV::I256(i256_bytes(v)))
            } else {
                None
            },
            None => None,
        },
    }
}

impl Primitive {
    /// A fresh leaf of kind `kind`, holding that kind's default value.
    pub fn resolve(kind: crate::schema::PrimitiveKind, name: Option<&str>) -> (r: Self)
        ensures
            r@ == (NodeV::Primitive {
                name: crate::field_content::opt_str_view(name),
                value: crate::field_content::default_prim(kind),
            }),
    {
        Primitive {
            name: crate::field_content::own_name(name),
            content: crate::field_content::default_content(kind),
        }
    }

    /// The node's display name, if it has one.
    pub fn name(&self) -> (r: Option<&str>)
        ensures
            crate::field_content::opt_str_view(r) == opt_name(self.name),
    {
        match &self.name {
            Some(s) => Some(s.as_str()),
            None => None,
        }
    }

    /// A primitive leaf has no addressable children.
    pub fn get_child(&mut self, _id: &usize) -> (r: Option<&mut FieldContent>)
        ensures
            r is None,
            final(self)@ == old(self)@,
    {
        None
    }

    /// Route a value event: tag 0 parses the payload in this leaf's
    /// declared kind and replaces the value; a payload that does not
    /// parse leaves the prior value intact.
    pub fn handle_event(&mut self, ccei: &CCEI, _schema: &Schema) -> (r: bool)
        ensures
            r == crate::field_content::local_success(old(self)@, *_schema, ccei.id, ccei.message@),
            (apply_local(old(self)@, *_schema, ccei.id, ccei.message@) matches Some(nv)
                ==> final(self)@ == nv),
            (apply_local(old(self)@, *_schema, ccei.id, ccei.message@) is None ==> final(self)@
                == old(self)@),
    {
        if ccei.id != 0 {
            return false;
        }
        let m = ccei.message.as_str();
        match &mut self.content {
            PrimitiveContent::Bool(_) => {
                if str_eq(m, "true") {
                    self.content = PrimitiveContent::Bool(true);
                    true
                } else if str_eq(m, "false") {
                    self.content = PrimitiveContent::Bool(false);
                    true
                } else {
                    false
                }
            },
            PrimitiveContent::Char(_) => {
                if m.unicode_len() == 1 {
                    self.content = PrimitiveContent::Char(m.get_char(0));
                    true
                } else {
                    false
                }
            },
            PrimitiveContent::Str(_) => {
                self.content = PrimitiveContent::Str(ccei.message.clone());
                true
            },
            PrimitiveContent::U8(_) => {
                match parse_uint(m) {
                    Some(v) => if v <= u8::MAX as u128 {
                        self.content = PrimitiveContent::U8(v as u8);
                        true
                    } else {
                        false
                    },
                    None => false,
                }
            },
            PrimitiveContent::U16(_) => {
                match parse_uint(m) {
                    Some(v) => if v <= u16::MAX as u128 {
                        self.content = PrimitiveContent::U16(v as u16);
                        true
                    } else {
                        false
                    },
                    None => false,
                }
            },
            PrimitiveContent::U32(_) => {
                match parse_uint(m) {
                    Some(v) => if v <= u32::MAX as u128 {
                        self.content = PrimitiveContent::U32(v as u32);
                        true
                    } else {
                        false
                    },
                    None => false,
                }
            },
            PrimitiveContent::U64(_) => {
                match parse_uint(m) {
                    Some(v) => if v <= u64::MAX as u128 {
                        self.content = PrimitiveContent::U64(v as u64);
                        true
                    } else {
                        false
                    },
                    None => false,
                }
            },
            PrimitiveContent::U128(_) => {
                match parse_uint(m) {
                    Some(v) => {
                        self.content = PrimitiveContent::U128(v);
                        true
                    },
                    None => false,
                }
            },
            PrimitiveContent::U256(_) => {
                let n = m.unicode_len();
                proof {
                    assert(m@.skip(0) =~= m@);
                }
                match crate::text::parse_magnitude_from(m, 0, n) {
                    Some(mag) => {
                        proof {
                            lemma_minimal_le(mag@);
                        }
                        if mag.len() <= 32 {
                            proof {
                                lemma_byte_len_bound(crate::scale::le_value(mag@));
                                lemma_pow256_mono(mag@.len() as nat, 32);
                            }
                            let padded = pad_to(mag, 32);
                            self.content = PrimitiveContent::U256(padded);
                            true
                        } else {
                            proof {
                                lemma_byte_len_lower(crate::scale::le_value(mag@));
                                lemma_pow256_mono(32, (mag@.len() - 1) as nat);
                            }
                            false
                        }
                    },
                    None => false,
                }
            },
            PrimitiveContent::I8(_) => {
                match parse_int(m) {
                    Some(v) => if i8::MIN as i128 <= v && v <= i8::MAX as i128 {
                        self.content = PrimitiveContent::I8(v as i8);
                        true
                    } else {
                        false
                    },
                    None => false,
                }
            },
            PrimitiveContent::I16(_) => {
                match parse_int(m) {
                    Some(v) => if i16::MIN as i128 <= v && v <= i16::MAX as i128 {
                        self.content = PrimitiveContent::I16(v as i16);
                        true
                    } else {
                        false
                    },
                    None => false,
                }
            },
            PrimitiveContent::I32(_) => {
                match parse_int(m) {
                    Some(v) => if i32::MIN as i128 <= v && v <= i32::MAX as i128 {
                        self.content = PrimitiveContent::I32(v as i32);
                        true
                    } else {
                        false
                    },
                    None => false,
                }
            },
            PrimitiveContent::I64(_) => {
                match parse_int(m) {
                    Some(v) => if i64::MIN as i128 <= v && v <= i64::MAX as i128 {
                        self.content = PrimitiveContent::I64(v as i64);
                        true
                    } else {
                        false
                    },
                    None => false,
                }
            },
            PrimitiveContent::I128(_) => {
                match parse_int(m) {
                    Some(v) => {
                        self.content = PrimitiveContent::I128(v);
                        true
                    },
                    None => false,
                }
            },
            PrimitiveContent::I256(_) => {
                let n = m.unicode_len();
                let neg = n >= 1 && m.get_char(0) == '-';
                let start: usize = if neg {
                    1
                } else {
                    0
                };
                proof {
                    if !neg {
                        assert(m@.skip(0) =~= m@);
                    }
                }
                match crate::text::parse_magnitude_from(m, start, n) {
                    Some(mag) => {
                        let ghost w = crate::scale::le_value(mag@);
                        proof {
                            lemma_minimal_le(mag@);
                        }
                        let fits = mag.len() < 32 || (mag.len() == 32 && mag[31] < 0x80);
                        if fits {
                            proof {
                                if mag@.len() < 32 {
                                    lemma_le_value_bound(mag@);
                                    lemma_pow256_mono(mag@.len() as nat, 31);
                                    assert(pow256(31) <= 128 * pow256(31)) by (nonlinear_arith)
                                        requires pow256(31) >= 0;
                                } else {
                                    lemma_le_value_top_byte(mag@);
                                    assert((mag@[31] as nat + 1) * pow256(31) <= 128 * pow256(31))
                                        by (nonlinear_arith)
                                        requires mag@[31] < 0x80, pow256(31) >= 0;
                                }
                                assert(w < 128 * pow256(31));
                            }
                            let is_zero = mag.len() == 0;
                            let padded = pad_to(mag, 32);
                            let bytes = if neg && !is_zero {
                                proof {
                                    assert(w > 0);
                                    assert(pow256(32) == 256 * pow256(31));
                                }
                                let tc = twos_complement32(&padded);
                                proof {
                                    lemma_le_bytes_exact(tc@);
                                }
                                tc
                            } else {
                                padded
                            };
                            self.content = PrimitiveContent::I256(bytes);
                            true
                        } else {
                            proof {
                                if mag@.len() == 32 {
                                    lemma_le_value_top_byte(mag@);
                                    assert(w >= 128 * pow256(31)) by (nonlinear_arith)
                                        requires
                                            w >= mag@[31] as nat * pow256(31),
                                            mag@[31] >= 0x80,
                                            pow256(31) >= 0,
                                    ;
                                } else {
                                    lemma_byte_len_lower(crate::scale::le_value(mag@));
                                    lemma_pow256_mono(32, (mag@.len() - 1) as nat);
                                    assert(pow256(32) == 256 * pow256(31));
                                    assert(256 * pow256(31) >= 128 * pow256(31))
                                        by (nonlinear_arith)
                                        requires pow256(31) >= 0;
                                }
                                assert(w >= 128 * pow256(31));
                            }
                            false
                        }
                    },
                    None => false,
                }
            },
        }
    }
}

} // verus!
