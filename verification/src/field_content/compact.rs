//! Compact nodes: a canonical unsigned magnitude, encoded in the
//! variable-width compact scheme.

use vstd::prelude::*;

use crate::field_content::{apply_local, opt_name, own_name, NodeV};
use crate::messaging::CCEI;
use crate::scale::{byte_len, le_bytes};
use crate::schema::Schema;

verus! {

/// A compact-encoded magnitude. `value` holds the magnitude as a minimal
/// little-endian byte string; `max` caps its length in bytes, per the
/// declared inner kind.
#[derive(Debug)]
pub struct Compact {
    pub name: Option<String>,
    pub value: Vec<u8>,
    pub max: usize,
}

impl View for Compact {
    type V = NodeV;

    open spec fn view(&self) -> NodeV {
        NodeV::Compact { name: opt_name(self.name), value: self.value@, max: self.max as nat }
    }
}

impl Compact {
    /// Build a compact node with magnitude zero under the given byte
    /// cap; the cap comes from the declared inner type's own width.
    pub fn resolve(name: Option<&str>, max: usize) -> (r: Compact)
        ensures
            r@ == (NodeV::Compact {
                name: crate::field_content::opt_str_view(name),
                value: Seq::<u8>::empty(),
                max: max as nat,
            }),
    {
        Compact { name: own_name(name), value: Vec::new(), max }
    }

    /// Replace the magnitude from text: decimal within 128 bits, or
    /// hexadecimal of any size behind a `0x` prefix. A magnitude whose
    /// minimal encoding would exceed the node's byte cap is refused,
    /// keeping the encoding canonical.
    pub fn set_value(&mut self, message: &str) -> (r: bool)
        ensures
            (match crate::text::spec_parse_uint(message@) {
                Some(v) => if (crate::text::has_hex_prefix(message@) || v <= u128::MAX)
                    && byte_len(v) <= old(self).max {
                    r && final(self)@ == (NodeV::Compact {
                        name: opt_name(old(self).name),
                        value: le_bytes(v, byte_len(v)),
                        max: old(self).max as nat,
                    })
                } else {
                    !r && final(self)@ == old(self)@
                },
                None => !r && final(self)@ == old(self)@,
            }),
    {
        let n = message.unicode_len();
        proof {
            assert(message@.skip(0) =~= message@);
        }
        match crate::text::parse_magnitude_from(message, 0, n) {
            Some(mag) => {
                proof {
                    crate::scale::lemma_minimal_le(mag@);
                }
                if mag.len() <= self.max {
                    self.value = mag;
                    true
                } else {
                    false
                }
            },
            None => false,
        }
    }

    /// Route a compact event: tag 0 replaces the magnitude.
    pub fn handle_event(&mut self, ccei: &CCEI, _schema: &Schema) -> (r: bool)
        ensures
            r == crate::field_content::local_success(old(self)@, *_schema, ccei.id, ccei.message@),
            (apply_local(old(self)@, *_schema, ccei.id, ccei.message@) matches Some(nv)
                ==> final(self)@ == nv),
            (apply_local(old(self)@, *_schema, ccei.id, ccei.message@) is None ==> final(self)@
                == old(self)@),
    {
        if ccei.id == 0 {
            self.set_value(ccei.message.as_str())
        } else {
            false
        }
    }
}

} // verus!
