//! The outermost envelope node: version byte, optional signature block,
//! and the call body as its single child.

use vstd::prelude::*;
use vstd::string::*;

use crate::field_content::{child_in, msg_call_not_found, spec_resolve, views_of, FieldContent,
    NodeV, MAX_DEPTH};
use crate::schema::{Schema, TypeParam};
use crate::text::str_eq;

verus! {

/// The signature block of a signed extrinsic. The unsigned path never
/// populates it; it is carried for the envelope's declared shape.
#[derive(Debug)]
pub struct Signature {
    pub address: Box<FieldContent>,
    pub signature: Box<FieldContent>,
    pub extra: Box<FieldContent>,
}

/// The unchecked-extrinsic envelope. Its first child is the call tree.
#[derive(Debug)]
pub struct MagicUncheckedExtrinsic {
    pub signature: Option<Signature>,
    pub fields: Vec<FieldContent>,
}

impl View for MagicUncheckedExtrinsic {
    type V = NodeV;

    open spec fn view(&self) -> NodeV {
        NodeV::Extrinsic {
            signed: self.signature is Some,
            sig_fields: match self.signature {
                Some(sg) => seq![
                    (*sg.address).view(),
                    (*sg.signature).view(),
                    (*sg.extra).view(),
                ],
                None => Seq::empty(),
            },
            fields: views_of(self.fields@),
        }
    }
}

/// The type the extrinsic's `Call` parameter names, if it declares one.
pub open spec fn spec_find_call_param(params: Seq<TypeParam>) -> Option<u32>
    decreases params.len(),
{
    if params.len() == 0 {
        None
    } else if params[0].name@ == "Call"@ {
        match params[0].ty {
            Some(t) => Some(t),
            None => spec_find_call_param(params.skip(1)),
        }
    } else {
        spec_find_call_param(params.skip(1))
    }
}

/// The envelope a fresh construction starts from: unsigned, with the call
/// tree resolved from the extrinsic type's `Call` parameter, or an error
/// node when the schema declares none.
pub open spec fn spec_extrinsic_new(s: Schema) -> NodeV {
    NodeV::Extrinsic {
        signed: false,
        sig_fields: Seq::empty(),
        fields: seq![
            match s.entry_of(s.extrinsic.ty) {
                Some(e) => match spec_find_call_param(e.params@) {
                    Some(cid) => spec_resolve(s, cid, Some("Call"@), MAX_DEPTH as nat),
                    None => NodeV::Error(msg_call_not_found()),
                },
                None => NodeV::Error(msg_call_not_found()),
            },
        ],
    }
}

impl MagicUncheckedExtrinsic {
    /// Build the envelope for a fresh construction: find the extrinsic
    /// type's `Call` parameter in the registry and resolve the call tree
    /// from it.
    pub fn new(schema: &Schema) -> (r: Self)
        ensures
            r@ == spec_extrinsic_new(*schema),
    {
        let mut call = FieldContent::Error(
            String::from_str("call extrinsic parameter not found"),
        );
        match schema.resolve(schema.extrinsic.ty) {
            Some(e) => {
                let ghost params = e.params@;
                proof {
                    assert(params.skip(0) =~= params);
                }
                let mut i: usize = 0;
                let mut found = false;
                while i < e.params.len() && !found
                    invariant
                        i <= params.len(),
                        params == e.params@,
                        !found ==> spec_find_call_param(params) == spec_find_call_param(
                            params.skip(i as int),
                        ),
                        !found ==> call@ == NodeV::Error(msg_call_not_found()),
                        found ==> (spec_find_call_param(params) matches Some(cid) && call@
                            == spec_resolve(*schema, cid, Some("Call"@), MAX_DEPTH as nat)),
                    decreases params.len() - i + (if found { 0int } else { 1int }),
                {
                    proof {
                        assert(params.skip(i as int)[0] == params[i as int]);
                        assert(params.skip(i as int).skip(1) =~= params.skip(i as int + 1));
                    }
                    if str_eq(e.params[i].name.as_str(), "Call") {
                        match e.params[i].ty {
                            Some(cid) => {
                                call = crate::field_content::resolve_node(
                                    schema,
                                    cid,
                                    Some("Call"),
                                    MAX_DEPTH,
                                );
                                found = true;
                            },
                            None => {
                                i += 1;
                            },
                        }
                    } else {
                        i += 1;
                    }
                }
                proof {
                    if !found {
                        assert(params.skip(params.len() as int) =~= Seq::<TypeParam>::empty());
                    }
                }
            },
            None => {},
        }
        let mut fields: Vec<FieldContent> = Vec::new();
        let ghost callv = call@;
        fields.push(call);
        let r = MagicUncheckedExtrinsic { signature: None, fields };
        proof {
            crate::field_content::lemma_views_of(r.fields@);
            assert(views_of(r.fields@) =~= seq![callv]);
        }
        r
    }

    /// The envelope's display name.
    pub fn name(&self) -> (r: Option<&str>)
        ensures
            (r matches Some(s) ==> s@ == "Extrinsic"@),
            r is Some,
    {
        Some("Extrinsic")
    }

    /// The addressable child at position `id`; position zero is the call
    /// tree.
    pub fn get_child(&mut self, id: &usize) -> (r: Option<&mut FieldContent>)
        ensures
            (r matches Some(c) ==> *id < old(self).fields@.len() && (*c)@ == old(
                self,
            ).fields@[*id as int]@ && final(self).signature == old(self).signature && views_of(
                final(self).fields@,
            ) == views_of(old(self).fields@).update(*id as int, final(c)@)),
            (r is None ==> final(self)@ == old(self)@ && *id >= old(self).fields@.len()),
    {
        child_in(&mut self.fields, *id)
    }

    /// The envelope's own byte: the extrinsic version, with the high bit
    /// set exactly when a signature is present.
    pub fn encoded_self(&self, version: u8) -> (r: Vec<u8>)
        ensures
            r@ == seq![
                if self.signature is Some {
                    version | 0x80
                } else {
                    version
                },
            ],
    {
        let mut out: Vec<u8> = Vec::new();
        match &self.signature {
            Some(_) => out.push(version | 0x80),
            None => out.push(version),
        }
        proof {
            assert(out@ =~= seq![
                if self.signature is Some {
                    version | 0x80
                } else {
                    version
                },
            ]);
        }
        out
    }
}

} // verus!
