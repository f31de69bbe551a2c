//! The two-stage pallet/call selector at the root of the call tree.
//!
//! Selecting a pallet clears the call and the children; selecting a call
//! resolves the chosen call's declared arguments into fresh children,
//! discarding whatever was there before.

use vstd::prelude::*;

use crate::field_content::{apply_local, child_in, local_success, resolve_fields_vec,
    spec_resolve_fields, views_of, FieldContent, NodeV, MAX_DEPTH};
use crate::messaging::CCEI;
use crate::schema::{PalletDef, Schema, TypeDescriptor, VariantDef};

verus! {

/// The pallet a selector has settled on: its wire index and the type id of
/// its call enum, if it declares one.
#[derive(Clone, Copy, Debug)]
pub struct PalletSel {
    pub index: u8,
    pub calls: Option<u32>,
}

/// A module/operation selector: first a pallet, then a call within it.
/// Its children are the selected call's argument nodes.
#[derive(Debug)]
pub struct PalletCall {
    pub pallet: Option<PalletSel>,
    pub call: Option<u8>,
    pub fields: Vec<FieldContent>,
}

/// The first pallet declared under wire index `n`, if any.
pub open spec fn spec_find_pallet(ps: Seq<PalletDef>, n: u8) -> Option<PalletSel>
    decreases ps.len(),
{
    if ps.len() == 0 {
        None
    } else if ps[0].index == n {
        Some(PalletSel { index: ps[0].index, calls: ps[0].calls })
    } else {
        spec_find_pallet(ps.skip(1), n)
    }
}

/// The first variant declared under discriminant `n`, if any.
pub open spec fn spec_find_variant(vs: Seq<VariantDef>, n: u8) -> Option<VariantDef>
    decreases vs.len(),
{
    if vs.len() == 0 {
        None
    } else if vs[0].index == n {
        Some(vs[0])
    } else {
        spec_find_variant(vs.skip(1), n)
    }
}

/// The call options of the selected pallet: the variants of its call enum.
pub open spec fn spec_calls_of(s: Schema, pallet: Option<PalletSel>) -> Option<Seq<VariantDef>> {
    match pallet {
        Some(p) => match p.calls {
            Some(cid) => match s.entry_of(cid) {
                Some(e) => match e.def {
                    TypeDescriptor::Variant(vs) => Some(vs@),
                    _ => None,
                },
                None => None,
            },
            None => None,
        },
        None => None,
    }
}

/// The selector state after `set_pallet(n)`: the matching pallet (or
/// nothing), no call, no children.
pub open spec fn spec_pallet_selected(s: Schema, n: u8) -> NodeV {
    NodeV::PalletCall { pallet: spec_find_pallet(s.pallets@, n), call: None, fields: Seq::empty() }
}

/// The selector state after `set_call(n)`: on a match, the call and its
/// freshly resolved argument nodes; otherwise no call and no children.
/// Prior children never survive either way.
pub open spec fn spec_call_selected(s: Schema, pallet: Option<PalletSel>, n: u8) -> NodeV {
    match spec_calls_of(s, pallet) {
        Some(vars) => match spec_find_variant(vars, n) {
            Some(var) => NodeV::PalletCall {
                pallet,
                call: Some(n),
                fields: spec_resolve_fields(s, var.fields@, MAX_DEPTH as nat),
            },
            None => NodeV::PalletCall { pallet, call: None, fields: Seq::empty() },
        },
        None => NodeV::PalletCall { pallet, call: None, fields: Seq::empty() },
    }
}

impl View for PalletCall {
    type V = NodeV;

    open spec fn view(&self) -> NodeV {
        NodeV::PalletCall { pallet: self.pallet, call: self.call, fields: views_of(self.fields@) }
    }
}

impl PalletCall {
    /// A selector with nothing chosen yet.
    pub fn new() -> (r: Self)
        ensures
            r@ == (NodeV::PalletCall {
                pallet: None,
                call: None,
                fields: Seq::<NodeV>::empty(),
            }),
    {
        let r = PalletCall { pallet: None, call: None, fields: Vec::new() };
        proof {
            crate::field_content::lemma_views_of(r.fields@);
            assert(views_of(r.fields@) =~= Seq::<NodeV>::empty());
        }
        r
    }

    /// The declared pallets, as wire index and display name.
    pub fn get_pallets(&self, schema: &Schema) -> (r: Vec<(u8, String)>)
        ensures
            r@.len() == schema.pallets@.len(),
            forall|i: int|
                0 <= i < r@.len() ==> (#[trigger] r@[i]).0 == schema.pallets@[i].index && r@[i].1@
                    == schema.pallets@[i].name@,
    {
        let mut out: Vec<(u8, String)> = Vec::new();
        let mut i: usize = 0;
        while i < schema.pallets.len()
            invariant
                i <= schema.pallets@.len(),
                out@.len() == i,
                forall|j: int|
                    0 <= j < i ==> (#[trigger] out@[j]).0 == schema.pallets@[j].index && out@[j].1@
                        == schema.pallets@[j].name@,
            decreases schema.pallets@.len() - i,
        {
            let p = &schema.pallets[i];
            out.push((p.index, p.name.clone()));
            i += 1;
        }
        out
    }

    /// Choose the pallet with wire index `n`. The call selection and the
    /// children are cleared whether or not a pallet matches.
    pub fn set_pallet(&mut self, n: u8, schema: &Schema)
        ensures
            final(self)@ == spec_pallet_selected(*schema, n),
    {
        self.pallet = None;
        self.call = None;
        self.fields = Vec::new();
        let ghost ps = schema.pallets@;
        proof {
            assert(ps.skip(0) =~= ps);
        }
        let mut i: usize = 0;
        while i < schema.pallets.len()
            invariant
                i <= ps.len(),
                ps == schema.pallets@,
                self.call is None,
                self.fields@.len() == 0,
                self.pallet is None,
                spec_find_pallet(ps, n) == spec_find_pallet(ps.skip(i as int), n),
            decreases ps.len() - i,
        {
            proof {
                assert(ps.skip(i as int)[0] == ps[i as int]);
                assert(ps.skip(i as int).skip(1) =~= ps.skip(i as int + 1));
            }
            if schema.pallets[i].index == n {
                proof {
                    assert(spec_find_pallet(ps, n) == Some(
                        PalletSel { index: ps[i as int].index, calls: ps[i as int].calls },
                    ));
                }
                self.pallet = Some(
                    PalletSel { index: schema.pallets[i].index, calls: schema.pallets[i].calls },
                );
                proof {
                    crate::field_content::lemma_views_of(self.fields@);
                    assert(views_of(self.fields@) =~= Seq::<NodeV>::empty());
                }
                return ;
            }
            i += 1;
        }
        proof {
            assert(ps.skip(ps.len() as int) =~= Seq::<PalletDef>::empty());
            crate::field_content::lemma_views_of(self.fields@);
            assert(views_of(self.fields@) =~= Seq::<NodeV>::empty());
        }
    }

    /// The call options of the selected pallet, straight from the schema.
    pub fn try_get_calls<'a>(&self, schema: &'a Schema) -> (r: Option<&'a Vec<VariantDef>>)
        ensures
            (r matches Some(vs) ==> spec_calls_of(*schema, self.pallet) == Some(vs@)),
            (r is None ==> spec_calls_of(*schema, self.pallet) is None),
    {
        if let Some(p) = &self.pallet {
            if let Some(cid) = p.calls {
                if let Some(e) = schema.resolve(cid) {
                    if let TypeDescriptor::Variant(vs) = &e.def {
                        return Some(vs);
                    }
                }
            }
        }
        None
    }

    /// The call options of the selected pallet, as discriminant and name;
    /// empty when no pallet with calls is selected.
    pub fn get_calls(&self, schema: &Schema) -> (r: Vec<(u8, String)>)
        ensures
            (spec_calls_of(*schema, self.pallet) matches Some(vs) ==> r@.len() == vs.len()
                && (forall|i: int|
                0 <= i < r@.len() ==> (#[trigger] r@[i]).0 == vs[i].index && r@[i].1@
                    == vs[i].name@)),
            (spec_calls_of(*schema, self.pallet) is None ==> r@.len() == 0),
    {
        let mut out: Vec<(u8, String)> = Vec::new();
        match self.try_get_calls(schema) {
            Some(vs) => {
                let mut i: usize = 0;
                while i < vs.len()
                    invariant
                        i <= vs@.len(),
                        out@.len() == i,
                        forall|j: int|
                            0 <= j < i ==> (#[trigger] out@[j]).0 == vs@[j].index && out@[j].1@
                                == vs@[j].name@,
                    decreases vs@.len() - i,
                {
                    out.push((vs[i].index, vs[i].name.clone()));
                    i += 1;
                }
                out
            },
            None => out,
        }
    }

    /// Choose the call with discriminant `n` within the selected pallet.
    /// On a match the children become the call's freshly resolved
    /// arguments; otherwise the call and children are cleared. Prior
    /// children are discarded in every case.
    pub fn set_call(&mut self, n: u8, schema: &Schema)
        ensures
            final(self)@ == spec_call_selected(*schema, old(self).pallet, n),
    {
        self.call = None;
        self.fields = Vec::new();
        let calls = match self.try_get_calls(schema) {
            Some(vs) => vs,
            None => {
                proof {
                    crate::field_content::lemma_views_of(self.fields@);
                    assert(views_of(self.fields@) =~= Seq::<NodeV>::empty());
                }
                return ;
            },
        };
        let ghost vars = calls@;
        proof {
            assert(vars.skip(0) =~= vars);
        }
        let mut i: usize = 0;
        while i < calls.len()
            invariant
                i <= vars.len(),
                vars == calls@,
                self.pallet == old(self).pallet,
                spec_calls_of(*schema, old(self).pallet) == Some(vars),
                self.call is None,
                self.fields@.len() == 0,
                spec_find_variant(vars, n) == spec_find_variant(vars.skip(i as int), n),
            decreases vars.len() - i,
        {
            proof {
                assert(vars.skip(i as int)[0] == vars[i as int]);
                assert(vars.skip(i as int).skip(1) =~= vars.skip(i as int + 1));
            }
            if calls[i].index == n {
                proof {
                    assert(spec_find_variant(vars, n) == Some(vars[i as int]));
                }
                self.call = Some(n);
                self.fields = resolve_fields_vec(schema, &calls[i].fields, MAX_DEPTH);
                return ;
            }
            i += 1;
        }
        proof {
            assert(vars.skip(vars.len() as int) =~= Seq::<VariantDef>::empty());
            crate::field_content::lemma_views_of(self.fields@);
            assert(views_of(self.fields@) =~= Seq::<NodeV>::empty());
        }
    }
}

impl PalletCall {
    /// The addressable child at position `id`.
    pub fn get_child(&mut self, id: &usize) -> (r: Option<&mut FieldContent>)
        ensures
            (r matches Some(c) ==> *id < old(self).fields@.len() && (*c)@ == old(
                self,
            ).fields@[*id as int]@ && final(self).pallet == old(self).pallet && final(self).call
                == old(self).call && views_of(final(self).fields@) == views_of(
                old(self).fields@,
            ).update(*id as int, final(c)@)),
            (r is None ==> final(self)@ == old(self)@ && *id >= old(self).fields@.len()),
    {
        child_in(&mut self.fields, *id)
    }

    /// The selector's own bytes: the pallet index then the call
    /// discriminant once both are chosen, nothing before that.
    pub fn encoded_self(&self) -> (r: Vec<u8>)
        ensures
            r@ == (match (self.pallet, self.call) {
                (Some(p), Some(c)) => seq![p.index, c],
                _ => Seq::<u8>::empty(),
            }),
    {
        let mut out: Vec<u8> = Vec::new();
        match (&self.pallet, &self.call) {
            (Some(p), Some(c)) => {
                out.push(p.index);
                out.push(*c);
                proof {
                    assert(out@ =~= seq![p.index, *c]);
                }
            },
            _ => {
                proof {
                    assert(out@ =~= Seq::<u8>::empty());
                }
            },
        }
        out
    }

    /// Route a selector event: tag 0 chooses a pallet, tag 1 a call
    /// within the chosen pallet. An index that names no declared pallet
    /// or call still clears the selection, but the event reports failure.
    pub fn handle_event(&mut self, ccei: &CCEI, schema: &Schema) -> (r: bool)
        ensures
            r == local_success(old(self)@, *schema, ccei.id, ccei.message@),
            (apply_local(old(self)@, *schema, ccei.id, ccei.message@) matches Some(nv)
                ==> final(self)@ == nv),
            (apply_local(old(self)@, *schema, ccei.id, ccei.message@) is None ==> final(self)@
                == old(self)@),
    {
        if ccei.id == 0 {
            match crate::text::parse_uint(ccei.message.as_str()) {
                Some(v) => if v <= 255 {
                    self.set_pallet(v as u8, schema);
                    self.pallet.is_some()
                } else {
                    false
                },
                None => false,
            }
        } else if ccei.id == 1 {
            match crate::text::parse_uint(ccei.message.as_str()) {
                Some(v) => if v <= 255 {
                    self.set_call(v as u8, schema);
                    self.call.is_some()
                } else {
                    false
                },
                None => false,
            }
        } else {
            false
        }
    }
}

} // verus!
