//! Variant nodes: a one-byte discriminant choice over schema-declared
//! options, with children rebuilt from the chosen option's fields.

use vstd::prelude::*;

use crate::field_content::pallet_call::spec_find_variant;
use crate::field_content::{apply_local, child_in, local_success, resolve_fields_vec,
    spec_resolve_fields, views_of, FieldContent, NodeV, MAX_DEPTH};
use crate::messaging::CCEI;
use crate::schema::{Schema, TypeDescriptor, VariantDef};

verus! {

/// A variant value under construction. `ty` is the registry id of the
/// variant type, so the declared options can always be consulted again;
/// `selected` is the chosen discriminant, if any.
#[derive(Debug)]
pub struct VariantContent {
    pub name: Option<String>,
    pub ty: u32,
    pub selected: Option<u8>,
    pub fields: Vec<FieldContent>,
}

/// The options that registry type `ty` declares, if it is a variant type.
pub open spec fn spec_variant_options(s: Schema, ty: u32) -> Option<Seq<VariantDef>> {
    match s.entry_of(ty) {
        Some(e) => match e.def {
            TypeDescriptor::Variant(vs) => Some(vs@),
            _ => None,
        },
        None => None,
    }
}

/// The node after `set_variant(n)`: on a match, the discriminant and the
/// option's freshly resolved fields; otherwise selection and children
/// cleared. The result never depends on the children held before.
pub open spec fn spec_variant_selected(
    s: Schema,
    name: Option<Seq<char>>,
    ty: u32,
    n: u8,
) -> NodeV {
    match spec_variant_options(s, ty) {
        Some(vars) => match spec_find_variant(vars, n) {
            Some(var) => NodeV::Variant {
                name,
                ty,
                selected: Some(n),
                fields: spec_resolve_fields(s, var.fields@, MAX_DEPTH as nat),
            },
            None => NodeV::Variant { name, ty, selected: None, fields: Seq::empty() },
        },
        None => NodeV::Variant { name, ty, selected: None, fields: Seq::empty() },
    }
}

impl View for VariantContent {
    type V = NodeV;

    open spec fn view(&self) -> NodeV {
        NodeV::Variant {
            name: crate::field_content::opt_name(self.name),
            ty: self.ty,
            selected: self.selected,
            fields: views_of(self.fields@),
        }
    }
}

impl VariantContent {
    /// A fresh variant node over registry type `ty`: nothing selected, no
    /// children yet.
    pub fn resolve(ty: u32, name: Option<&str>) -> (r: Self)
        ensures
            r@ == (NodeV::Variant {
                name: crate::field_content::opt_str_view(name),
                ty,
                selected: None,
                fields: Seq::<NodeV>::empty(),
            }),
    {
        let r = VariantContent {
            name: crate::field_content::own_name(name),
            ty,
            selected: None,
            fields: Vec::new(),
        };
        proof {
            crate::field_content::lemma_views_of(r.fields@);
            assert(views_of(r.fields@) =~= Seq::<NodeV>::empty());
        }
        r
    }

    /// The node's display name, or the empty string.
    pub fn name(&self) -> (r: String)
        ensures
            (self.name matches Some(s) ==> r@ == s@),
            (self.name is None ==> r@ == Seq::<char>::empty()),
    {
        match &self.name {
            Some(s) => s.clone(),
            None => String::new(),
        }
    }

    /// The declared options, as discriminant and name; empty when the
    /// registry does not know this type as a variant.
    pub fn get_options(&self, schema: &Schema) -> (r: Vec<(u8, String)>)
        ensures
            (spec_variant_options(*schema, self.ty) matches Some(vs) ==> r@.len() == vs.len() && (
            forall|i: int|
                0 <= i < r@.len() ==> (#[trigger] r@[i]).0 == vs[i].index && r@[i].1@
                    == vs[i].name@)),
            (spec_variant_options(*schema, self.ty) is None ==> r@.len() == 0),
    {
        let mut out: Vec<(u8, String)> = Vec::new();
        if let Some(e) = schema.resolve(self.ty) {
            if let TypeDescriptor::Variant(vs) = &e.def {
                let mut i: usize = 0;
                while i < vs.len()
                    invariant
                        i <= vs@.len(),
                        out@.len() == i,
                        forall|j: int|
                            0 <= j < i ==> (#[trigger] out@[j]).0 == vs@[j].index && out@[j].1@
                                == vs@[j].name@,
                    decreases vs@.len() - i,
                {
                    out.push((vs[i].index, vs[i].name.clone()));
                    i += 1;
                }
            }
        }
        out
    }

    /// Choose the option with discriminant `n`. On a match the children
    /// are rebuilt from that option's declared fields; an unmatched
    /// discriminant clears the selection. Prior children are discarded
    /// either way.
    pub fn set_variant(&mut self, n: u8, schema: &Schema)
        ensures
            final(self)@ == spec_variant_selected(
                *schema,
                crate::field_content::opt_name(old(self).name),
                old(self).ty,
                n,
            ),
    {
        self.selected = None;
        self.fields = Vec::new();
        let options = match schema.resolve(self.ty) {
            Some(e) => match &e.def {
                TypeDescriptor::Variant(vs) => vs,
                _ => {
                    proof {
                        crate::field_content::lemma_views_of(self.fields@);
                        assert(views_of(self.fields@) =~= Seq::<NodeV>::empty());
                    }
                    return ;
                },
            },
            None => {
                proof {
                    crate::field_content::lemma_views_of(self.fields@);
                    assert(views_of(self.fields@) =~= Seq::<NodeV>::empty());
                }
                return ;
            },
        };
        let ghost vars = options@;
        proof {
            assert(vars.skip(0) =~= vars);
        }
        let mut i: usize = 0;
        while i < options.len()
            invariant
                i <= vars.len(),
                vars == options@,
                self.name == old(self).name,
                self.ty == old(self).ty,
                self.selected is None,
                self.fields@.len() == 0,
                spec_variant_options(*schema, self.ty) == Some(vars),
                spec_find_variant(vars, n) == spec_find_variant(vars.skip(i as int), n),
            decreases vars.len() - i,
        {
            proof {
                assert(vars.skip(i as int)[0] == vars[i as int]);
                assert(vars.skip(i as int).skip(1) =~= vars.skip(i as int + 1));
            }
            if options[i].index == n {
                proof {
                    assert(spec_find_variant(vars, n) == Some(vars[i as int]));
                }
                self.selected = Some(n);
                self.fields = resolve_fields_vec(schema, &options[i].fields, MAX_DEPTH);
                return ;
            }
            i += 1;
        }
        proof {
            assert(vars.skip(vars.len() as int) =~= Seq::<VariantDef>::empty());
            crate::field_content::lemma_views_of(self.fields@);
            assert(views_of(self.fields@) =~= Seq::<NodeV>::empty());
        }
    }
}

/// After a successful selection the children match the chosen option's
/// declared field count, one child per declared field.
pub proof fn lemma_variant_rebuild(s: Schema, name: Option<Seq<char>>, ty: u32, n: u8)
    ensures
        (spec_variant_options(s, ty) matches Some(vars) ==> (spec_find_variant(vars, n) matches Some(
            var,
        ) ==> spec_variant_selected(s, name, ty, n)->Variant_selected == Some(n)
            && spec_variant_selected(s, name, ty, n)->Variant_fields.len() == var.fields@.len())),
{
    if spec_variant_options(s, ty) is Some {
        let vars = spec_variant_options(s, ty)->0;
        if spec_find_variant(vars, n) is Some {
            let var = spec_find_variant(vars, n)->0;
            assert(spec_variant_selected(s, name, ty, n) == (NodeV::Variant {
                name,
                ty,
                selected: Some(n),
                fields: spec_resolve_fields(s, var.fields@, MAX_DEPTH as nat),
            }));
            assert(spec_resolve_fields(s, var.fields@, MAX_DEPTH as nat).len()
                == var.fields@.len());
        }
    }
}

impl VariantContent {
    /// The addressable child at position `id`.
    pub fn get_child(&mut self, id: &usize) -> (r: Option<&mut FieldContent>)
        ensures
            (r matches Some(c) ==> *id < old(self).fields@.len() && (*c)@ == old(
                self,
            ).fields@[*id as int]@ && final(self).name == old(self).name && final(self).ty == old(
                self,
            ).ty && final(self).selected == old(self).selected && views_of(final(self).fields@)
                == views_of(old(self).fields@).update(*id as int, final(c)@)),
            (r is None ==> final(self)@ == old(self)@ && *id >= old(self).fields@.len()),
    {
        child_in(&mut self.fields, *id)
    }

    /// The node's own bytes: the selected discriminant, or nothing while
    /// the choice is still open.
    pub fn encoded_self(&self) -> (r: Vec<u8>)
        ensures
            r@ == (match self.selected {
                Some(d) => seq![d],
                None => Seq::<u8>::empty(),
            }),
    {
        let mut out: Vec<u8> = Vec::new();
        match &self.selected {
            Some(d) => {
                out.push(*d);
                proof {
                    assert(out@ =~= seq![*d]);
                }
            },
            None => {
                proof {
                    assert(out@ =~= Seq::<u8>::empty());
                }
            },
        }
        out
    }

    /// Route a selector event: tag 0 chooses an option by discriminant.
    /// A discriminant that names no declared option still clears the
    /// selection, but the event reports failure.
    pub fn handle_event(&mut self, ccei: &CCEI, schema: &Schema) -> (r: bool)
        ensures
            r == local_success(old(self)@, *schema, ccei.id, ccei.message@),
            (apply_local(old(self)@, *schema, ccei.id, ccei.message@) matches Some(nv)
                ==> final(self)@ == nv),
            (apply_local(old(self)@, *schema, ccei.id, ccei.message@) is None ==> final(self)@
                == old(self)@),
    {
        if ccei.id == 0 {
            match crate::text::parse_uint(ccei.message.as_str()) {
                Some(v) => if v <= 255 {
                    self.set_variant(v as u8, schema);
                    self.selected.is_some()
                } else {
                    false
                },
                None => false,
            }
        } else {
            false
        }
    }
}

} // verus!
