//! Composite nodes: ordered, non-discriminated aggregates that encode as
//! the concatenation of their children. Tuples share this shape.

use vstd::prelude::*;
use vstd::string::*;

use crate::field_content::{child_in, opt_name, opt_str_view, own_name, resolve_fields_vec,
    spec_resolve_fields, views_of, FieldContent, NodeV};
use crate::schema::{FieldDef, Schema};

verus! {

/// An ordered aggregate of child nodes.
#[derive(Debug)]
pub struct Composite {
    pub name: Option<String>,
    pub fields: Vec<FieldContent>,
}

impl View for Composite {
    type V = NodeV;

    open spec fn view(&self) -> NodeV {
        NodeV::Composite { name: opt_name(self.name), fields: views_of(self.fields@) }
    }
}

impl Composite {
    /// Build an aggregate node from its declared fields, each child
    /// resolved under its declared name with `depth` nesting levels left.
    pub fn resolve(fds: &Vec<FieldDef>, name: Option<&str>, schema: &Schema, depth: u32) -> (r:
        Self)
        ensures
            r@ == (NodeV::Composite {
                name: opt_str_view(name),
                fields: spec_resolve_fields(*schema, fds@, depth as nat),
            }),
        decreases depth, 2nat,
    {
        Composite { name: own_name(name), fields: resolve_fields_vec(schema, fds, depth) }
    }

    /// The node's display name, if it has one.
    pub fn name(&self) -> (r: Option<&str>)
        ensures
            opt_str_view(r) == opt_name(self.name),
    {
        match &self.name {
            Some(s) => Some(s.as_str()),
            None => None,
        }
    }

    /// The addressable child at position `id`.
    pub fn get_child(&mut self, id: &usize) -> (r: Option<&mut FieldContent>)
        ensures
            (r matches Some(c) ==> *id < old(self).fields@.len() && (*c)@ == old(
                self,
            ).fields@[*id as int]@ && final(self).name == old(self).name && views_of(
                final(self).fields@,
            ) == views_of(old(self).fields@).update(*id as int, final(c)@)),
            (r is None ==> final(self)@ == old(self)@ && *id >= old(self).fields@.len()),
    {
        child_in(&mut self.fields, *id)
    }

    /// An aggregate has no bytes of its own: it encodes as the bare
    /// concatenation of its children.
    pub fn encoded_self(&self) -> (r: Vec<u8>)
        ensures
            r@ == Seq::<u8>::empty(),
    {
        Vec::new()
    }
}

} // verus!
