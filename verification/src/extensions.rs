//! Signed-extension entries: one per extension the schema declares, each
//! with a `content` tree that joins the transmitted bytes and an
//! `additional` tree used only for the signature payload.

use vstd::prelude::*;
use vstd::string::*;

use crate::field_content::{encoded_node, resolve_node, spec_resolve, FieldContent, NodeV,
    MAX_DEPTH};
use crate::schema::{ExtensionDef, Schema};

verus! {

/// One signed-extension entry under construction.
pub struct ExtensionContent {
    pub identifier: String,
    pub content: FieldContent,
    pub additional: FieldContent,
}

/// The mathematical value of a signed-extension entry.
pub struct ExtensionV {
    pub identifier: Seq<char>,
    pub content: NodeV,
    pub additional: NodeV,
}

impl View for ExtensionContent {
    type V = ExtensionV;

    open spec fn view(&self) -> ExtensionV {
        ExtensionV {
            identifier: self.identifier@,
            content: self.content@,
            additional: self.additional@,
        }
    }
}

/// The views of a list of extension entries, in order.
pub open spec fn ext_views(s: Seq<ExtensionContent>) -> Seq<ExtensionV>
    decreases s,
{
    if s.len() == 0 {
        Seq::empty()
    } else {
        seq![s[0]@] + ext_views(s.skip(1))
    }
}

/// `ext_views` maps the list pointwise.
pub proof fn lemma_ext_views(s: Seq<ExtensionContent>)
    ensures
        ext_views(s).len() == s.len(),
        forall|i: int| 0 <= i < s.len() ==> ext_views(s)[i] == s[i]@,
    decreases s.len(),
{
    if s.len() > 0 {
        lemma_ext_views(s.skip(1));
        assert(ext_views(s) == seq![s[0]@] + ext_views(s.skip(1)));
        assert forall|i: int| 0 <= i < s.len() implies ext_views(s)[i] == s[i]@ by {
            if i > 0 {
                assert(ext_views(s)[i] == ext_views(s.skip(1))[i - 1]);
                assert(s.skip(1)[i - 1] == s[i]);
            }
        }
    }
}

/// The entry a declared extension resolves to: both trees built from
/// their declared types, under the extension's identifier.
pub open spec fn spec_extension_new(s: Schema, d: ExtensionDef) -> ExtensionV {
    ExtensionV {
        identifier: d.identifier@,
        content: spec_resolve(s, d.ty, Some(d.identifier@), MAX_DEPTH as nat),
        additional: spec_resolve(s, d.additional, Some(d.identifier@), MAX_DEPTH as nat),
    }
}

impl ExtensionContent {
    /// Build the entry for one declared signed extension.
    pub fn new(input: &ExtensionDef, schema: &Schema) -> (r: Self)
        ensures
            r@ == spec_extension_new(*schema, *input),
    {
        ExtensionContent {
            identifier: input.identifier.clone(),
            content: resolve_node(schema, input.ty, Some(input.identifier.as_str()), MAX_DEPTH),
            additional: resolve_node(
                schema,
                input.additional,
                Some(input.identifier.as_str()),
                MAX_DEPTH,
            ),
        }
    }

    /// The on-wire tree, for mutation.
    pub fn content(&mut self) -> (r: &mut FieldContent)
        ensures
            *r == old(self).content,
            final(self).content == *final(r),
            final(self).identifier == old(self).identifier,
            final(self).additional == old(self).additional,
    {
        &mut self.content
    }

    /// The signature-payload tree, for mutation.
    pub fn additional(&mut self) -> (r: &mut FieldContent)
        ensures
            *r == old(self).additional,
            final(self).additional == *final(r),
            final(self).identifier == old(self).identifier,
            final(self).content == old(self).content,
    {
        &mut self.additional
    }

    /// The bytes this extension contributes to the transmitted stream.
    pub fn encoded_content(&self, schema: &Schema) -> (r: Vec<u8>)
        ensures
            r@ == encoded_node(self.content@, schema.extrinsic.version),
    {
        self.content.encoded(schema)
    }

    /// The bytes this extension contributes to the signature payload
    /// only; they never join the transmitted stream.
    pub fn encoded_additional(&self, schema: &Schema) -> (r: Vec<u8>)
        ensures
            r@ == encoded_node(self.additional@, schema.extrinsic.version),
    {
        self.additional.encoded(schema)
    }
}

} // verus!
