//! The call/extension assembler: one extrinsic envelope wrapping the call
//! tree, plus one entry per declared signed extension, with path-addressed
//! event routing and the canonical byte stream over the whole.

use vstd::prelude::*;

use crate::decode::{all_complete, complete, decode_list, lemma_all_complete_pointwise,
    lemma_round_trip_list, values_of};
use crate::extensions::{ext_views, lemma_ext_views, spec_extension_new, ExtensionContent,
    ExtensionV};
use crate::field_content::magic_unchecked_extrinsic::{spec_extrinsic_new, MagicUncheckedExtrinsic};
use crate::field_content::{apply_at, encoded_list, encoded_node, lemma_encoded_list_append,
    lemma_encoded_list_take, success_at, FieldContent, NodeV};
use crate::messaging::CallConstructorEvent;
use crate::schema::Schema;

verus! {

/// One in-progress transaction: the schema it was built from, the
/// extrinsic tree, and the declared signed extensions.
pub struct CallConstructor {
    pub schema: Schema,
    pub content: FieldContent,
    pub extensions: Vec<ExtensionContent>,
}

/// The extension entries a schema declares, each freshly resolved.
pub open spec fn spec_extensions_new(s: Schema) -> Seq<ExtensionV> {
    Seq::new(s.extrinsic.extensions@.len(), |i: int| spec_extension_new(s, s.extrinsic.extensions@[i]))
}

/// What a routed event does to the construction: `[0, ..]` addresses the
/// call tree, `[1, j, 0, ..]` extension `j`'s on-wire tree, `[1, j, 1,
/// ..]` its signature-payload tree; any other prefix does nothing.
pub open spec fn cc_apply(
    content: NodeV,
    exts: Seq<ExtensionV>,
    s: Schema,
    path: Seq<usize>,
    id: usize,
    msg: Seq<char>,
) -> Option<(NodeV, Seq<ExtensionV>)> {
    if path.len() == 0 {
        None
    } else if path[0] == 0 {
        match apply_at(content, s, path, 1, id, msg) {
            Some(nv) => Some((nv, exts)),
            None => None,
        }
    } else if path[0] == 1 {
        if path.len() >= 3 && path[1] < exts.len() {
            let j = path[1] as int;
            if path[2] == 0 {
                match apply_at(exts[j].content, s, path, 3, id, msg) {
                    Some(nv) => Some(
                        (
                            content,
                            exts.update(
                                j,
                                ExtensionV {
                                    identifier: exts[j].identifier,
                                    content: nv,
                                    additional: exts[j].additional,
                                },
                            ),
                        ),
                    ),
                    None => None,
                }
            } else if path[2] == 1 {
                match apply_at(exts[j].additional, s, path, 3, id, msg) {
                    Some(nv) => Some(
                        (
                            content,
                            exts.update(
                                j,
                                ExtensionV {
                                    identifier: exts[j].identifier,
                                    content: exts[j].content,
                                    additional: nv,
                                },
                            ),
                        ),
                    ),
                    None => None,
                }
            } else {
                None
            }
        } else {
            None
        }
    } else {
        None
    }
}

/// Did a routed event succeed? It did exactly when its path prefix is
/// well formed and the addressed node reports success; an unmatched
/// selection index reached through a valid path clears that selector yet
/// reports failure here too.
pub open spec fn cc_success(
    content: NodeV,
    exts: Seq<ExtensionV>,
    s: Schema,
    path: Seq<usize>,
    id: usize,
    msg: Seq<char>,
) -> bool {
    if path.len() == 0 {
        false
    } else if path[0] == 0 {
        success_at(content, s, path, 1, id, msg)
    } else if path[0] == 1 {
        if path.len() >= 3 && path[1] < exts.len() {
            let j = path[1] as int;
            if path[2] == 0 {
                success_at(exts[j].content, s, path, 3, id, msg)
            } else if path[2] == 1 {
                success_at(exts[j].additional, s, path, 3, id, msg)
            } else {
                false
            }
        } else {
            false
        }
    } else {
        false
    }
}

/// The on-wire trees of the extensions, in declared order.
pub open spec fn ext_content_nodes(exts: Seq<ExtensionV>) -> Seq<NodeV>
    decreases exts,
{
    if exts.len() == 0 {
        Seq::empty()
    } else {
        seq![exts[0].content] + ext_content_nodes(exts.skip(1))
    }
}

/// The signature-payload trees of the extensions, in declared order.
pub open spec fn ext_additional_nodes(exts: Seq<ExtensionV>) -> Seq<NodeV>
    decreases exts,
{
    if exts.len() == 0 {
        Seq::empty()
    } else {
        seq![exts[0].additional] + ext_additional_nodes(exts.skip(1))
    }
}

/// The extension-tree projections are pointwise.
pub proof fn lemma_ext_nodes(exts: Seq<ExtensionV>)
    ensures
        ext_content_nodes(exts).len() == exts.len(),
        ext_additional_nodes(exts).len() == exts.len(),
        forall|i: int|
            0 <= i < exts.len() ==> ext_content_nodes(exts)[i] == exts[i].content
                && ext_additional_nodes(exts)[i] == exts[i].additional,
    decreases exts.len(),
{
    if exts.len() > 0 {
        lemma_ext_nodes(exts.skip(1));
        assert forall|i: int|
            0 <= i < exts.len() implies ext_content_nodes(exts)[i] == exts[i].content
            && ext_additional_nodes(exts)[i] == exts[i].additional by {
            if i > 0 {
                assert(ext_content_nodes(exts)[i] == ext_content_nodes(exts.skip(1))[i - 1]);
                assert(ext_additional_nodes(exts)[i] == ext_additional_nodes(exts.skip(1))[i - 1]);
                assert(exts.skip(1)[i - 1] == exts[i]);
            }
        }
    }
}

/// The full transmitted byte stream: the extrinsic tree's encoding (its
/// version byte and the call body) followed by every extension's on-wire
/// encoding, in declared order. Signature-payload trees never join it.
pub open spec fn spec_encoded(content: NodeV, exts: Seq<ExtensionV>, version: u8) -> Seq<u8> {
    encoded_node(content, version) + encoded_list(ext_content_nodes(exts), version)
}

impl CallConstructor {
    /// Begin a construction from a freshly received schema: the extrinsic
    /// envelope with its call tree, and one entry per declared extension.
    pub fn new(schema: Schema) -> (r: Self)
        ensures
            r.schema == schema,
            r.content@ == spec_extrinsic_new(schema),
            ext_views(r.extensions@) == spec_extensions_new(schema),
    {
        let mut extensions: Vec<ExtensionContent> = Vec::new();
        let ghost want = spec_extensions_new(schema);
        let n = schema.extrinsic.extensions.len();
        let mut i: usize = 0;
        while i < n
            invariant
                i <= n,
                n == schema.extrinsic.extensions@.len(),
                want == spec_extensions_new(schema),
                extensions@.len() == i,
                forall|j: int| 0 <= j < i ==> extensions@[j]@ == want[j],
            decreases n - i,
        {
            let e = ExtensionContent::new(&schema.extrinsic.extensions[i], &schema);
            extensions.push(e);
            i += 1;
        }
        proof {
            lemma_ext_views(extensions@);
            assert(ext_views(extensions@) =~= want);
        }
        let content = FieldContent::MagicUncheckedExtrinsic(MagicUncheckedExtrinsic::new(&schema));
        CallConstructor { schema, content, extensions }
    }

    /// Route an edit event by its path prefix and let the addressed node
    /// handle it. A malformed or out-of-range prefix, a path that runs
    /// off the tree, or an event the node refuses, changes nothing and
    /// reports failure; a selection index that names no declared entry
    /// clears that selector and reports failure too.
    pub fn handle_event(&mut self, event: &CallConstructorEvent) -> (r: bool)
        ensures
            r == cc_success(
                old(self).content@,
                ext_views(old(self).extensions@),
                old(self).schema,
                event.index@,
                event.ccei.id,
                event.ccei.message@,
            ),
            (cc_apply(
                old(self).content@,
                ext_views(old(self).extensions@),
                old(self).schema,
                event.index@,
                event.ccei.id,
                event.ccei.message@,
            ) matches Some(p) ==> final(self).content@ == p.0 && ext_views(final(self).extensions@)
                == p.1),
            (cc_apply(
                old(self).content@,
                ext_views(old(self).extensions@),
                old(self).schema,
                event.index@,
                event.ccei.id,
                event.ccei.message@,
            ) is None ==> final(self).content@ == old(self).content@ && ext_views(
                final(self).extensions@,
            ) == ext_views(old(self).extensions@)),
            final(self).schema == old(self).schema,
    {
        let path = &event.index;
        proof {
            lemma_ext_views(self.extensions@);
        }
        if path.len() == 0 {
            return false;
        }
        if path[0] == 0 {
            self.content.handle_event_at(path, 1, &event.ccei, &self.schema)
        } else if path[0] == 1 {
            if path.len() >= 3 && path[1] < self.extensions.len() {
                let j = path[1];
                let ghost pre_exts = self.extensions@;
                if path[2] == 0 {
                    let e = &mut self.extensions[j];
                    let ghost targetv = e.content@;
                    let ok = e.content.handle_event_at(path, 3, &event.ccei, &self.schema);
                    proof {
                        assert(after_borrow(self.extensions)@ =~= pre_exts.update(
                            j as int,
                            *final(e),
                        ));
                        lemma_ext_views(pre_exts.update(j as int, *final(e)));
                        assert(ext_views(pre_exts.update(j as int, *final(e))) =~= ext_views(
                            pre_exts,
                        ).update(j as int, (*final(e))@));
                        if apply_at(targetv, self.schema, path@, 3, event.ccei.id,
                            event.ccei.message@) is None {
                            assert(ext_views(pre_exts).update(j as int, pre_exts[j as int]@)
                                =~= ext_views(pre_exts));
                        }
                    }
                    ok
                } else if path[2] == 1 {
                    let e = &mut self.extensions[j];
                    let ghost targetv = e.additional@;
                    let ok = e.additional.handle_event_at(path, 3, &event.ccei, &self.schema);
                    proof {
                        assert(after_borrow(self.extensions)@ =~= pre_exts.update(
                            j as int,
                            *final(e),
                        ));
                        lemma_ext_views(pre_exts.update(j as int, *final(e)));
                        assert(ext_views(pre_exts.update(j as int, *final(e))) =~= ext_views(
                            pre_exts,
                        ).update(j as int, (*final(e))@));
                        if apply_at(targetv, self.schema, path@, 3, event.ccei.id,
                            event.ccei.message@) is None {
                            assert(ext_views(pre_exts).update(j as int, pre_exts[j as int]@)
                                =~= ext_views(pre_exts));
                        }
                    }
                    ok
                } else {
                    false
                }
            } else {
                false
            }
        } else {
            false
        }
    }

    /// The transmitted bytes of the construction as it stands: the
    /// extrinsic tree's encoding followed by every extension's on-wire
    /// bytes. `additional` trees are never included here.
    pub fn encoded(&self) -> (r: Vec<u8>)
        ensures
            r@ == spec_encoded(
                self.content@,
                ext_views(self.extensions@),
                self.schema.extrinsic.version,
            ),
    {
        let ghost version = self.schema.extrinsic.version;
        let ghost evs = ext_views(self.extensions@);
        let ghost cns = ext_content_nodes(evs);
        proof {
            lemma_ext_views(self.extensions@);
            lemma_ext_nodes(evs);
        }
        let mut out = self.content.encoded(&self.schema);
        let mut i: usize = 0;
        while i < self.extensions.len()
            invariant
                i <= self.extensions@.len(),
                version == self.schema.extrinsic.version,
                evs == ext_views(self.extensions@),
                cns == ext_content_nodes(evs),
                evs.len() == self.extensions@.len(),
                cns.len() == evs.len(),
                forall|k: int|
                    0 <= k < evs.len() ==> evs[k] == self.extensions@[k]@ && cns[k] == evs[k].content,
                out@ == encoded_node(self.content@, version) + encoded_list(
                    cns.take(i as int),
                    version,
                ),
            decreases self.extensions@.len() - i,
        {
            let mut e = self.extensions[i].encoded_content(&self.schema);
            out.append(&mut e);
            proof {
                lemma_encoded_list_take(cns, i as int, version);
            }
            i += 1;
        }
        proof {
            assert(cns.take(cns.len() as int) =~= cns);
        }
        out
    }

    /// The call subtree's bytes alone, as a signature is computed over
    /// them: the extrinsic envelope's first child, without the version
    /// byte.
    pub fn encoded_call(&self) -> (r: Vec<u8>)
        ensures
            (self.content@ matches NodeV::Extrinsic { fields, .. } ==> (fields.len() > 0
                ==> r@ == encoded_node(fields[0], self.schema.extrinsic.version)) && (fields.len()
                == 0 ==> r@ == Seq::<u8>::empty())),
            (!(self.content@ is Extrinsic) ==> r@ == Seq::<u8>::empty()),
    {
        match &self.content {
            FieldContent::MagicUncheckedExtrinsic(m) => {
                proof {
                    crate::field_content::lemma_views_of(m.fields@);
                }
                if m.fields.len() > 0 {
                    m.fields[0].encoded(&self.schema)
                } else {
                    Vec::new()
                }
            },
            _ => Vec::new(),
        }
    }

    /// The extensions' bytes for the signature payload: every on-wire
    /// encoding in declared order, then every `additional` encoding in
    /// declared order.
    pub fn encoded_extensions(&self) -> (r: Vec<u8>)
        ensures
            r@ == encoded_list(
                ext_content_nodes(ext_views(self.extensions@)),
                self.schema.extrinsic.version,
            ) + encoded_list(
                ext_additional_nodes(ext_views(self.extensions@)),
                self.schema.extrinsic.version,
            ),
    {
        let ghost version = self.schema.extrinsic.version;
        let ghost evs = ext_views(self.extensions@);
        let ghost cns = ext_content_nodes(evs);
        let ghost ans = ext_additional_nodes(evs);
        proof {
            lemma_ext_views(self.extensions@);
            lemma_ext_nodes(evs);
        }
        let mut out: Vec<u8> = Vec::new();
        let mut i: usize = 0;
        while i < self.extensions.len()
            invariant
                i <= self.extensions@.len(),
                version == self.schema.extrinsic.version,
                evs == ext_views(self.extensions@),
                cns == ext_content_nodes(evs),
                evs.len() == self.extensions@.len(),
                cns.len() == evs.len(),
                forall|k: int|
                    0 <= k < evs.len() ==> evs[k] == self.extensions@[k]@ && cns[k] == evs[k].content,
                out@ == encoded_list(cns.take(i as int), version),
            decreases self.extensions@.len() - i,
        {
            let mut e = self.extensions[i].encoded_content(&self.schema);
            out.append(&mut e);
            proof {
                lemma_encoded_list_take(cns, i as int, version);
            }
            i += 1;
        }
        proof {
            assert(cns.take(cns.len() as int) =~= cns);
        }
        let mut i: usize = 0;
        while i < self.extensions.len()
            invariant
                i <= self.extensions@.len(),
                version == self.schema.extrinsic.version,
                evs == ext_views(self.extensions@),
                cns == ext_content_nodes(evs),
                ans == ext_additional_nodes(evs),
                evs.len() == self.extensions@.len(),
                ans.len() == evs.len(),
                forall|k: int|
                    0 <= k < evs.len() ==> evs[k] == self.extensions@[k]@ && ans[k]
                        == evs[k].additional,
                out@ == encoded_list(cns, version) + encoded_list(ans.take(i as int), version),
            decreases self.extensions@.len() - i,
        {
            let mut e = self.extensions[i].encoded_additional(&self.schema);
            out.append(&mut e);
            proof {
                lemma_encoded_list_take(ans, i as int, version);
            }
            i += 1;
        }
        proof {
            assert(ans.take(ans.len() as int) =~= ans);
        }
        out
    }

    /// Is the whole construction fully populated: the extrinsic tree and
    /// every extension's on-wire tree? Only then does `encoded` denote a
    /// finished transaction; before that the stream is a partial preview
    /// and must not be submitted as complete.
    pub fn is_complete(&self) -> (r: bool)
        ensures
            r == (complete(self.content@) && all_complete(
                ext_content_nodes(ext_views(self.extensions@)),
            )),
    {
        let ghost evs = ext_views(self.extensions@);
        let ghost cns = ext_content_nodes(evs);
        proof {
            lemma_ext_views(self.extensions@);
            lemma_ext_nodes(evs);
            lemma_all_complete_pointwise(cns);
        }
        if !self.content.is_complete() {
            return false;
        }
        let mut i: usize = 0;
        while i < self.extensions.len()
            invariant
                i <= self.extensions@.len(),
                evs == ext_views(self.extensions@),
                cns == ext_content_nodes(evs),
                evs.len() == self.extensions@.len(),
                cns.len() == evs.len(),
                forall|k: int|
                    0 <= k < evs.len() ==> evs[k] == self.extensions@[k]@ && cns[k] == evs[k].content,
                forall|k: int| 0 <= k < i ==> complete(#[trigger] cns[k]),
                complete(self.content@),
            decreases self.extensions@.len() - i,
        {
            if !self.extensions[i].content.is_complete() {
                proof {
                    assert(!complete(cns[i as int]));
                    lemma_all_complete_pointwise(cns);
                }
                return false;
            }
            i += 1;
        }
        proof {
            lemma_all_complete_pointwise(cns);
        }
        true
    }

}

/// The round trip over the whole transmitted stream: when the extrinsic
/// tree and every extension's on-wire tree are fully populated, the bytes
/// of `spec_encoded`, followed by anything, parse back (shape-directed,
/// tree by tree) to exactly their semantic values with the trailing bytes
/// left over.
pub proof fn lemma_encoded_round_trip(
    content: NodeV,
    exts: Seq<ExtensionV>,
    version: u8,
    rest: Seq<u8>,
)
    requires
        all_complete(seq![content] + ext_content_nodes(exts)),
    ensures
        decode_list(
            seq![content] + ext_content_nodes(exts),
            version,
            spec_encoded(content, exts, version) + rest,
        ) == Some((values_of(seq![content] + ext_content_nodes(exts)), rest)),
{
    let shapes = seq![content] + ext_content_nodes(exts);
    assert(encoded_list(shapes, version) =~= spec_encoded(content, exts, version)) by {
        lemma_encoded_list_append(seq![content], ext_content_nodes(exts), version);
        assert(seq![content].skip(1) =~= Seq::<NodeV>::empty());
        reveal_with_fuel(encoded_list, 2);
        assert(encoded_list(seq![content], version) =~= encoded_node(content, version));
    };
    lemma_round_trip_list(shapes, version, rest);
}

} // verus!
