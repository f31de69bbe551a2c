//! Renderable summaries of the tree, one card per node: a display name,
//! the available options with the current selection, documentation text,
//! a current value where the node holds one, and the node's path, so the
//! presentation layer can address future events at that exact node.

use vstd::prelude::*;
use vstd::string::*;

use crate::call_constructor::CallConstructor;
use crate::extensions::ExtensionContent;
use crate::field_content::primitive::PrimitiveContent;
use crate::field_content::sequence::SequenceType;
use crate::field_content::FieldContent;
use crate::schema::Schema;

verus! {

/// One renderable node summary. The path addresses the node it came
/// from, so an edit event carrying it reaches that node again.
pub struct Card {
    pub path: Vec<usize>,
    pub title: String,
    pub options: Vec<(u8, String)>,
    pub selected: Option<u8>,
    pub value: String,
    pub doc: String,
}

/// Does path `p` address a node at or below the node `parent` addresses?
pub open spec fn extends_path(p: Seq<usize>, parent: Seq<usize>) -> bool {
    p.len() >= parent.len() && (forall|j: int| 0 <= j < parent.len() ==> p[j] == parent[j])
}

/// Copy a path.
pub fn copy_path(v: &Vec<usize>) -> (r: Vec<usize>)
    ensures
        r@ == v@,
{
    let mut r: Vec<usize> = Vec::new();
    let mut i: usize = 0;
    while i < v.len()
        invariant
            i <= v@.len(),
            r@ =~= v@.take(i as int),
        decreases v@.len() - i,
    {
        r.push(v[i]);
        i += 1;
    }
    proof {
        assert(v@.take(v@.len() as int) =~= v@);
    }
    r
}

/// Join documentation lines with line breaks.
fn join_lines(lines: &Vec<String>) -> String {
    let mut out = String::new();
    let mut i: usize = 0;
    while i < lines.len()
        decreases lines@.len() - i,
    {
        if i > 0 {
            out.append("\n");
        }
        out.append(lines[i].as_str());
        i += 1;
    }
    out
}

/// An owned copy of an optional display name, or the empty string.
fn title_of(name: &Option<String>) -> String {
    match name {
        Some(s) => s.clone(),
        None => String::new(),
    }
}

impl FieldContent {
    /// The renderable summaries of this node and everything below it.
    /// The first card is this node's own and carries exactly `parent` as
    /// its path; every further card's path begins with `parent`, so path
    /// addressing is preserved across the whole projection.
    pub fn get_cards(&self, parent: Vec<usize>, schema: &Schema) -> (r: Vec<Card>)
        ensures
            r@.len() >= 1,
            r@[0].path@ == parent@,
            forall|i: int|
                0 <= i < r@.len() ==> extends_path(#[trigger] r@[i].path@, parent@),
        decreases *self,
    {
        let mut out: Vec<Card> = Vec::new();
        match self {
            FieldContent::PalletCall(n) => {
                let pallet_card = Card {
                    path: copy_path(&parent),
                    title: String::from_str("Pallet"),
                    options: n.get_pallets(schema),
                    selected: match &n.pallet {
                        Some(p) => Some(p.index),
                        None => None,
                    },
                    value: String::new(),
                    doc: String::new(),
                };
                out.push(pallet_card);
                if n.pallet.is_some() {
                    let call_card = Card {
                        path: copy_path(&parent),
                        title: String::from_str("Call"),
                        options: n.get_calls(schema),
                        selected: n.call,
                        value: String::new(),
                        doc: match (n.try_get_calls(schema), n.call) {
                            (Some(vs), Some(c)) => docs_of_variant(vs, c),
                            _ => String::new(),
                        },
                    };
                    out.push(call_card);
                }
                cards_of_children(&n.fields, &parent, schema, &mut out);
            },
            FieldContent::MagicUncheckedExtrinsic(n) => {
                out.push(
                    Card {
                        path: copy_path(&parent),
                        title: String::from_str("Extrinsic"),
                        options: Vec::new(),
                        selected: None,
                        value: String::new(),
                        doc: String::new(),
                    },
                );
                cards_of_children(&n.fields, &parent, schema, &mut out);
            },
            FieldContent::Variant(n) => {
                out.push(
                    Card {
                        path: copy_path(&parent),
                        title: title_of(&n.name),
                        options: n.get_options(schema),
                        selected: n.selected,
                        value: String::new(),
                        doc: match (n.selected, schema.resolve(n.ty)) {
                            (Some(c), Some(e)) => match &e.def {
                                crate::schema::TypeDescriptor::Variant(vs) => docs_of_variant(
                                    vs,
                                    c,
                                ),
                                _ => String::new(),
                            },
                            _ => String::new(),
                        },
                    },
                );
                cards_of_children(&n.fields, &parent, schema, &mut out);
            },
            FieldContent::Composite(n) => {
                out.push(plain_card(copy_path(&parent), title_of(&n.name)));
                cards_of_children(&n.fields, &parent, schema, &mut out);
            },
            FieldContent::Tuple(n) => {
                out.push(plain_card(copy_path(&parent), title_of(&n.name)));
                cards_of_children(&n.fields, &parent, schema, &mut out);
            },
            FieldContent::Sequence(n) => match &n.content {
                SequenceType::PrimitiveU8(b) => {
                    let mut card = plain_card(copy_path(&parent), title_of(&n.name));
                    card.value = b.show();
                    out.push(card);
                },
                SequenceType::Composite(c) => {
                    out.push(plain_card(copy_path(&parent), title_of(&n.name)));
                    cards_of_children(&c.content, &parent, schema, &mut out);
                },
            },
            FieldContent::Array(n) => match &n.content {
                SequenceType::PrimitiveU8(b) => {
                    let mut card = plain_card(copy_path(&parent), title_of(&n.name));
                    card.value = b.show();
                    out.push(card);
                },
                SequenceType::Composite(c) => {
                    out.push(plain_card(copy_path(&parent), title_of(&n.name)));
                    cards_of_children(&c.content, &parent, schema, &mut out);
                },
            },
            FieldContent::Compact(n) => {
                let mut card = plain_card(copy_path(&parent), title_of(&n.name));
                card.value = crate::text::to_hex(&n.value);
                out.push(card);
            },
            FieldContent::Primitive(n) => {
                let mut card = plain_card(copy_path(&parent), title_of(&n.name));
                card.value = prim_value_text(&n.content);
                out.push(card);
            },
            FieldContent::BitSequence(n) => {
                let mut card = plain_card(copy_path(&parent), title_of(&n.name));
                card.value = crate::text::to_hex(&n.payload);
                out.push(card);
            },
            FieldContent::Error(msg) => {
                let mut card = plain_card(copy_path(&parent), String::from_str("error"));
                card.doc = msg.clone();
                out.push(card);
            },
        }
        out
    }
}

/// A card with only a path and a title.
fn plain_card(path: Vec<usize>, title: String) -> (r: Card)
    ensures
        r.path == path,
{
    Card { path, title, options: Vec::new(), selected: None, value: String::new(), doc: String::new() }
}

/// The joined documentation of the variant with discriminant `c`.
fn docs_of_variant(vs: &Vec<crate::schema::VariantDef>, c: u8) -> String {
    let mut i: usize = 0;
    while i < vs.len()
        decreases vs@.len() - i,
    {
        if vs[i].index == c {
            return join_lines(&vs[i].docs);
        }
        i += 1;
    }
    String::new()
}

/// The display text of a primitive value: booleans and characters and
/// strings as themselves, integers as hexadecimal little-endian bytes.
fn prim_value_text(p: &PrimitiveContent) -> String {
    match p {
        PrimitiveContent::Bool(b) => String::from_str(
            if *b {
                "true"
            } else {
                "false"
            },
        ),
        PrimitiveContent::Char(c) => {
            let bytes = crate::field_content::encode_char(*c);
            match crate::text::utf8_string(&bytes) {
                Some(s) => s,
                None => String::new(),
            }
        },
        PrimitiveContent::Str(s) => s.clone(),
        PrimitiveContent::U8(v) => hex_of_u128(*v as u128, 1),
        PrimitiveContent::U16(v) => hex_of_u128(*v as u128, 2),
        PrimitiveContent::U32(v) => hex_of_u128(*v as u128, 4),
        PrimitiveContent::U64(v) => hex_of_u128(*v as u128, 8),
        PrimitiveContent::U128(v) => hex_of_u128(*v, 16),
        PrimitiveContent::U256(b) => {
            let mut s = String::from_str("0x");
            s.append(crate::text::to_hex(b).as_str());
            s
        },
        PrimitiveContent::I8(v) => hex_of_u128(*v as u8 as u128, 1),
        PrimitiveContent::I16(v) => hex_of_u128(*v as u16 as u128, 2),
        PrimitiveContent::I32(v) => hex_of_u128(*v as u32 as u128, 4),
        PrimitiveContent::I64(v) => hex_of_u128(*v as u64 as u128, 8),
        PrimitiveContent::I128(v) => hex_of_u128(*v as u128, 16),
        PrimitiveContent::I256(b) => {
            let mut s = String::from_str("0x");
            s.append(crate::text::to_hex(b).as_str());
            s
        },
    }
}

/// The `0x`-prefixed little-endian hexadecimal of a fixed-width value.
fn hex_of_u128(v: u128, width: usize) -> String {
    let bytes = crate::scale::le_bytes_u128(v, width);
    let mut s = String::from_str("0x");
    s.append(crate::text::to_hex(&bytes).as_str());
    s
}

/// Append the cards of every child, each under its own extended path.
/// The cards already collected stay in place.
fn cards_of_children(
    fields: &Vec<FieldContent>,
    parent: &Vec<usize>,
    schema: &Schema,
    out: &mut Vec<Card>,
)
    requires
        forall|i: int|
            0 <= i < old(out)@.len() ==> extends_path(#[trigger] old(out)@[i].path@, parent@),
    ensures
        final(out)@.len() >= old(out)@.len(),
        forall|i: int| 0 <= i < old(out)@.len() ==> final(out)@[i] == old(out)@[i],
        forall|i: int|
            0 <= i < final(out)@.len() ==> extends_path(#[trigger] final(out)@[i].path@, parent@),
    decreases fields@,
{
    let mut i: usize = 0;
    while i < fields.len()
        invariant
            i <= fields@.len(),
            out@.len() >= old(out)@.len(),
            forall|k: int| 0 <= k < old(out)@.len() ==> out@[k] == old(out)@[k],
            forall|k: int|
                0 <= k < out@.len() ==> extends_path(#[trigger] out@[k].path@, parent@),
        decreases fields@.len() - i,
    {
        let mut child_path = copy_path(parent);
        child_path.push(i);
        let mut cs = fields[i].get_cards(child_path, schema);
        let ghost pre_len = out@.len();
        out.append(&mut cs);
        proof {
            assert forall|k: int|
                0 <= k < out@.len() implies extends_path(#[trigger] out@[k].path@, parent@) by {
                if k >= pre_len {
                }
            }
        }
        i += 1;
    }
}

impl ExtensionContent {
    /// The cards of the on-wire tree, rooted at `parent`: at least the
    /// tree's own card, which carries exactly `parent`.
    pub fn get_content_cards(&self, parent: Vec<usize>, schema: &Schema) -> (r: Vec<Card>)
        ensures
            r@.len() >= 1,
            r@[0].path@ == parent@,
            forall|i: int|
                0 <= i < r@.len() ==> extends_path(#[trigger] r@[i].path@, parent@),
    {
        self.content.get_cards(parent, schema)
    }

    /// The cards of the signature-payload tree, rooted at `parent`: at
    /// least the tree's own card, which carries exactly `parent`.
    pub fn get_additional_cards(&self, parent: Vec<usize>, schema: &Schema) -> (r: Vec<Card>)
        ensures
            r@.len() >= 1,
            r@[0].path@ == parent@,
            forall|i: int|
                0 <= i < r@.len() ==> extends_path(#[trigger] r@[i].path@, parent@),
    {
        self.additional.get_cards(parent, schema)
    }
}

impl CallConstructor {
    /// The cards of the call tree: at least the tree's own card, whose
    /// path is exactly `[0]`, the call tree's routing prefix; every
    /// further path begins with it.
    pub fn get_cards(&self) -> (r: Vec<Card>)
        ensures
            r@.len() >= 1,
            r@[0].path@ == seq![0usize],
            forall|i: int|
                0 <= i < r@.len() ==> extends_path(#[trigger] r@[i].path@, seq![0usize]),
    {
        let mut root: Vec<usize> = Vec::new();
        root.push(0);
        proof {
            assert(root@ =~= seq![0usize]);
        }
        self.content.get_cards(root, &self.schema)
    }

    /// The cards of every extension's on-wire tree, at least one per
    /// extension; the cards of extension `j` all carry the routing
    /// prefix `[1, j, 0]`.
    pub fn get_extension_cards(&self) -> (r: Vec<Card>)
        ensures
            r@.len() >= self.extensions@.len(),
            forall|i: int|
                0 <= i < r@.len() ==> extends_path(#[trigger] r@[i].path@, seq![1usize]),
    {
        let mut out: Vec<Card> = Vec::new();
        let mut j: usize = 0;
        while j < self.extensions.len()
            invariant
                j <= self.extensions@.len(),
                out@.len() >= j,
                forall|i: int|
                    0 <= i < out@.len() ==> extends_path(#[trigger] out@[i].path@, seq![1usize]),
            decreases self.extensions@.len() - j,
        {
            let mut root: Vec<usize> = Vec::new();
            root.push(1);
            root.push(j);
            root.push(0);
            proof {
                assert(root@ =~= seq![1usize, j as usize, 0usize]);
            }
            let ghost pre_len = out@.len();
            let mut cs = self.extensions[j].get_content_cards(root, &self.schema);
            out.append(&mut cs);
            proof {
                assert forall|i: int|
                    0 <= i < out@.len() implies extends_path(
                    #[trigger] out@[i].path@,
                    seq![1usize],
                ) by {
                    if i >= pre_len {
                        assert(extends_path(out@[i].path@, seq![1usize, j as usize, 0usize]));
                    }
                }
            }
            j += 1;
        }
        out
    }

    /// The cards of every extension's signature-payload tree, at least
    /// one per extension; the cards of extension `j` all carry the
    /// routing prefix `[1, j, 1]`.
    pub fn get_extension_additional_cards(&self) -> (r: Vec<Card>)
        ensures
            r@.len() >= self.extensions@.len(),
            forall|i: int|
                0 <= i < r@.len() ==> extends_path(#[trigger] r@[i].path@, seq![1usize]),
    {
        let mut out: Vec<Card> = Vec::new();
        let mut j: usize = 0;
        while j < self.extensions.len()
            invariant
                j <= self.extensions@.len(),
                out@.len() >= j,
                forall|i: int|
                    0 <= i < out@.len() ==> extends_path(#[trigger] out@[i].path@, seq![1usize]),
            decreases self.extensions@.len() - j,
        {
            let mut root: Vec<usize> = Vec::new();
            root.push(1);
            root.push(j);
            root.push(1);
            proof {
                assert(root@ =~= seq![1usize, j as usize, 1usize]);
            }
            let ghost pre_len = out@.len();
            let mut cs = self.extensions[j].get_additional_cards(root, &self.schema);
            out.append(&mut cs);
            proof {
                assert forall|i: int|
                    0 <= i < out@.len() implies extends_path(
                    #[trigger] out@[i].path@,
                    seq![1usize],
                ) by {
                    if i >= pre_len {
                        assert(extends_path(out@[i].path@, seq![1usize, j as usize, 1usize]));
                    }
                }
            }
            j += 1;
        }
        out
    }
}

} // verus!
