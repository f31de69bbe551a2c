//! Sequence, array and bit-sequence nodes. A sequence or array whose
//! element is the byte primitive is held as one editable byte buffer;
//! other element kinds are held as child nodes.

use vstd::prelude::*;
use vstd::string::*;
use vstd::utf8::{decode_utf8, valid_utf8};

use crate::field_content::{apply_local, child_in, lemma_views_of_push, lemma_views_of_remove,
    opt_name, resolve_node, views_of, FieldContent, NodeV, MAX_DEPTH};
use crate::messaging::CCEI;
use crate::schema::Schema;
use crate::text::{hex_chars, to_hex, unhex, utf8_string};

verus! {

/// A variable-length sequence of one element type.
#[derive(Debug)]
pub struct Sequence {
    pub name: Option<String>,
    pub element_ty: u32,
    pub content: SequenceType,
}

/// How a sequence or array holds its elements.
#[derive(Debug)]
pub enum SequenceType {
    PrimitiveU8(SequenceU8),
    Composite(CompositeContent),
}

/// A byte buffer with a selectable display mode.
#[derive(Debug)]
pub struct SequenceU8 {
    pub content: Vec<u8>,
    pub input_mode: StringInputMode,
}

/// How byte-buffer text input and display are interpreted.
#[derive(Debug)]
pub enum StringInputMode {
    Hex,
    UTF,
}

/// Structured sequence elements, one child node each.
#[derive(Debug)]
pub struct CompositeContent {
    pub content: Vec<FieldContent>,
}

/// A fixed-cardinality array of one element type.
#[derive(Debug)]
pub struct ArrayContent {
    pub name: Option<String>,
    pub element_ty: u32,
    pub len: u32,
    pub content: SequenceType,
}

/// A packed bitfield, held as an opaque byte payload.
#[derive(Debug)]
pub struct BitSequenceContent {
    pub name: Option<String>,
    pub payload: Vec<u8>,
}

impl SequenceU8 {
    /// An empty buffer taking raw-text input.
    pub fn new() -> (r: Self)
        ensures
            r.content@ == Seq::<u8>::empty(),
            r.input_mode is UTF,
    {
        SequenceU8 { content: Vec::new(), input_mode: StringInputMode::UTF }
    }

    /// The buffer as text: hexadecimal in hex mode, the decoded string in
    /// text mode, or a fixed marker when the bytes are not valid UTF-8.
    pub fn show(&self) -> (r: String)
        ensures
            self.input_mode is Hex ==> r@ == hex_chars(self.content@),
            self.input_mode is UTF && valid_utf8(self.content@) ==> r@ == decode_utf8(
                self.content@,
            ),
            self.input_mode is UTF && !valid_utf8(self.content@) ==> r@ == "error"@,
    {
        match self.input_mode {
            StringInputMode::Hex => to_hex(&self.content),
            StringInputMode::UTF => match utf8_string(&self.content) {
                Some(s) => s,
                None => String::from_str("error"),
            },
        }
    }
}

impl CompositeContent {
    /// No elements yet.
    pub fn new() -> (r: Self)
        ensures
            r.content@ == Seq::<FieldContent>::empty(),
    {
        CompositeContent { content: Vec::new() }
    }
}

impl View for Sequence {
    type V = NodeV;

    open spec fn view(&self) -> NodeV {
        match self.content {
            SequenceType::PrimitiveU8(b) => NodeV::SequenceBytes {
                name: opt_name(self.name),
                element_ty: self.element_ty,
                hex_mode: b.input_mode is Hex,
                bytes: b.content@,
            },
            SequenceType::Composite(c) => NodeV::SequenceNodes {
                name: opt_name(self.name),
                element_ty: self.element_ty,
                fields: views_of(c.content@),
            },
        }
    }
}

impl View for ArrayContent {
    type V = NodeV;

    open spec fn view(&self) -> NodeV {
        match self.content {
            SequenceType::PrimitiveU8(b) => NodeV::ArrayBytes {
                name: opt_name(self.name),
                element_ty: self.element_ty,
                len: self.len,
                hex_mode: b.input_mode is Hex,
                bytes: b.content@,
            },
            SequenceType::Composite(c) => NodeV::ArrayNodes {
                name: opt_name(self.name),
                element_ty: self.element_ty,
                len: self.len,
                fields: views_of(c.content@),
            },
        }
    }
}

impl View for BitSequenceContent {
    type V = NodeV;

    open spec fn view(&self) -> NodeV {
        NodeV::BitSequence { name: opt_name(self.name), payload: self.payload@ }
    }
}

impl Sequence {
    /// Build the node for a sequence over element type `element`: a byte
    /// buffer when the element is the byte primitive, a child-node
    /// container otherwise, and an error node when the element type has
    /// no registry entry.
    pub fn resolve(element: u32, name: Option<&str>, schema: &Schema) -> (r: FieldContent)
        ensures
            r@ == (if schema.entry_of(element) is None {
                NodeV::Error(crate::field_content::msg_type_not_found())
            } else if schema.is_byte_type(element) {
                NodeV::SequenceBytes {
                    name: crate::field_content::opt_str_view(name),
                    element_ty: element,
                    hex_mode: false,
                    bytes: Seq::<u8>::empty(),
                }
            } else {
                NodeV::SequenceNodes {
                    name: crate::field_content::opt_str_view(name),
                    element_ty: element,
                    fields: Seq::<NodeV>::empty(),
                }
            }),
    {
        match schema.resolve(element) {
            None => FieldContent::Error(String::from_str("type not found")),
            Some(e2) => {
                if crate::field_content::is_byte_entry(&e2.def) {
                    FieldContent::Sequence(
                        Sequence {
                            name: crate::field_content::own_name(name),
                            element_ty: element,
                            content: SequenceType::PrimitiveU8(SequenceU8::new()),
                        },
                    )
                } else {
                    let content = CompositeContent::new();
                    proof {
                        crate::field_content::lemma_views_of(content.content@);
                        assert(views_of(content.content@) =~= Seq::<NodeV>::empty());
                    }
                    FieldContent::Sequence(
                        Sequence {
                            name: crate::field_content::own_name(name),
                            element_ty: element,
                            content: SequenceType::Composite(content),
                        },
                    )
                }
            },
        }
    }

    /// The node's display name, if it has one.
    pub fn name(&self) -> (r: Option<&str>)
        ensures
            crate::field_content::opt_str_view(r) == opt_name(self.name),
    {
        match &self.name {
            Some(s) => Some(s.as_str()),
            None => None,
        }
    }

    /// The addressable element at position `id`; byte buffers have none.
    pub fn get_child(&mut self, id: &usize) -> (r: Option<&mut FieldContent>)
        ensures
            (r matches Some(c) ==> *id < crate::field_content::children_of(old(self)@).len()
                && (*c)@ == crate::field_content::children_of(old(self)@)[*id as int]
                && final(self)@ == crate::field_content::with_children(
                old(self)@,
                crate::field_content::children_of(old(self)@).update(
                    *id as int,
                    final(c)@,
                ),
            )),
            (r is None ==> final(self)@ == old(self)@ && *id
                >= crate::field_content::children_of(old(self)@).len()),
    {
        match &mut self.content {
            SequenceType::Composite(c) => {
                proof {
                    crate::field_content::lemma_views_of(c.content@);
                }
                child_in(&mut c.content, *id)
            },
            SequenceType::PrimitiveU8(_) => None,
        }
    }

    /// Route a sequence event: tag 0 replaces the whole byte buffer, tag
    /// 3 switches its input mode; tag 1 appends a fresh element to a
    /// structured sequence and tag 2 removes the element at the index in
    /// the payload. Byte buffers refuse the element events, structured
    /// sequences the buffer events.
    pub fn handle_event(&mut self, ccei: &CCEI, schema: &Schema) -> (r: bool)
        ensures
            r == crate::field_content::local_success(old(self)@, *schema, ccei.id, ccei.message@),
            (apply_local(old(self)@, *schema, ccei.id, ccei.message@) matches Some(nv)
                ==> final(self)@ == nv),
            (apply_local(old(self)@, *schema, ccei.id, ccei.message@) is None ==> final(self)@
                == old(self)@),
    {
        match &mut self.content {
            SequenceType::PrimitiveU8(b) => {
                if ccei.id == 0 {
                    match b.input_mode {
                        StringInputMode::Hex => match unhex(ccei.message.as_str()) {
                            Some(bytes) => {
                                b.content = bytes;
                                true
                            },
                            None => false,
                        },
                        StringInputMode::UTF => {
                            b.content = ccei.message.as_str().as_bytes_vec();
                            true
                        },
                    }
                } else if ccei.id == 3 {
                    if crate::text::str_eq(ccei.message.as_str(), "hex") {
                        b.input_mode = StringInputMode::Hex;
                        true
                    } else if crate::text::str_eq(ccei.message.as_str(), "text") {
                        b.input_mode = StringInputMode::UTF;
                        true
                    } else {
                        false
                    }
                } else {
                    false
                }
            },
            SequenceType::Composite(c) => {
                proof {
                    crate::field_content::lemma_views_of(c.content@);
                }
                if ccei.id == 1 {
                    let child = resolve_node(schema, self.element_ty, None, MAX_DEPTH);
                    proof {
                        lemma_views_of_push(c.content@, child);
                    }
                    c.content.push(child);
                    true
                } else if ccei.id == 2 {
                    let cap = c.content.len();
                    match crate::text::parse_uint(ccei.message.as_str()) {
                        Some(v) => if v < cap as u128 {
                            proof {
                                lemma_views_of_remove(c.content@, v as int);
                            }
                            c.content.remove(v as usize);
                            true
                        } else {
                            false
                        },
                        None => false,
                    }
                } else {
                    false
                }
            },
        }
    }
}

impl ArrayContent {
    /// Route an array event: tag 0 replaces a byte array's buffer with
    /// exactly as many bytes as the array declares, given in hexadecimal.
    /// Structured arrays take no events of their own.
    pub fn handle_event(&mut self, ccei: &CCEI, _schema: &Schema) -> (r: bool)
        ensures
            r == crate::field_content::local_success(old(self)@, *_schema, ccei.id, ccei.message@),
            (apply_local(old(self)@, *_schema, ccei.id, ccei.message@) matches Some(nv)
                ==> final(self)@ == nv),
            (apply_local(old(self)@, *_schema, ccei.id, ccei.message@) is None ==> final(self)@
                == old(self)@),
    {
        match &mut self.content {
            SequenceType::PrimitiveU8(b) => {
                if ccei.id == 0 {
                    match unhex(ccei.message.as_str()) {
                        Some(bytes) => {
                            if bytes.len() == self.len as usize {
                                b.content = bytes;
                                true
                            } else {
                                false
                            }
                        },
                        None => false,
                    }
                } else {
                    false
                }
            },
            SequenceType::Composite(_) => false,
        }
    }
}

impl BitSequenceContent {
    /// Route a bit-sequence event: tag 0 replaces the opaque payload,
    /// given in hexadecimal.
    pub fn handle_event(&mut self, ccei: &CCEI, _schema: &Schema) -> (r: bool)
        ensures
            r == crate::field_content::local_success(old(self)@, *_schema, ccei.id, ccei.message@),
            (apply_local(old(self)@, *_schema, ccei.id, ccei.message@) matches Some(nv)
                ==> final(self)@ == nv),
            (apply_local(old(self)@, *_schema, ccei.id, ccei.message@) is None ==> final(self)@
                == old(self)@),
    {
        if ccei.id == 0 {
            match unhex(ccei.message.as_str()) {
                Some(bytes) => {
                    self.payload = bytes;
                    true
                },
                None => false,
            }
        } else {
            false
        }
    }
}

} // verus!
