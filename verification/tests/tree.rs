//! The schema-driven tree: selection, path-addressed editing, and the
//! canonical encoding, exercised over a small hand-built schema.

use extrinsic_builder::call_constructor::CallConstructor;
use extrinsic_builder::field_content::pallet_call::PalletCall;
use extrinsic_builder::field_content::sequence::{SequenceU8, StringInputMode};
use extrinsic_builder::field_content::FieldContent;
use extrinsic_builder::messaging::{CCEI, CallConstructorEvent};
use extrinsic_builder::schema::{ExtensionDef, ExtrinsicDef, FieldDef, PalletDef, PrimitiveKind,
    Schema, TypeDescriptor, TypeEntry, TypeParam, VariantDef};
use parity_scale_codec::Encode;

fn entry(def: TypeDescriptor) -> TypeEntry {
    TypeEntry { params: Vec::new(), def }
}

fn field(name: Option<&str>, ty: u32) -> FieldDef {
    FieldDef { name: name.map(|s| s.to_string()), ty }
}

fn schema() -> Schema {
    let types = vec![
        // 0
        entry(TypeDescriptor::Primitive(PrimitiveKind::U8)),
        // 1: a 32-byte account id
        entry(TypeDescriptor::Array(0, 32)),
        // 2: a compact balance
        entry(TypeDescriptor::Compact(3)),
        // 3
        entry(TypeDescriptor::Primitive(PrimitiveKind::U128)),
        // 4: the Balances call enum
        entry(TypeDescriptor::Variant(vec![VariantDef {
            index: 0,
            name: "transfer".to_string(),
            fields: vec![field(Some("dest"), 1), field(Some("value"), 2)],
            docs: vec!["Transfer some balance.".to_string()],
        }])),
        // 5: the extrinsic type, carrying the Call parameter
        TypeEntry {
            params: vec![TypeParam { name: "Call".to_string(), ty: Some(6) }],
            def: TypeDescriptor::Composite(Vec::new()),
        },
        // 6: the runtime call enum
        entry(TypeDescriptor::Variant(vec![VariantDef {
            index: 0,
            name: "noop".to_string(),
            fields: Vec::new(),
            docs: Vec::new(),
        }])),
        // 7: a nonce
        entry(TypeDescriptor::Primitive(PrimitiveKind::U32)),
        // 8: a block hash
        entry(TypeDescriptor::Array(0, 32)),
        // 9: a byte sequence
        entry(TypeDescriptor::Sequence(0)),
        // 10
        entry(TypeDescriptor::Primitive(PrimitiveKind::U16)),
        // 11
        entry(TypeDescriptor::Primitive(PrimitiveKind::Bool)),
        // 12
        entry(TypeDescriptor::Primitive(PrimitiveKind::Str)),
        // 13
        entry(TypeDescriptor::Primitive(PrimitiveKind::I8)),
        // 14: a variant whose options declare different field counts
        entry(TypeDescriptor::Variant(vec![
            VariantDef {
                index: 0,
                name: "wide".to_string(),
                fields: vec![field(None, 0), field(None, 0)],
                docs: Vec::new(),
            },
            VariantDef {
                index: 1,
                name: "narrow".to_string(),
                fields: vec![field(None, 0)],
                docs: Vec::new(),
            },
        ])),
        // 15: a structured sequence of u16
        entry(TypeDescriptor::Sequence(10)),
        // 16
        entry(TypeDescriptor::Primitive(PrimitiveKind::Char)),
        // 17: a compact over the byte primitive, capped at one byte
        entry(TypeDescriptor::Compact(0)),
        // 18: a pair of u16 and bool
        entry(TypeDescriptor::Tuple(vec![10, 11])),
        // 19: a packed bitfield
        entry(TypeDescriptor::BitSequence),
        // 20: a compact over an aggregate, capped at thirty-two bytes
        entry(TypeDescriptor::Compact(18)),
        // 21: a compact over u16, capped at that width
        entry(TypeDescriptor::Compact(10)),
        // 22
        entry(TypeDescriptor::Primitive(PrimitiveKind::U256)),
        // 23
        entry(TypeDescriptor::Primitive(PrimitiveKind::I256)),
    ];
    Schema {
        types,
        pallets: vec![PalletDef { index: 3, name: "Balances".to_string(), calls: Some(4) }],
        extrinsic: ExtrinsicDef {
            ty: 5,
            version: 4,
            extensions: vec![ExtensionDef {
                identifier: "CheckNonce".to_string(),
                ty: 7,
                additional: 8,
            }],
        },
    }
}

fn ev(id: usize, message: &str) -> CCEI {
    CCEI { id, message: message.to_string() }
}

fn cc_event(index: Vec<usize>, id: usize, message: &str) -> CallConstructorEvent {
    CallConstructorEvent { index, ccei: ev(id, message) }
}

#[test]
fn pallet_then_call_selection_builds_and_encodes_the_transfer() {
    let s = schema();
    let mut pc = PalletCall::new();
    pc.set_pallet(3, &s);
    pc.set_call(0, &s);
    assert_eq!(pc.fields.len(), 2);

    let mut root = FieldContent::PalletCall(pc);
    let addr_hex = "11".repeat(32);
    assert!(root.handle_event_at(&vec![0], 0, &ev(0, &addr_hex), &s));
    assert!(root.handle_event_at(&vec![1], 0, &ev(0, "1000"), &s));

    let mut expected = vec![3u8, 0u8];
    expected.extend_from_slice(&[0x11; 32]);
    expected.extend_from_slice(&[0xa1, 0x0f]);
    assert_eq!(root.encoded(&s), expected);
}

#[test]
fn selector_events_route_through_the_node_event_interface() {
    let s = schema();
    let mut root = FieldContent::PalletCall(PalletCall::new());
    assert!(root.handle_event(&ev(0, "3"), &s));
    assert!(root.handle_event(&ev(1, "0"), &s));
    match &root {
        FieldContent::PalletCall(pc) => {
            assert_eq!(pc.call, Some(0));
            assert_eq!(pc.fields.len(), 2);
        },
        _ => panic!("selector kind changed"),
    }
    // an unknown selector tag and an unparsable payload are refused and
    // change nothing
    assert!(!root.handle_event(&ev(7, "3"), &s));
    assert!(!root.handle_event(&ev(0, "many"), &s));
    match &root {
        FieldContent::PalletCall(pc) => assert_eq!(pc.call, Some(0)),
        _ => panic!("selector kind changed"),
    }
    // an index that names no pallet clears the selection but fails
    assert!(!root.handle_event(&ev(0, "9"), &s));
    match &root {
        FieldContent::PalletCall(pc) => {
            assert!(pc.pallet.is_none());
            assert_eq!(pc.call, None);
            assert_eq!(pc.fields.len(), 0);
        },
        _ => panic!("selector kind changed"),
    }
}

#[test]
fn extension_content_encodes_and_additional_stays_off_the_wire() {
    let s = schema();
    let mut cc = CallConstructor::new(s);
    // choose the lone runtime call
    assert!(cc.handle_event(&cc_event(vec![0, 0], 0, "0")));
    // a 4-byte nonce of 7 in extension content
    assert!(cc.handle_event(&cc_event(vec![1, 0, 0], 0, "7")));
    // a block hash in the additional tree
    let hash_hex = "22".repeat(32);
    assert!(cc.handle_event(&cc_event(vec![1, 0, 1], 0, &hash_hex)));

    let enc = cc.encoded();
    assert_eq!(enc, vec![4u8, 0, 7, 0, 0, 0]);
    assert_eq!(enc.len(), 1 + 1 + 4);
    assert_eq!(cc.encoded_call(), vec![0u8]);

    let mut payload = vec![7u8, 0, 0, 0];
    payload.extend_from_slice(&[0x22; 32]);
    assert_eq!(cc.encoded_extensions(), payload);
}

#[test]
fn invalid_paths_change_nothing_and_report_failure() {
    let s = schema();
    let mut cc = CallConstructor::new(s);
    assert!(cc.handle_event(&cc_event(vec![0, 0], 0, "0")));
    assert!(cc.handle_event(&cc_event(vec![1, 0, 0], 0, "7")));
    let before = cc.encoded();

    assert!(!cc.handle_event(&cc_event(vec![], 0, "0")));
    assert!(!cc.handle_event(&cc_event(vec![2], 0, "0")));
    assert!(!cc.handle_event(&cc_event(vec![0, 5], 0, "0")));
    assert!(!cc.handle_event(&cc_event(vec![0, 0, 0], 0, "0")));
    assert!(!cc.handle_event(&cc_event(vec![1, 9, 0], 0, "0")));
    assert!(!cc.handle_event(&cc_event(vec![1, 0, 7], 0, "0")));
    assert!(!cc.handle_event(&cc_event(vec![1, 0], 0, "0")));
    assert!(!cc.handle_event(&cc_event(vec![0, 0], 9, "0")));
    assert!(!cc.handle_event(&cc_event(vec![0, 0], 0, "junk")));

    assert_eq!(cc.encoded(), before);
}

#[test]
fn variant_reselection_rebuilds_children_from_the_schema_alone() {
    let s = schema();
    let mut root = FieldContent::new(Some(14), None, &s);
    // choose the two-field option and fill one child in
    assert!(root.handle_event(&ev(0, "0"), &s));
    match &root {
        FieldContent::Variant(v) => assert_eq!(v.fields.len(), 2),
        _ => panic!("expected a variant node"),
    }
    assert!(root.handle_event_at(&vec![0], 0, &ev(0, "9"), &s));
    assert_eq!(root.encoded(&s), vec![0u8, 9, 0]);

    // re-selecting discards the prior children wholesale
    assert!(root.handle_event(&ev(0, "1"), &s));
    match &root {
        FieldContent::Variant(v) => assert_eq!(v.fields.len(), 1),
        _ => panic!("expected a variant node"),
    }
    assert_eq!(root.encoded(&s), vec![1u8, 0]);

    // an undeclared discriminant clears the selection and reports failure
    assert!(!root.handle_event(&ev(0, "9"), &s));
    match &root {
        FieldContent::Variant(v) => {
            assert_eq!(v.selected, None);
            assert_eq!(v.fields.len(), 0);
        },
        _ => panic!("expected a variant node"),
    }
    assert_eq!(root.encoded(&s), Vec::<u8>::new());
}

#[test]
fn primitives_encode_little_endian_and_match_the_reference_codec() {
    let s = schema();

    let mut u16node = FieldContent::new(Some(10), None, &s);
    assert!(u16node.handle_event(&ev(0, "0x1234"), &s));
    assert_eq!(u16node.encoded(&s), vec![0x34, 0x12]);
    assert_eq!(u16node.encoded(&s), 0x1234u16.encode());

    let mut boolnode = FieldContent::new(Some(11), None, &s);
    assert!(boolnode.handle_event(&ev(0, "true"), &s));
    assert_eq!(boolnode.encoded(&s), vec![1u8]);
    assert!(!boolnode.handle_event(&ev(0, "maybe"), &s));
    assert_eq!(boolnode.encoded(&s), vec![1u8]);
    assert!(boolnode.handle_event(&ev(0, "false"), &s));
    assert_eq!(boolnode.encoded(&s), vec![0u8]);

    let mut strnode = FieldContent::new(Some(12), None, &s);
    assert!(strnode.handle_event(&ev(0, "hi"), &s));
    assert_eq!(strnode.encoded(&s), "hi".to_string().encode());

    let mut i8node = FieldContent::new(Some(13), None, &s);
    assert!(i8node.handle_event(&ev(0, "-1"), &s));
    assert_eq!(i8node.encoded(&s), (-1i8).encode());
    assert!(!i8node.handle_event(&ev(0, "128"), &s));

    let mut charnode = FieldContent::new(Some(16), None, &s);
    assert!(charnode.handle_event(&ev(0, "\u{e9}"), &s));
    assert_eq!(charnode.encoded(&s), vec![0xc3, 0xa9]);
    assert!(!charnode.handle_event(&ev(0, "ab"), &s));
}

#[test]
fn byte_sequences_take_text_or_hex_and_length_prefix_their_bytes() {
    let s = schema();
    let mut node = FieldContent::new(Some(9), None, &s);
    assert!(node.handle_event(&ev(0, "abc"), &s));
    assert_eq!(node.encoded(&s), b"abc".to_vec().encode());

    assert!(node.handle_event(&ev(3, "hex"), &s));
    assert!(node.handle_event(&ev(0, "0x010203"), &s));
    assert_eq!(node.encoded(&s), vec![0x0c, 1, 2, 3]);

    assert!(!node.handle_event(&ev(0, "junk"), &s));
    assert_eq!(node.encoded(&s), vec![0x0c, 1, 2, 3]);

    // element events are refused on byte buffers
    assert!(!node.handle_event(&ev(1, ""), &s));
    assert!(!node.handle_event(&ev(2, "0"), &s));
}

#[test]
fn structured_sequences_append_and_remove_elements() {
    let s = schema();
    let mut node = FieldContent::new(Some(15), None, &s);
    assert!(node.handle_event(&ev(1, ""), &s));
    assert!(node.handle_event(&ev(1, ""), &s));
    assert!(node.handle_event_at(&vec![0], 0, &ev(0, "5"), &s));
    assert!(node.handle_event_at(&vec![1], 0, &ev(0, "6"), &s));
    assert_eq!(node.encoded(&s), vec![5u16, 6].encode());

    assert!(node.handle_event(&ev(2, "0"), &s));
    assert_eq!(node.encoded(&s), vec![6u16].encode());
    assert!(!node.handle_event(&ev(2, "5"), &s));
    // byte events are refused on structured sequences
    assert!(!node.handle_event(&ev(0, "abc"), &s));
}

#[test]
fn byte_arrays_demand_their_exact_width() {
    let s = schema();
    let mut node = FieldContent::new(Some(1), None, &s);
    assert_eq!(node.encoded(&s), vec![0u8; 32]);
    assert!(!node.handle_event(&ev(0, "1122"), &s));
    let full = "ab".repeat(32);
    assert!(node.handle_event(&ev(0, &full), &s));
    assert_eq!(node.encoded(&s), vec![0xab; 32]);
}

#[test]
fn unresolved_types_become_error_nodes_that_encode_nothing() {
    let s = schema();
    let node = FieldContent::new(Some(99), None, &s);
    assert!(matches!(node, FieldContent::Error(_)));
    assert_eq!(node.encoded(&s), Vec::<u8>::new());
}

#[test]
fn byte_buffers_show_their_content_in_both_modes() {
    let utf = SequenceU8 { content: b"hello".to_vec(), input_mode: StringInputMode::UTF };
    assert_eq!(utf.show(), "hello".to_string());
    let hex = SequenceU8 { content: vec![0x01, 0x02], input_mode: StringInputMode::Hex };
    assert_eq!(hex.show(), "0102".to_string());
    let bad = SequenceU8 { content: vec![0xff, 0xfe], input_mode: StringInputMode::UTF };
    assert_eq!(bad.show(), "error".to_string());
}

#[test]
fn cards_carry_addressable_paths_and_options() {
    let s = schema();
    let cc = CallConstructor::new(s);
    let cards = cc.get_cards();
    assert!(!cards.is_empty());
    for card in &cards {
        assert_eq!(card.path[0], 0);
    }
    let ext_cards = cc.get_extension_cards();
    assert!(!ext_cards.is_empty());
    for card in &ext_cards {
        assert_eq!(card.path[0], 1);
    }
    let add_cards = cc.get_extension_additional_cards();
    for card in &add_cards {
        assert_eq!(card.path[0], 1);
        assert_eq!(card.path[2], 1);
    }
    // the pallet selector card lists the declared pallet
    let s2 = schema();
    let root = FieldContent::PalletCall(PalletCall::new());
    let pc_cards = root.get_cards(vec![0], &s2);
    assert_eq!(pc_cards[0].options.len(), 1);
    assert_eq!(pc_cards[0].options[0], (3u8, "Balances".to_string()));
}

#[test]
fn completeness_is_flagged_not_assumed() {
    let s = schema();
    let mut cc = CallConstructor::new(s);
    // the call variant is still unselected
    assert!(!cc.is_complete());
    assert!(cc.handle_event(&cc_event(vec![0, 0], 0, "0")));
    assert!(cc.is_complete());

    let s2 = schema();
    let err = FieldContent::new(Some(99), None, &s2);
    assert!(!err.is_complete());
    let fresh_variant = FieldContent::new(Some(14), None, &s2);
    assert!(!fresh_variant.is_complete());
}

#[test]
fn compact_nodes_respect_their_byte_cap() {
    let s = schema();
    let mut wide = FieldContent::new(Some(2), None, &s);
    assert!(wide.handle_event(&ev(0, "123456789"), &s));
    assert_eq!(wide.encoded(&s), parity_scale_codec::Compact(123456789u128).encode());

    let mut narrow = FieldContent::new(Some(17), None, &s);
    assert!(narrow.handle_event(&ev(0, "255"), &s));
    assert_eq!(narrow.encoded(&s), parity_scale_codec::Compact(255u8).encode());
    // a magnitude needing two bytes exceeds the one-byte cap
    assert!(!narrow.handle_event(&ev(0, "256"), &s));
    assert_eq!(narrow.encoded(&s), parity_scale_codec::Compact(255u8).encode());
}

#[test]
fn call_options_come_from_the_selected_pallet() {
    let s = schema();
    let mut pc = PalletCall::new();
    assert_eq!(pc.get_pallets(&s), vec![(3u8, "Balances".to_string())]);
    assert!(pc.get_calls(&s).is_empty());
    pc.set_pallet(3, &s);
    assert_eq!(pc.get_calls(&s), vec![(0u8, "transfer".to_string())]);
    pc.set_pallet(9, &s);
    assert!(pc.pallet.is_none());
    assert!(pc.get_calls(&s).is_empty());
}

#[test]
fn tuples_concatenate_their_members() {
    let s = schema();
    let mut node = FieldContent::new(Some(18), None, &s);
    assert!(node.handle_event_at(&vec![0], 0, &ev(0, "513"), &s));
    assert!(node.handle_event_at(&vec![1], 0, &ev(0, "true"), &s));
    assert_eq!(node.encoded(&s), (513u16, true).encode());
}

#[test]
fn bit_sequences_carry_a_length_prefixed_opaque_payload() {
    let s = schema();
    let mut node = FieldContent::new(Some(19), None, &s);
    assert_eq!(node.encoded(&s), vec![0u8]);
    assert!(node.handle_event(&ev(0, "0xaabb"), &s));
    assert_eq!(node.encoded(&s), vec![0x08, 0xaa, 0xbb]);
    assert!(!node.handle_event(&ev(0, "zz"), &s));
}

#[test]
fn compact_caps_follow_the_inner_primitive_width() {
    let s = schema();
    let mut narrow = FieldContent::new(Some(21), None, &s);
    assert!(narrow.handle_event(&ev(0, "65535"), &s));
    assert_eq!(narrow.encoded(&s), parity_scale_codec::Compact(65535u16).encode());
    // a magnitude needing three bytes exceeds the two-byte u16 cap
    assert!(!narrow.handle_event(&ev(0, "65536"), &s));
    assert_eq!(narrow.encoded(&s), parity_scale_codec::Compact(65535u16).encode());
}

#[test]
fn wide_magnitudes_come_in_through_hexadecimal() {
    let s = schema();
    // 2^128 does not fit a machine double word, but hex text carries it
    let big = "0x0100000000000000000000000000000000";
    let mut compact = FieldContent::new(Some(20), None, &s);
    assert!(compact.handle_event(&ev(0, big), &s));
    let mut expected = vec![(17u8 - 4) * 4 + 3];
    expected.extend_from_slice(&[0u8; 16]);
    expected.push(1);
    assert_eq!(compact.encoded(&s), expected);
    // decimal text stays within 128 bits
    assert!(!compact.handle_event(&ev(0, "340282366920938463463374607431768211456"), &s));

    let mut wide = FieldContent::new(Some(22), None, &s);
    assert!(wide.handle_event(&ev(0, big), &s));
    let mut le = vec![0u8; 16];
    le.push(1);
    le.extend_from_slice(&[0u8; 15]);
    assert_eq!(wide.encoded(&s), le);
    // a magnitude of thirty-three bytes overflows the leaf
    let over = format!("0x01{}", "00".repeat(32));
    assert!(!wide.handle_event(&ev(0, &over), &s));
    assert_eq!(wide.encoded(&s), le);
}

#[test]
fn signed_256_bit_leaves_hold_twos_complement() {
    let s = schema();
    let mut node = FieldContent::new(Some(23), None, &s);
    assert!(node.handle_event(&ev(0, "-1"), &s));
    assert_eq!(node.encoded(&s), vec![0xff; 32]);
    assert!(node.handle_event(&ev(0, "-2"), &s));
    let mut minus_two = vec![0xfe_u8];
    minus_two.extend_from_slice(&[0xff; 31]);
    assert_eq!(node.encoded(&s), minus_two);
    // a negative magnitude beyond 128 bits, in hexadecimal
    assert!(node.handle_event(&ev(0, "-0x0100000000000000000000000000000000"), &s));
    let mut wide_neg = vec![0u8; 16];
    wide_neg.push(0xff);
    wide_neg.extend_from_slice(&[0xff; 15]);
    assert_eq!(node.encoded(&s), wide_neg);
    assert!(node.handle_event(&ev(0, "7"), &s));
    let mut seven = vec![7u8];
    seven.extend_from_slice(&[0u8; 31]);
    assert_eq!(node.encoded(&s), seven);
    // the most negative 256-bit value has no positive mirror and is refused
    let edge = format!("-0x80{}", "00".repeat(31));
    assert!(!node.handle_event(&ev(0, &edge), &s));
    assert_eq!(node.encoded(&s), seven);
}
