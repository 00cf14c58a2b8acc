use amqp_message::annotations::AmqpAnnotationKey;
use amqp_message::annotations::AmqpAnnotations;
use amqp_message::annotations::AmqpApplicationProperties;
use amqp_message::error::AmqpError;
use amqp_message::header::AmqpMessageHeader;
use amqp_message::message::AmqpMessage;
use amqp_message::message::AmqpMessageBody;
use amqp_message::message::AmqpMessageBuilder;
use amqp_message::message_codec::decode;
use amqp_message::message_codec::decode_sections;
use amqp_message::message_codec::encode;
use amqp_message::message_codec::encode_body;
use amqp_message::ordered_map::AmqpOrderedMap;
use amqp_message::properties::AmqpMessageId;
use amqp_message::properties::AmqpMessageProperties;
use amqp_message::value::AmqpValue;

fn text(s: &str) -> String {
    String::from(s)
}

fn len8(n: u8) -> Vec<u8> {
    vec![0, 0, 0, 0, 0, 0, 0, n]
}

fn join(parts: &[&[u8]]) -> Vec<u8> {
    let mut out = Vec::new();
    for p in parts {
        out.extend_from_slice(p);
    }
    out
}

fn annotations() -> AmqpAnnotations {
    AmqpOrderedMap::from_pairs(vec![
        (AmqpAnnotationKey::Symbol(text("x-opt-z")), AmqpValue::UInt(1)),
        (AmqpAnnotationKey::Ulong(4), AmqpValue::String(text("four"))),
        (AmqpAnnotationKey::Symbol(text("x-opt-a")), AmqpValue::Null),
    ])
}

fn application_properties() -> AmqpApplicationProperties {
    AmqpOrderedMap::from_pairs(vec![
        (text("colour"), AmqpValue::String(text("red"))),
        (text("count"), AmqpValue::Long(-3)),
    ])
}

fn properties() -> AmqpMessageProperties {
    AmqpMessageProperties {
        message_id: Some(AmqpMessageId::String(text("id-1"))),
        subject: Some(text("subject")),
        content_type: Some(text("application/octet-stream")),
        creation_time: Some(1_700_000_000_000),
        group_sequence: Some(2),
        ..AmqpMessageProperties::new()
    }
}

fn full_builder() -> AmqpMessageBuilder {
    AmqpMessage::builder()
        .with_header(AmqpMessageHeader { durable: true, ..AmqpMessageHeader::default() })
        .with_delivery_annotations(annotations())
        .with_message_annotations(AmqpOrderedMap::new())
        .with_properties(properties())
        .with_application_properties(application_properties())
        .with_footer(AmqpOrderedMap::from_pairs(vec![(
            AmqpAnnotationKey::Ulong(1),
            AmqpValue::Binary(vec![0xde, 0xad]),
        )]))
}

fn round_trip(m: &AmqpMessage) -> AmqpMessage {
    decode(&encode(m)).unwrap()
}

#[test]
fn the_empty_message_has_nothing() {
    let m = AmqpMessage::default();
    assert_eq!(m.header(), None);
    assert_eq!(m.delivery_annotations(), None);
    assert_eq!(m.message_annotations(), None);
    assert_eq!(m.properties(), None);
    assert_eq!(m.application_properties(), None);
    assert_eq!(m.footer(), None);
    assert_eq!(*m.body(), AmqpMessageBody::Empty);
    assert_eq!(AmqpMessage::builder().build(), m);
    assert_eq!(AmqpMessageBuilder::new().build(), m);
}

#[test]
fn the_empty_message_is_no_bytes() {
    let m = AmqpMessage::default();
    assert_eq!(encode(&m), Vec::<u8>::new());
    assert_eq!(decode(&[]), Ok(AmqpMessage::default()));
    assert_eq!(round_trip(&m), m);
}

#[test]
fn the_builder_sets_each_section() {
    let m = full_builder().build();
    assert_eq!(m.header().map(|h| h.durable), Some(true));
    assert_eq!(m.delivery_annotations(), Some(&annotations()));
    assert_eq!(m.message_annotations().map(|a| a.len()), Some(0));
    assert_eq!(m.properties(), Some(&properties()));
    assert_eq!(m.application_properties(), Some(&application_properties()));
    assert_eq!(m.footer().map(|f| f.len()), Some(1));
    assert_eq!(*m.body(), AmqpMessageBody::Empty);
}

#[test]
fn a_section_set_again_replaces_the_earlier_one() {
    let m = AmqpMessage::builder()
        .with_header(AmqpMessageHeader { priority: 1, ..AmqpMessageHeader::default() })
        .with_header(AmqpMessageHeader { priority: 2, ..AmqpMessageHeader::default() })
        .with_footer(annotations())
        .with_footer(AmqpOrderedMap::new())
        .build();
    assert_eq!(m.header().map(|h| h.priority), Some(2));
    assert_eq!(m.footer(), Some(&AmqpOrderedMap::new()));
}

#[test]
fn binary_chunks_are_appended_in_order() {
    let b = AmqpMessage::builder()
        .add_message_body_binary(vec![1, 2])
        .unwrap()
        .add_message_body_binary(Vec::new())
        .unwrap()
        .add_message_body_binary(vec![3])
        .unwrap();
    let m = b.build();
    assert_eq!(*m.body(), AmqpMessageBody::Binary(vec![vec![1, 2], vec![], vec![3]]));
}

#[test]
fn list_chunks_are_appended_in_order() {
    let m = AmqpMessage::builder()
        .add_message_body_sequence(vec![AmqpValue::UInt(1)])
        .unwrap()
        .add_message_body_sequence(Vec::new())
        .unwrap()
        .build();
    assert_eq!(*m.body(), AmqpMessageBody::Sequence(vec![vec![AmqpValue::UInt(1)], vec![]]));
}

#[test]
fn a_binary_chunk_after_a_value_body_is_a_variant_conflict() {
    let b = AmqpMessage::builder().with_body(AmqpValue::UInt(5));
    let rejected = b.add_message_body_binary(vec![1]).unwrap_err();
    assert_eq!(rejected.error, AmqpError::VariantConflict);
    assert_eq!(*rejected.builder.build().body(), AmqpMessageBody::Value(AmqpValue::UInt(5)));
}

#[test]
fn chunks_of_two_kinds_are_a_variant_conflict() {
    let binary = AmqpMessage::builder().add_message_body_binary(vec![1]).unwrap();
    let rejected = binary.add_message_body_sequence(vec![AmqpValue::Null]).unwrap_err();
    assert_eq!(rejected.error, AmqpError::VariantConflict);
    assert_eq!(*rejected.builder.build().body(), AmqpMessageBody::Binary(vec![vec![1]]));
    let sequence = AmqpMessage::builder().add_message_body_sequence(vec![AmqpValue::Null]).unwrap();
    let rejected = sequence.add_message_body_binary(vec![1]).unwrap_err();
    assert_eq!(rejected.error, AmqpError::VariantConflict);
    let value = AmqpMessage::builder().with_body(AmqpValue::Null);
    let rejected = value.add_message_body_sequence(Vec::new()).unwrap_err();
    assert_eq!(rejected.error, AmqpError::VariantConflict);
}

#[test]
fn a_refused_builder_can_be_used_further() {
    let b = full_builder().with_body(AmqpValue::Boolean(true));
    let rejected = b.add_message_body_binary(vec![1]).unwrap_err();
    let m = rejected.builder.with_body(AmqpValue::Boolean(false)).build();
    assert_eq!(*m.body(), AmqpMessageBody::Value(AmqpValue::Boolean(false)));
    assert_eq!(m.properties(), Some(&properties()));
}

#[test]
fn a_value_body_replaces_whatever_the_body_was() {
    let m = AmqpMessage::builder()
        .add_message_body_binary(vec![1])
        .unwrap()
        .with_body(AmqpValue::String(text("now a value")))
        .with_body(AmqpValue::String(text("and another")))
        .build();
    assert_eq!(*m.body(), AmqpMessageBody::Value(AmqpValue::String(text("and another"))));
}

#[test]
fn a_header_alone_is_one_section() {
    let m = AmqpMessage::builder().with_header(AmqpMessageHeader::default()).build();
    let expected = join(&[
        &[0x00, 0x53, 0x70],
        &[0xd0],
        &len8(5),
        &[0x42, 0x50, 4, 0x40, 0x42, 0x70, 0, 0, 0, 0],
    ]);
    assert_eq!(encode(&m), expected);
    assert_eq!(decode(&expected), Ok(m));
}

#[test]
fn sections_are_written_in_their_order() {
    let m = AmqpMessage::builder()
        .with_footer(AmqpOrderedMap::new())
        .add_message_body_binary(vec![7])
        .unwrap()
        .add_message_body_binary(vec![8, 9])
        .unwrap()
        .with_application_properties(AmqpOrderedMap::new())
        .with_message_annotations(AmqpOrderedMap::from_pairs(vec![(
            AmqpAnnotationKey::Ulong(1),
            AmqpValue::Null,
        )]))
        .build();
    let expected = join(&[
        &[0x00, 0x53, 0x72, 0xd1],
        &len8(1),
        &[0x80, 0, 0, 0, 0, 0, 0, 0, 1, 0x40],
        &[0x00, 0x53, 0x74, 0xd1],
        &len8(0),
        &[0x00, 0x53, 0x75, 0xb0],
        &len8(1),
        &[7],
        &[0x00, 0x53, 0x75, 0xb0],
        &len8(2),
        &[8, 9],
        &[0x00, 0x53, 0x78, 0xd1],
        &len8(0),
    ]);
    assert_eq!(encode(&m), expected);
    assert_eq!(decode(&expected), Ok(m));
}

#[test]
fn a_full_message_survives_the_round_trip() {
    let binary = full_builder()
        .add_message_body_binary(vec![1, 2, 3])
        .unwrap()
        .add_message_body_binary(Vec::new())
        .unwrap()
        .build();
    assert_eq!(round_trip(&binary), binary);
    let sequence = full_builder()
        .add_message_body_sequence(vec![AmqpValue::UInt(1), AmqpValue::String(text("two"))])
        .unwrap()
        .add_message_body_sequence(Vec::new())
        .unwrap()
        .build();
    assert_eq!(round_trip(&sequence), sequence);
    let value = full_builder()
        .with_body(AmqpValue::Dict(AmqpOrderedMap::from_pairs(vec![(
            AmqpValue::Symbol(text("k")),
            AmqpValue::List(vec![AmqpValue::Byte(-1)]),
        )])))
        .build();
    assert_eq!(round_trip(&value), value);
    let empty = full_builder().build();
    assert_eq!(round_trip(&empty), empty);
}

#[test]
fn encoding_is_deterministic_and_keeps_the_order_of_entries() {
    let a = full_builder().with_body(AmqpValue::Null).build();
    let b = full_builder().with_body(AmqpValue::Null).build();
    assert_eq!(encode(&a), encode(&b));
    let ab = AmqpMessage::builder()
        .with_application_properties(AmqpOrderedMap::from_pairs(vec![
            (text("a"), AmqpValue::Null),
            (text("b"), AmqpValue::Null),
        ]))
        .build();
    let ba = AmqpMessage::builder()
        .with_application_properties(AmqpOrderedMap::from_pairs(vec![
            (text("b"), AmqpValue::Null),
            (text("a"), AmqpValue::Null),
        ]))
        .build();
    assert_ne!(encode(&ab), encode(&ba));
    assert_eq!(round_trip(&ab), ab);
    assert_eq!(round_trip(&ba), ba);
}

#[test]
fn an_absent_section_is_not_an_empty_one() {
    let absent = AmqpMessage::builder().build();
    let empty = AmqpMessage::builder().with_delivery_annotations(AmqpOrderedMap::new()).build();
    assert_eq!(absent.delivery_annotations(), None);
    assert_eq!(empty.delivery_annotations(), Some(&AmqpOrderedMap::new()));
    assert_ne!(encode(&absent), encode(&empty));
    assert_eq!(round_trip(&absent).delivery_annotations(), None);
    assert_eq!(round_trip(&empty).delivery_annotations(), Some(&AmqpOrderedMap::new()));
    let each = [
        AmqpMessage::builder().with_message_annotations(AmqpOrderedMap::new()).build(),
        AmqpMessage::builder().with_application_properties(AmqpOrderedMap::new()).build(),
        AmqpMessage::builder().with_footer(AmqpOrderedMap::new()).build(),
    ];
    for m in each.iter() {
        assert_ne!(*m, absent);
        assert_eq!(round_trip(m), *m);
    }
}

#[test]
fn a_cut_inside_a_section_is_a_decode_failure() {
    let m = full_builder().add_message_body_binary(vec![1, 2, 3]).unwrap().build();
    let bytes = encode(&m);
    let sections = decode_sections(&bytes).unwrap();
    assert_eq!(sections.len(), 7);
    let mut whole = 0;
    for cut in 0..bytes.len() {
        match decode(&bytes[..cut]) {
            Ok(_) => whole += 1,
            Err(e) => assert_eq!(e, AmqpError::DecodeFailure),
        }
    }
    // the cuts that decode are those between two sections
    assert_eq!(whole, 7);
}

#[test]
fn corrupted_bytes_are_a_decode_failure() {
    let m = full_builder().with_body(AmqpValue::UInt(1)).build();
    let bytes = encode(&m);
    let mut first = bytes.clone();
    first[0] = 0x01;
    assert_eq!(decode(&first), Err(AmqpError::DecodeFailure));
    let mut second = bytes.clone();
    second[1] = 0x80;
    assert_eq!(decode(&second), Err(AmqpError::DecodeFailure));
    let mut code = bytes.clone();
    code[2] = 0x79;
    assert_eq!(decode(&code), Err(AmqpError::DecodeFailure));
    let mut trailing = bytes.clone();
    trailing.push(0x40);
    assert_eq!(decode(&trailing), Err(AmqpError::DecodeFailure));
    assert_eq!(decode(&[0x40]), Err(AmqpError::DecodeFailure));
    assert_eq!(decode(&[0x00, 0x53]), Err(AmqpError::DecodeFailure));
    assert_eq!(decode(&[0x00, 0x53, 0x77]), Err(AmqpError::DecodeFailure));
}

#[test]
fn sections_out_of_order_or_twice_are_a_decode_failure() {
    let header = encode(&AmqpMessage::builder().with_header(AmqpMessageHeader::default()).build());
    let footer = encode(&AmqpMessage::builder().with_footer(AmqpOrderedMap::new()).build());
    let value = encode(&AmqpMessage::builder().with_body(AmqpValue::Null).build());
    let data = encode(&AmqpMessage::builder().add_message_body_binary(vec![1]).unwrap().build());
    let sequence =
        encode(&AmqpMessage::builder().add_message_body_sequence(Vec::new()).unwrap().build());
    assert!(decode(&join(&[&header, &value, &footer])).is_ok());
    assert!(decode(&join(&[&header, &data, &data, &footer])).is_ok());
    assert!(decode(&join(&[&sequence, &sequence])).is_ok());
    assert_eq!(decode(&join(&[&footer, &header])), Err(AmqpError::DecodeFailure));
    assert_eq!(decode(&join(&[&header, &header])), Err(AmqpError::DecodeFailure));
    assert_eq!(decode(&join(&[&value, &value])), Err(AmqpError::DecodeFailure));
    assert_eq!(decode(&join(&[&data, &sequence])), Err(AmqpError::DecodeFailure));
    assert_eq!(decode(&join(&[&data, &value])), Err(AmqpError::DecodeFailure));
    assert_eq!(decode(&join(&[&value, &data])), Err(AmqpError::DecodeFailure));
    assert_eq!(decode(&join(&[&footer, &footer])), Err(AmqpError::DecodeFailure));
}

#[test]
fn a_section_of_the_wrong_shape_is_a_decode_failure() {
    let null_header = [0x00, 0x53, 0x70, 0x40];
    assert_eq!(decode(&null_header), Err(AmqpError::DecodeFailure));
    let list_annotations = join(&[&[0x00, 0x53, 0x71, 0xd0], &len8(0)]);
    assert_eq!(decode(&list_annotations), Err(AmqpError::DecodeFailure));
    let text_key_footer = join(&[&[0x00, 0x53, 0x78, 0xd1], &len8(1), &[0xb1], &len8(1), b"k", &[0x40]]);
    assert_eq!(decode(&text_key_footer), Err(AmqpError::DecodeFailure));
    let symbol_key_properties =
        join(&[&[0x00, 0x53, 0x74, 0xd1], &len8(1), &[0xb3], &len8(1), b"k", &[0x40]]);
    assert_eq!(decode(&symbol_key_properties), Err(AmqpError::DecodeFailure));
    let text_key_properties =
        join(&[&[0x00, 0x53, 0x74, 0xd1], &len8(1), &[0xb1], &len8(1), b"k", &[0x40]]);
    assert!(decode(&text_key_properties).is_ok());
    let list_data = join(&[&[0x00, 0x53, 0x75, 0xd0], &len8(0)]);
    assert_eq!(decode(&list_data), Err(AmqpError::DecodeFailure));
    let binary_sequence = join(&[&[0x00, 0x53, 0x76, 0xb0], &len8(0)]);
    assert_eq!(decode(&binary_sequence), Err(AmqpError::DecodeFailure));
    let short_properties = join(&[&[0x00, 0x53, 0x73, 0xd0], &len8(1), &[0x40]]);
    assert_eq!(decode(&short_properties), Err(AmqpError::DecodeFailure));
}

#[test]
fn a_body_is_written_section_by_section() {
    let mut out = vec![0xee];
    encode_body(&AmqpMessageBody::Empty, &mut out);
    assert_eq!(out, vec![0xee]);
    encode_body(&AmqpMessageBody::Value(AmqpValue::Boolean(true)), &mut out);
    assert_eq!(out, vec![0xee, 0x00, 0x53, 0x77, 0x41]);
    let mut lists = Vec::new();
    encode_body(&AmqpMessageBody::Sequence(vec![vec![AmqpValue::Null]]), &mut lists);
    assert_eq!(lists, join(&[&[0x00, 0x53, 0x76, 0xd0], &len8(1), &[0x40]]));
}
