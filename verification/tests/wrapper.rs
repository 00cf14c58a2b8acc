use amqp_message::error::AmqpError;
use amqp_message::header::AmqpMessageHeader;
use amqp_message::message::AmqpMessage;
use amqp_message::message::AmqpMessageBody;
use amqp_message::message::AmqpMessageBodyType;
use amqp_message::message_codec::encode;
use amqp_message::ordered_map::AmqpOrderedMap;
use amqp_message::properties::AmqpMessageProperties;
use amqp_message::value::AmqpValue;
use amqp_message::wrapper::message_create;
use amqp_message::wrapper::message_deserialize;
use amqp_message::wrapper::message_get_application_properties;
use amqp_message::wrapper::message_get_body_amqp_data_count;
use amqp_message::wrapper::message_get_body_amqp_data_in_place;
use amqp_message::wrapper::message_get_body_amqp_sequence_count;
use amqp_message::wrapper::message_get_body_amqp_sequence_in_place;
use amqp_message::wrapper::message_get_body_amqp_value_in_place;
use amqp_message::wrapper::message_get_body_type;
use amqp_message::wrapper::message_get_delivery_annotations;
use amqp_message::wrapper::message_get_footer;
use amqp_message::wrapper::message_get_header;
use amqp_message::wrapper::message_get_message_annotations;
use amqp_message::wrapper::message_get_properties;
use amqp_message::wrapper::messagebuilder_add_body_amqp_data;
use amqp_message::wrapper::messagebuilder_add_body_amqp_sequence;
use amqp_message::wrapper::messagebuilder_build_and_destroy;
use amqp_message::wrapper::messagebuilder_create;
use amqp_message::wrapper::messagebuilder_set_application_properties;
use amqp_message::wrapper::messagebuilder_set_body_amqp_value;
use amqp_message::wrapper::messagebuilder_set_delivery_annotations;
use amqp_message::wrapper::messagebuilder_set_footer;
use amqp_message::wrapper::messagebuilder_set_header;
use amqp_message::wrapper::messagebuilder_set_message_annotations;
use amqp_message::wrapper::messagebuilder_set_properties;
use amqp_message::wrapper::RustAmqpMessage;

fn text(s: &str) -> String {
    String::from(s)
}

fn map_value(pairs: Vec<(AmqpValue, AmqpValue)>) -> AmqpValue {
    AmqpValue::Dict(AmqpOrderedMap::from_pairs(pairs))
}

fn annotation_value() -> AmqpValue {
    map_value(vec![
        (AmqpValue::Symbol(text("x-b")), AmqpValue::UInt(1)),
        (AmqpValue::ULong(2), AmqpValue::Null),
    ])
}

fn text_keyed_value() -> AmqpValue {
    map_value(vec![
        (AmqpValue::String(text("k2")), AmqpValue::Int(2)),
        (AmqpValue::String(text("k1")), AmqpValue::Int(1)),
    ])
}

#[test]
fn a_created_message_is_empty() {
    let m = message_create();
    assert_eq!(*m.get(), AmqpMessage::default());
    assert_eq!(message_get_header(&m), None);
    assert_eq!(message_get_properties(&m), None);
    assert_eq!(message_get_delivery_annotations(&m), None);
    assert_eq!(message_get_message_annotations(&m), None);
    assert_eq!(message_get_application_properties(&m), None);
    assert_eq!(message_get_footer(&m), None);
    assert_eq!(message_get_body_type(&m), AmqpMessageBodyType::Empty);
}

#[test]
fn a_created_builder_builds_the_empty_message() {
    let m = messagebuilder_build_and_destroy(messagebuilder_create());
    assert_eq!(*m.get(), AmqpMessage::default());
    assert_eq!(encode(m.get()), Vec::<u8>::new());
}

#[test]
fn a_handle_stands_for_its_message() {
    let inner = AmqpMessage::builder().with_body(AmqpValue::UInt(3)).build();
    let m = RustAmqpMessage::from(AmqpMessage::builder().with_body(AmqpValue::UInt(3)).build());
    assert_eq!(*m.get(), inner);
}

#[test]
fn the_header_is_set_and_read() {
    let header = AmqpMessageHeader { priority: 7, time_to_live: Some(10), ..AmqpMessageHeader::default() };
    let b = messagebuilder_set_header(messagebuilder_create(), &AmqpMessageHeader::default());
    let b = messagebuilder_set_header(b, &header);
    let m = messagebuilder_build_and_destroy(b);
    assert_eq!(message_get_header(&m), Some(header));
}

#[test]
fn the_properties_are_set_and_read() {
    let properties = AmqpMessageProperties {
        subject: Some(text("s")),
        user_id: Some(vec![1]),
        ..AmqpMessageProperties::new()
    };
    let b = messagebuilder_set_properties(messagebuilder_create(), &properties);
    let m = messagebuilder_build_and_destroy(b);
    assert_eq!(message_get_properties(&m), Some(properties));
}

#[test]
fn annotations_are_set_from_a_map_value_and_read_as_one() {
    let b = messagebuilder_set_delivery_annotations(messagebuilder_create(), &annotation_value()).unwrap();
    let b = messagebuilder_set_message_annotations(b, &map_value(Vec::new())).unwrap();
    let b = messagebuilder_set_footer(b, &map_value(vec![(AmqpValue::ULong(9), AmqpValue::Boolean(true))]))
        .unwrap();
    let m = messagebuilder_build_and_destroy(b);
    assert_eq!(message_get_delivery_annotations(&m), Some(annotation_value()));
    assert_eq!(message_get_message_annotations(&m), Some(map_value(Vec::new())));
    assert_eq!(
        message_get_footer(&m),
        Some(map_value(vec![(AmqpValue::ULong(9), AmqpValue::Boolean(true))]))
    );
    assert_eq!(message_get_application_properties(&m), None);
}

#[test]
fn application_properties_are_set_from_a_map_value_and_read_as_one() {
    let b = messagebuilder_set_application_properties(messagebuilder_create(), &text_keyed_value()).unwrap();
    let m = messagebuilder_build_and_destroy(b);
    assert_eq!(message_get_application_properties(&m), Some(text_keyed_value()));
    let keys: Vec<String> = m
        .get()
        .application_properties()
        .unwrap()
        .iter()
        .into_iter()
        .map(|(k, _)| k.clone())
        .collect();
    assert_eq!(keys, vec![text("k2"), text("k1")]);
}

#[test]
fn a_value_that_is_no_map_is_refused_as_a_section() {
    let not_a_map = AmqpValue::List(Vec::new());
    let r = messagebuilder_set_delivery_annotations(messagebuilder_create(), &not_a_map).unwrap_err();
    assert_eq!(r.error, AmqpError::MapRequired);
    assert!(r.error.is_shape_violation());
    let r = messagebuilder_set_message_annotations(r.builder, &AmqpValue::Null).unwrap_err();
    assert_eq!(r.error, AmqpError::MapRequired);
    let r = messagebuilder_set_application_properties(r.builder, &AmqpValue::UInt(1)).unwrap_err();
    assert_eq!(r.error, AmqpError::MapRequired);
    let r = messagebuilder_set_footer(r.builder, &AmqpValue::String(text("f"))).unwrap_err();
    assert_eq!(r.error, AmqpError::MapRequired);
    assert_eq!(*messagebuilder_build_and_destroy(r.builder).get(), AmqpMessage::default());
}

#[test]
fn a_key_that_is_not_text_is_refused_and_the_builder_stays_usable() {
    let b = messagebuilder_set_header(messagebuilder_create(), &AmqpMessageHeader::default());
    let b = messagebuilder_set_body_amqp_value(b, &AmqpValue::UInt(1));
    let mixed = map_value(vec![
        (AmqpValue::String(text("fine")), AmqpValue::Null),
        (AmqpValue::ULong(1), AmqpValue::Null),
    ]);
    let r = messagebuilder_set_application_properties(b, &mixed).unwrap_err();
    assert_eq!(r.error, AmqpError::KeyTypeRequired);
    assert!(r.error.is_shape_violation());
    let b = messagebuilder_set_application_properties(r.builder, &text_keyed_value()).unwrap();
    let m = messagebuilder_build_and_destroy(b);
    assert_eq!(message_get_header(&m), Some(AmqpMessageHeader::default()));
    assert_eq!(message_get_body_amqp_value_in_place(&m), Ok(AmqpValue::UInt(1)));
    assert_eq!(message_get_application_properties(&m), Some(text_keyed_value()));
}

#[test]
fn an_annotation_key_of_another_kind_is_refused() {
    let r = messagebuilder_set_delivery_annotations(messagebuilder_create(), &text_keyed_value()).unwrap_err();
    assert_eq!(r.error, AmqpError::KeyTypeRequired);
    let r = messagebuilder_set_message_annotations(r.builder, &text_keyed_value()).unwrap_err();
    assert_eq!(r.error, AmqpError::KeyTypeRequired);
    let r = messagebuilder_set_footer(r.builder, &map_value(vec![(AmqpValue::UInt(1), AmqpValue::Null)]))
        .unwrap_err();
    assert_eq!(r.error, AmqpError::KeyTypeRequired);
    assert_eq!(*messagebuilder_build_and_destroy(r.builder).get(), AmqpMessage::default());
}

#[test]
fn binary_chunks_are_counted_and_read_in_place() {
    let b = messagebuilder_add_body_amqp_data(messagebuilder_create(), &[1, 2, 3]).unwrap();
    let b = messagebuilder_add_body_amqp_data(b, &[]).unwrap();
    let m = messagebuilder_build_and_destroy(b);
    assert_eq!(message_get_body_type(&m), AmqpMessageBodyType::Data);
    assert_eq!(message_get_body_amqp_data_count(&m), Ok(2));
    assert_eq!(message_get_body_amqp_data_in_place(&m, 0), Ok(&vec![1, 2, 3]));
    assert_eq!(message_get_body_amqp_data_in_place(&m, 1), Ok(&Vec::new()));
    assert_eq!(message_get_body_amqp_data_in_place(&m, 2), Err(AmqpError::IndexOutOfRange));
    assert_eq!(message_get_body_amqp_data_in_place(&m, u32::MAX), Err(AmqpError::IndexOutOfRange));
    assert_eq!(message_get_body_amqp_sequence_count(&m), Err(AmqpError::VariantConflict));
    assert_eq!(message_get_body_amqp_sequence_in_place(&m, 0), Err(AmqpError::VariantConflict));
    assert_eq!(message_get_body_amqp_value_in_place(&m), Err(AmqpError::VariantConflict));
}

#[test]
fn list_chunks_are_counted_and_read() {
    let first = AmqpValue::List(vec![AmqpValue::UInt(1), AmqpValue::Null]);
    let b = messagebuilder_add_body_amqp_sequence(messagebuilder_create(), &first).unwrap();
    let b = messagebuilder_add_body_amqp_sequence(b, &AmqpValue::List(Vec::new())).unwrap();
    let m = messagebuilder_build_and_destroy(b);
    assert_eq!(message_get_body_type(&m), AmqpMessageBodyType::Sequence);
    assert_eq!(message_get_body_amqp_sequence_count(&m), Ok(2));
    assert_eq!(message_get_body_amqp_sequence_in_place(&m, 0), Ok(first));
    assert_eq!(message_get_body_amqp_sequence_in_place(&m, 1), Ok(AmqpValue::List(Vec::new())));
    assert_eq!(message_get_body_amqp_sequence_in_place(&m, 2), Err(AmqpError::IndexOutOfRange));
    assert_eq!(message_get_body_amqp_data_count(&m), Err(AmqpError::VariantConflict));
    assert_eq!(message_get_body_amqp_data_in_place(&m, 0), Err(AmqpError::VariantConflict));
    assert_eq!(message_get_body_amqp_value_in_place(&m), Err(AmqpError::VariantConflict));
}

#[test]
fn a_value_body_is_read() {
    let b = messagebuilder_set_body_amqp_value(messagebuilder_create(), &annotation_value());
    let m = messagebuilder_build_and_destroy(b);
    assert_eq!(message_get_body_type(&m), AmqpMessageBodyType::Value);
    assert_eq!(message_get_body_amqp_value_in_place(&m), Ok(annotation_value()));
    assert_eq!(message_get_body_amqp_data_count(&m), Err(AmqpError::VariantConflict));
    assert_eq!(message_get_body_amqp_sequence_count(&m), Err(AmqpError::VariantConflict));
}

#[test]
fn an_empty_body_has_no_count_and_no_value() {
    let m = message_create();
    assert_eq!(message_get_body_amqp_data_count(&m), Err(AmqpError::VariantConflict));
    assert_eq!(message_get_body_amqp_sequence_count(&m), Err(AmqpError::VariantConflict));
    assert_eq!(message_get_body_amqp_data_in_place(&m, 0), Err(AmqpError::VariantConflict));
    assert_eq!(message_get_body_amqp_sequence_in_place(&m, 0), Err(AmqpError::VariantConflict));
    assert_eq!(message_get_body_amqp_value_in_place(&m), Err(AmqpError::VariantConflict));
}

#[test]
fn a_sequence_chunk_must_be_a_list() {
    let r = messagebuilder_add_body_amqp_sequence(messagebuilder_create(), &AmqpValue::UInt(1)).unwrap_err();
    assert_eq!(r.error, AmqpError::ListRequired);
    assert!(r.error.is_shape_violation());
    let b = messagebuilder_add_body_amqp_data(r.builder, &[1]).unwrap();
    let r = messagebuilder_add_body_amqp_sequence(b, &map_value(Vec::new())).unwrap_err();
    assert_eq!(r.error, AmqpError::ListRequired);
    let m = messagebuilder_build_and_destroy(r.builder);
    assert_eq!(message_get_body_amqp_data_count(&m), Ok(1));
}

#[test]
fn set_body_value_then_add_binary_chunk_is_a_variant_conflict() {
    let b = messagebuilder_set_body_amqp_value(messagebuilder_create(), &AmqpValue::UInt(5));
    let r = messagebuilder_add_body_amqp_data(b, &[1, 2]).unwrap_err();
    assert_eq!(r.error, AmqpError::VariantConflict);
    assert!(!r.error.is_shape_violation());
    let m = messagebuilder_build_and_destroy(r.builder);
    assert_eq!(message_get_body_type(&m), AmqpMessageBodyType::Value);
    assert_eq!(message_get_body_amqp_value_in_place(&m), Ok(AmqpValue::UInt(5)));
}

#[test]
fn chunks_of_the_other_kind_are_a_variant_conflict() {
    let b = messagebuilder_add_body_amqp_data(messagebuilder_create(), &[1]).unwrap();
    let r = messagebuilder_add_body_amqp_sequence(b, &AmqpValue::List(Vec::new())).unwrap_err();
    assert_eq!(r.error, AmqpError::VariantConflict);
    let b = messagebuilder_add_body_amqp_sequence(messagebuilder_create(), &AmqpValue::List(Vec::new()))
        .unwrap();
    let r = messagebuilder_add_body_amqp_data(b, &[1]).unwrap_err();
    assert_eq!(r.error, AmqpError::VariantConflict);
    let b = messagebuilder_set_body_amqp_value(r.builder, &AmqpValue::Null);
    let r = messagebuilder_add_body_amqp_sequence(b, &AmqpValue::List(Vec::new())).unwrap_err();
    assert_eq!(r.error, AmqpError::VariantConflict);
}

#[test]
fn a_message_is_deserialized_from_its_encoding() {
    let b = messagebuilder_set_header(messagebuilder_create(), &AmqpMessageHeader::default());
    let b = messagebuilder_set_delivery_annotations(b, &annotation_value()).unwrap();
    let b = messagebuilder_set_application_properties(b, &text_keyed_value()).unwrap();
    let b = messagebuilder_add_body_amqp_data(b, &[9, 8, 7]).unwrap();
    let m = messagebuilder_build_and_destroy(b);
    let bytes = encode(m.get());
    let back = message_deserialize(&bytes).unwrap();
    assert_eq!(*back.get(), *m.get());
    assert_eq!(message_get_delivery_annotations(&back), Some(annotation_value()));
    assert_eq!(message_get_body_amqp_data_in_place(&back, 0), Ok(&vec![9, 8, 7]));
    assert_eq!(*back.get().body(), AmqpMessageBody::Binary(vec![vec![9, 8, 7]]));
}

#[test]
fn bytes_that_are_no_message_are_a_decode_failure() {
    assert_eq!(message_deserialize(&[1, 2, 3]).map(|_| ()), Err(AmqpError::DecodeFailure));
    assert_eq!(message_deserialize(&[0x00, 0x53, 0x70]).map(|_| ()), Err(AmqpError::DecodeFailure));
    assert_eq!(AmqpError::DecodeFailure.code(), 5);
    assert!(message_deserialize(&[]).is_ok());
}

#[test]
fn a_repeated_key_in_a_section_value_keeps_its_place_and_takes_the_last_value() {
    // a map value cannot hold a key twice, so the keys of the section are as
    // many as those of the value, in the same order
    let value = map_value(vec![
        (AmqpValue::String(text("a")), AmqpValue::Int(1)),
        (AmqpValue::String(text("b")), AmqpValue::Int(2)),
        (AmqpValue::String(text("a")), AmqpValue::Int(3)),
    ]);
    let b = messagebuilder_set_application_properties(messagebuilder_create(), &value).unwrap();
    let m = messagebuilder_build_and_destroy(b);
    assert_eq!(
        message_get_application_properties(&m),
        Some(map_value(vec![
            (AmqpValue::String(text("a")), AmqpValue::Int(3)),
            (AmqpValue::String(text("b")), AmqpValue::Int(2)),
        ]))
    );
}
