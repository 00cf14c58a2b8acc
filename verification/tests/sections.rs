use amqp_message::annotations::bytes_before;
use amqp_message::annotations::section_from_value;
use amqp_message::annotations::section_to_value;
use amqp_message::annotations::AmqpAnnotationKey;
use amqp_message::annotations::AmqpAnnotations;
use amqp_message::annotations::AmqpApplicationProperties;
use amqp_message::annotations::SectionKey;
use amqp_message::error::AmqpError;
use amqp_message::header::AmqpMessageHeader;
use amqp_message::header::DEFAULT_PRIORITY;
use amqp_message::ordered_map::AmqpOrderedMap;
use amqp_message::ordered_map::MapKey;
use amqp_message::properties::AmqpMessageId;
use amqp_message::properties::AmqpMessageProperties;
use amqp_message::properties::PROPERTIES_FIELDS;
use amqp_message::value::AmqpValue;

fn text(s: &str) -> String {
    String::from(s)
}

#[test]
fn annotation_keys_are_made_from_codes_and_symbols() {
    assert_eq!(AmqpAnnotationKey::from_ulong(9), AmqpAnnotationKey::Ulong(9));
    assert_eq!(AmqpAnnotationKey::from_symbol(text("s")), AmqpAnnotationKey::Symbol(text("s")));
    let k = AmqpAnnotationKey::from_symbol(text("x-opt"));
    assert_eq!(k.clone(), k);
}

#[test]
fn annotation_keys_are_equal_by_value() {
    let a = AmqpAnnotationKey::from_ulong(1);
    let b = AmqpAnnotationKey::from_symbol(text("1"));
    assert!(a.key_eq(&AmqpAnnotationKey::from_ulong(1)));
    assert!(!a.key_eq(&AmqpAnnotationKey::from_ulong(2)));
    assert!(!a.key_eq(&b));
    assert!(!b.key_eq(&a));
    assert!(b.key_eq(&AmqpAnnotationKey::from_symbol(text("1"))));
    assert!(!b.key_eq(&AmqpAnnotationKey::from_symbol(text("2"))));
}

#[test]
fn annotation_keys_are_ordered_by_variant_then_value() {
    let one = AmqpAnnotationKey::from_ulong(1);
    let two = AmqpAnnotationKey::from_ulong(2);
    let a = AmqpAnnotationKey::from_symbol(text("a"));
    let ab = AmqpAnnotationKey::from_symbol(text("ab"));
    let b = AmqpAnnotationKey::from_symbol(text("b"));
    assert!(one.precedes(&two));
    assert!(!two.precedes(&one));
    assert!(!one.precedes(&one));
    assert!(two.precedes(&a));
    assert!(!a.precedes(&two));
    assert!(a.precedes(&ab));
    assert!(ab.precedes(&b));
    assert!(a.precedes(&b));
    assert!(!b.precedes(&ab));
    assert!(!ab.precedes(&ab));
    assert!(AmqpAnnotationKey::from_ulong(u64::MAX).precedes(&AmqpAnnotationKey::from_symbol(text(""))));
}

#[test]
fn bytes_are_ordered_as_in_a_dictionary() {
    assert!(bytes_before(b"", b"a"));
    assert!(!bytes_before(b"", b""));
    assert!(!bytes_before(b"a", b""));
    assert!(bytes_before(b"abc", b"abd"));
    assert!(bytes_before(b"abc", b"abcd"));
    assert!(!bytes_before(b"abd", b"abc"));
    assert!(!bytes_before(b"abc", b"abc"));
    assert!(bytes_before(&[1, 255], &[2]));
}

#[test]
fn keys_stand_as_values() {
    assert_eq!(AmqpAnnotationKey::from_ulong(5).to_value(), AmqpValue::ULong(5));
    assert_eq!(
        AmqpAnnotationKey::from_symbol(text("s")).to_value(),
        AmqpValue::Symbol(text("s"))
    );
    assert_eq!(
        AmqpAnnotationKey::from_value(&AmqpValue::ULong(5)),
        Some(AmqpAnnotationKey::Ulong(5))
    );
    assert_eq!(
        AmqpAnnotationKey::from_value(&AmqpValue::Symbol(text("s"))),
        Some(AmqpAnnotationKey::Symbol(text("s")))
    );
    assert_eq!(AmqpAnnotationKey::from_value(&AmqpValue::String(text("s"))), None);
    assert_eq!(AmqpAnnotationKey::from_value(&AmqpValue::UInt(5)), None);
    assert_eq!(<String as SectionKey>::to_value(&text("k")), AmqpValue::String(text("k")));
    assert_eq!(<String as SectionKey>::from_value(&AmqpValue::String(text("k"))), Some(text("k")));
    assert_eq!(<String as SectionKey>::from_value(&AmqpValue::Symbol(text("k"))), None);
}

#[test]
fn annotations_come_from_a_map_value() {
    let value = AmqpValue::Dict(AmqpOrderedMap::from_pairs(vec![
        (AmqpValue::Symbol(text("x-b")), AmqpValue::UInt(1)),
        (AmqpValue::ULong(7), AmqpValue::Null),
        (AmqpValue::Symbol(text("x-a")), AmqpValue::Boolean(true)),
    ]));
    let map: AmqpAnnotations = section_from_value(&value).unwrap();
    assert_eq!(
        map.into_pairs(),
        vec![
            (AmqpAnnotationKey::Symbol(text("x-b")), AmqpValue::UInt(1)),
            (AmqpAnnotationKey::Ulong(7), AmqpValue::Null),
            (AmqpAnnotationKey::Symbol(text("x-a")), AmqpValue::Boolean(true)),
        ]
    );
}

#[test]
fn annotations_refuse_what_is_no_map_and_keys_of_other_kinds() {
    let no_map: Result<AmqpAnnotations, AmqpError> = section_from_value(&AmqpValue::List(Vec::new()));
    assert_eq!(no_map, Err(AmqpError::MapRequired));
    let text_key = AmqpValue::Dict(AmqpOrderedMap::from_pairs(vec![
        (AmqpValue::ULong(1), AmqpValue::Null),
        (AmqpValue::String(text("plain")), AmqpValue::Null),
    ]));
    let bad: Result<AmqpAnnotations, AmqpError> = section_from_value(&text_key);
    assert_eq!(bad, Err(AmqpError::KeyTypeRequired));
}

#[test]
fn application_properties_take_text_keys_only() {
    let good = AmqpValue::Dict(AmqpOrderedMap::from_pairs(vec![
        (AmqpValue::String(text("b")), AmqpValue::Int(2)),
        (AmqpValue::String(text("a")), AmqpValue::Int(1)),
    ]));
    let map: AmqpApplicationProperties = section_from_value(&good).unwrap();
    assert_eq!(
        map.into_pairs(),
        vec![(text("b"), AmqpValue::Int(2)), (text("a"), AmqpValue::Int(1))]
    );
    let symbol_key = AmqpValue::Dict(AmqpOrderedMap::from_pairs(vec![(
        AmqpValue::Symbol(text("a")),
        AmqpValue::Int(1),
    )]));
    let bad: Result<AmqpApplicationProperties, AmqpError> = section_from_value(&symbol_key);
    assert_eq!(bad, Err(AmqpError::KeyTypeRequired));
    let no_map: Result<AmqpApplicationProperties, AmqpError> =
        section_from_value(&AmqpValue::String(text("a")));
    assert_eq!(no_map, Err(AmqpError::MapRequired));
}

#[test]
fn a_section_map_goes_to_a_value_and_back() {
    let map: AmqpAnnotations = AmqpOrderedMap::from_pairs(vec![
        (AmqpAnnotationKey::Symbol(text("z")), AmqpValue::Binary(vec![1])),
        (AmqpAnnotationKey::Ulong(3), AmqpValue::List(vec![AmqpValue::Null])),
    ]);
    let value = section_to_value(&map);
    assert_eq!(
        value,
        AmqpValue::Dict(AmqpOrderedMap::from_pairs(vec![
            (AmqpValue::Symbol(text("z")), AmqpValue::Binary(vec![1])),
            (AmqpValue::ULong(3), AmqpValue::List(vec![AmqpValue::Null])),
        ]))
    );
    let back: AmqpAnnotations = section_from_value(&value).unwrap();
    assert_eq!(back, map);
    let empty: AmqpApplicationProperties = AmqpOrderedMap::new();
    assert_eq!(section_to_value(&empty), AmqpValue::Dict(AmqpOrderedMap::new()));
}

#[test]
fn the_default_header_has_the_default_priority() {
    let h = AmqpMessageHeader::default();
    assert_eq!(DEFAULT_PRIORITY, 4);
    assert_eq!(
        h,
        AmqpMessageHeader {
            durable: false,
            priority: 4,
            time_to_live: None,
            first_acquirer: false,
            delivery_count: 0,
        }
    );
}

#[test]
fn a_header_is_a_list_of_five() {
    let h = AmqpMessageHeader {
        durable: true,
        priority: 9,
        time_to_live: Some(1500),
        first_acquirer: true,
        delivery_count: 3,
    };
    let v = h.to_value();
    assert_eq!(
        v,
        AmqpValue::List(vec![
            AmqpValue::Boolean(true),
            AmqpValue::UByte(9),
            AmqpValue::UInt(1500),
            AmqpValue::Boolean(true),
            AmqpValue::UInt(3),
        ])
    );
    assert_eq!(AmqpMessageHeader::from_value(&v), Some(h));
    let d = AmqpMessageHeader::default();
    assert_eq!(
        d.to_value(),
        AmqpValue::List(vec![
            AmqpValue::Boolean(false),
            AmqpValue::UByte(4),
            AmqpValue::Null,
            AmqpValue::Boolean(false),
            AmqpValue::UInt(0),
        ])
    );
    assert_eq!(AmqpMessageHeader::from_value(&d.to_value()), Some(d));
}

#[test]
fn a_value_of_another_shape_is_no_header() {
    assert_eq!(AmqpMessageHeader::from_value(&AmqpValue::Null), None);
    assert_eq!(AmqpMessageHeader::from_value(&AmqpValue::List(Vec::new())), None);
    let mut items = vec![
        AmqpValue::Boolean(true),
        AmqpValue::UByte(9),
        AmqpValue::Null,
        AmqpValue::Boolean(true),
        AmqpValue::UInt(3),
    ];
    assert!(AmqpMessageHeader::from_value(&AmqpValue::List(items.clone())).is_some());
    items.push(AmqpValue::Null);
    assert_eq!(AmqpMessageHeader::from_value(&AmqpValue::List(items.clone())), None);
    items.pop();
    items[1] = AmqpValue::UInt(9);
    assert_eq!(AmqpMessageHeader::from_value(&AmqpValue::List(items.clone())), None);
    items[1] = AmqpValue::UByte(9);
    items[2] = AmqpValue::ULong(5);
    assert_eq!(AmqpMessageHeader::from_value(&AmqpValue::List(items.clone())), None);
    items[2] = AmqpValue::UInt(5);
    items[0] = AmqpValue::Null;
    assert_eq!(AmqpMessageHeader::from_value(&AmqpValue::List(items.clone())), None);
    items[0] = AmqpValue::Boolean(false);
    items[3] = AmqpValue::UByte(1);
    assert_eq!(AmqpMessageHeader::from_value(&AmqpValue::List(items.clone())), None);
    items[3] = AmqpValue::Boolean(false);
    items[4] = AmqpValue::Null;
    assert_eq!(AmqpMessageHeader::from_value(&AmqpValue::List(items)), None);
}

fn full_properties() -> AmqpMessageProperties {
    AmqpMessageProperties {
        message_id: Some(AmqpMessageId::Ulong(77)),
        user_id: Some(vec![1, 2, 3]),
        to: Some(text("queue-a")),
        subject: Some(text("greeting")),
        reply_to: Some(text("queue-b")),
        correlation_id: Some(AmqpMessageId::String(text("corr"))),
        content_type: Some(text("text/plain")),
        content_encoding: Some(text("utf-8")),
        absolute_expiry_time: Some(2_000),
        creation_time: Some(-1_000),
        group_id: Some(text("group")),
        group_sequence: Some(5),
        reply_to_group_id: Some(text("reply-group")),
    }
}

#[test]
fn new_properties_have_nothing_set() {
    let p = AmqpMessageProperties::new();
    assert_eq!(p, AmqpMessageProperties::default());
    assert_eq!(PROPERTIES_FIELDS, 13);
    assert_eq!(p.to_value(), AmqpValue::List(vec![AmqpValue::Null; 13]));
    assert_eq!(AmqpMessageProperties::from_value(&p.to_value()), Some(p));
}

#[test]
fn properties_are_a_list_of_their_fields() {
    let p = full_properties();
    let v = p.to_value();
    assert_eq!(
        v,
        AmqpValue::List(vec![
            AmqpValue::ULong(77),
            AmqpValue::Binary(vec![1, 2, 3]),
            AmqpValue::String(text("queue-a")),
            AmqpValue::String(text("greeting")),
            AmqpValue::String(text("queue-b")),
            AmqpValue::String(text("corr")),
            AmqpValue::Symbol(text("text/plain")),
            AmqpValue::Symbol(text("utf-8")),
            AmqpValue::TimeStamp(2_000),
            AmqpValue::TimeStamp(-1_000),
            AmqpValue::String(text("group")),
            AmqpValue::UInt(5),
            AmqpValue::String(text("reply-group")),
        ])
    );
    assert_eq!(AmqpMessageProperties::from_value(&v), Some(full_properties()));
    assert_eq!(p.clone(), p);
    let binary_id = AmqpMessageProperties {
        message_id: Some(AmqpMessageId::Binary(vec![8, 9])),
        ..AmqpMessageProperties::new()
    };
    assert_eq!(AmqpMessageProperties::from_value(&binary_id.to_value()), Some(binary_id));
}

#[test]
fn a_value_of_another_shape_is_no_properties() {
    assert_eq!(AmqpMessageProperties::from_value(&AmqpValue::Null), None);
    assert_eq!(AmqpMessageProperties::from_value(&AmqpValue::List(vec![AmqpValue::Null; 12])), None);
    assert_eq!(AmqpMessageProperties::from_value(&AmqpValue::List(vec![AmqpValue::Null; 14])), None);
    let wrong = [
        AmqpValue::Boolean(true),
        AmqpValue::String(text("no bytes")),
        AmqpValue::Symbol(text("no text")),
        AmqpValue::Binary(vec![1]),
        AmqpValue::UInt(1),
        AmqpValue::Symbol(text("no id")),
        AmqpValue::String(text("no symbol")),
        AmqpValue::Binary(vec![1]),
        AmqpValue::Long(1),
        AmqpValue::ULong(1),
        AmqpValue::UInt(1),
        AmqpValue::ULong(1),
        AmqpValue::List(Vec::new()),
    ];
    for (place, bad) in wrong.iter().enumerate() {
        let mut items = vec![AmqpValue::Null; 13];
        items[place] = bad.clone();
        assert_eq!(AmqpMessageProperties::from_value(&AmqpValue::List(items)), None);
    }
}
