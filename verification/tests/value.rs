use amqp_message::ordered_map::AmqpOrderedMap;
use amqp_message::ordered_map::MapKey;
use amqp_message::value::clone_bytes;
use amqp_message::value::clone_dict;
use amqp_message::value::clone_list;
use amqp_message::value::clone_value;
use amqp_message::value::eq_bytes;
use amqp_message::value::eq_dict;
use amqp_message::value::eq_list;
use amqp_message::value::eq_value;
use amqp_message::value::AmqpValue;

fn nested() -> AmqpValue {
    AmqpValue::List(vec![
        AmqpValue::Null,
        AmqpValue::String(String::from("text")),
        AmqpValue::Dict(AmqpOrderedMap::from_pairs(vec![
            (AmqpValue::Symbol(String::from("k")), AmqpValue::Binary(vec![1, 2, 3])),
            (AmqpValue::Long(-5), AmqpValue::List(vec![AmqpValue::UByte(9)])),
        ])),
    ])
}

#[test]
fn a_value_equals_its_copy() {
    let v = nested();
    let c = clone_value(&v);
    assert_eq!(c, v);
    assert!(eq_value(&v, &c));
    assert!(v.key_eq(&c));
    assert_eq!(v.clone(), v);
}

#[test]
fn values_of_different_variants_differ() {
    assert!(!eq_value(&AmqpValue::UInt(1), &AmqpValue::ULong(1)));
    assert!(!eq_value(&AmqpValue::String(String::from("a")), &AmqpValue::Symbol(String::from("a"))));
    assert!(!eq_value(&AmqpValue::Long(1), &AmqpValue::TimeStamp(1)));
    assert!(!eq_value(&AmqpValue::Null, &AmqpValue::Boolean(false)));
    assert!(eq_value(&AmqpValue::Null, &AmqpValue::Null));
}

#[test]
fn values_of_one_variant_are_compared_by_content() {
    assert!(eq_value(&AmqpValue::Boolean(true), &AmqpValue::Boolean(true)));
    assert!(!eq_value(&AmqpValue::Boolean(true), &AmqpValue::Boolean(false)));
    assert!(eq_value(&AmqpValue::UByte(3), &AmqpValue::UByte(3)));
    assert!(!eq_value(&AmqpValue::UShort(3), &AmqpValue::UShort(4)));
    assert!(!eq_value(&AmqpValue::Byte(-3), &AmqpValue::Byte(3)));
    assert!(eq_value(&AmqpValue::Short(-3), &AmqpValue::Short(-3)));
    assert!(!eq_value(&AmqpValue::Int(0), &AmqpValue::Int(1)));
    assert!(eq_value(&AmqpValue::Binary(vec![1, 2]), &AmqpValue::Binary(vec![1, 2])));
    assert!(!eq_value(&AmqpValue::Binary(vec![1, 2]), &AmqpValue::Binary(vec![1, 3])));
    assert!(!eq_value(&AmqpValue::Binary(vec![1, 2]), &AmqpValue::Binary(vec![1])));
}

#[test]
fn lists_are_compared_in_order() {
    let a = vec![AmqpValue::UInt(1), AmqpValue::UInt(2)];
    let b = vec![AmqpValue::UInt(2), AmqpValue::UInt(1)];
    let c = vec![AmqpValue::UInt(1)];
    assert!(eq_list(&a, &clone_list(&a)));
    assert!(!eq_list(&a, &b));
    assert!(!eq_list(&a, &c));
    assert!(eq_list(&Vec::new(), &Vec::new()));
}

#[test]
fn maps_are_compared_entry_by_entry() {
    let a = AmqpOrderedMap::from_pairs(vec![
        (AmqpValue::UInt(1), AmqpValue::Null),
        (AmqpValue::UInt(2), AmqpValue::Boolean(true)),
    ]);
    let other_value = AmqpOrderedMap::from_pairs(vec![
        (AmqpValue::UInt(1), AmqpValue::Null),
        (AmqpValue::UInt(2), AmqpValue::Boolean(false)),
    ]);
    let other_key = AmqpOrderedMap::from_pairs(vec![
        (AmqpValue::UInt(1), AmqpValue::Null),
        (AmqpValue::UInt(3), AmqpValue::Boolean(true)),
    ]);
    assert!(eq_dict(&a, &clone_dict(&a)));
    assert_eq!(clone_dict(&a), a);
    assert!(!eq_dict(&a, &other_value));
    assert!(!eq_dict(&a, &other_key));
    assert!(!eq_dict(&a, &AmqpOrderedMap::new()));
}

#[test]
fn bytes_are_compared_and_copied() {
    let b = vec![5u8, 6, 7];
    assert_eq!(clone_bytes(&b), b);
    assert!(eq_bytes(&b, &vec![5, 6, 7]));
    assert!(!eq_bytes(&b, &vec![5, 6]));
    assert!(!eq_bytes(&b, &vec![5, 6, 8]));
}
