use amqp_message::ordered_map::AmqpOrderedMap;
use amqp_message::value::AmqpValue;

fn text(s: &str) -> String {
    String::from(s)
}

#[test]
fn new_map_is_empty() {
    let m: AmqpOrderedMap<String, AmqpValue> = AmqpOrderedMap::new();
    assert_eq!(m.len(), 0);
    assert!(m.is_empty());
    assert!(m.iter().is_empty());
    assert!(!m.contains_key(&text("a")));
    assert_eq!(m.get(&text("a")), None);
}

#[test]
fn from_pairs_keeps_the_order_of_unique_keys() {
    let pairs = vec![
        (text("zeta"), AmqpValue::UInt(1)),
        (text("alpha"), AmqpValue::UInt(2)),
        (text("mid"), AmqpValue::UInt(3)),
    ];
    let m = AmqpOrderedMap::from_pairs(pairs);
    let seen: Vec<(String, AmqpValue)> =
        m.iter().into_iter().map(|(k, v)| (k.clone(), v.clone())).collect();
    assert_eq!(
        seen,
        vec![
            (text("zeta"), AmqpValue::UInt(1)),
            (text("alpha"), AmqpValue::UInt(2)),
            (text("mid"), AmqpValue::UInt(3)),
        ]
    );
}

#[test]
fn from_pairs_last_write_wins() {
    let m = AmqpOrderedMap::from_pairs(vec![
        (text("k"), AmqpValue::UInt(1)),
        (text("k"), AmqpValue::UInt(2)),
    ]);
    assert_eq!(m.len(), 1);
    assert_eq!(m.get(&text("k")), Some(&AmqpValue::UInt(2)));
    assert_eq!(m.into_pairs(), vec![(text("k"), AmqpValue::UInt(2))]);
}

#[test]
fn from_pairs_keeps_the_first_position_of_a_repeated_key() {
    let m = AmqpOrderedMap::from_pairs(vec![
        (text("a"), AmqpValue::UInt(1)),
        (text("b"), AmqpValue::UInt(2)),
        (text("a"), AmqpValue::UInt(3)),
        (text("c"), AmqpValue::UInt(4)),
        (text("b"), AmqpValue::UInt(5)),
    ]);
    assert_eq!(
        m.into_pairs(),
        vec![
            (text("a"), AmqpValue::UInt(3)),
            (text("b"), AmqpValue::UInt(5)),
            (text("c"), AmqpValue::UInt(4)),
        ]
    );
}

#[test]
fn iter_can_be_walked_again() {
    let m = AmqpOrderedMap::from_pairs(vec![
        (text("a"), AmqpValue::Null),
        (text("b"), AmqpValue::Boolean(true)),
    ]);
    let first: Vec<String> = m.iter().into_iter().map(|(k, _)| k.clone()).collect();
    let second: Vec<String> = m.iter().into_iter().map(|(k, _)| k.clone()).collect();
    assert_eq!(first, vec![text("a"), text("b")]);
    assert_eq!(first, second);
}

#[test]
fn insert_appends_a_new_key_and_replaces_in_place() {
    let mut m: AmqpOrderedMap<u64, AmqpValue> = AmqpOrderedMap::new();
    assert_eq!(m.insert(7, AmqpValue::UInt(70)), None);
    assert_eq!(m.insert(3, AmqpValue::UInt(30)), None);
    assert_eq!(m.insert(9, AmqpValue::UInt(90)), None);
    assert_eq!(m.insert(3, AmqpValue::UInt(31)), Some(AmqpValue::UInt(30)));
    assert_eq!(m.len(), 3);
    assert_eq!(*m.key_at(0), 7);
    assert_eq!(*m.key_at(1), 3);
    assert_eq!(*m.key_at(2), 9);
    assert_eq!(*m.value_at(1), AmqpValue::UInt(31));
    assert_eq!(m.index_of(&3), Some(1));
    assert_eq!(m.index_of(&4), None);
    assert!(m.contains_key(&9));
    assert!(!m.contains_key(&8));
}

#[test]
fn get_finds_the_value_of_a_key() {
    let m = AmqpOrderedMap::from_pairs(vec![
        (AmqpValue::String(text("x")), AmqpValue::Int(-1)),
        (AmqpValue::UInt(5), AmqpValue::Int(-2)),
    ]);
    assert_eq!(m.get(&AmqpValue::UInt(5)), Some(&AmqpValue::Int(-2)));
    assert_eq!(m.get(&AmqpValue::String(text("x"))), Some(&AmqpValue::Int(-1)));
    assert_eq!(m.get(&AmqpValue::ULong(5)), None);
}

#[test]
fn from_distinct_pairs_takes_distinct_keys_only() {
    let ok = AmqpOrderedMap::from_distinct_pairs(vec![
        (text("a"), AmqpValue::UInt(1)),
        (text("b"), AmqpValue::UInt(2)),
    ]);
    assert_eq!(
        ok.map(|m| m.into_pairs()),
        Some(vec![(text("a"), AmqpValue::UInt(1)), (text("b"), AmqpValue::UInt(2))])
    );
    let twice = AmqpOrderedMap::from_distinct_pairs(vec![
        (text("a"), AmqpValue::UInt(1)),
        (text("b"), AmqpValue::UInt(2)),
        (text("a"), AmqpValue::UInt(3)),
    ]);
    assert!(twice.is_none());
    let empty: Option<AmqpOrderedMap<String, AmqpValue>> =
        AmqpOrderedMap::from_distinct_pairs(Vec::new());
    assert_eq!(empty.map(|m| m.len()), Some(0));
}

#[test]
fn maps_with_the_same_entries_in_another_order_differ() {
    let ab = AmqpOrderedMap::from_pairs(vec![
        (text("a"), AmqpValue::UInt(1)),
        (text("b"), AmqpValue::UInt(2)),
    ]);
    let ba = AmqpOrderedMap::from_pairs(vec![
        (text("b"), AmqpValue::UInt(2)),
        (text("a"), AmqpValue::UInt(1)),
    ]);
    assert_ne!(ab, ba);
    assert!(!amqp_message::value::eq_value(&AmqpValue::Dict(
        AmqpOrderedMap::from_pairs(vec![(AmqpValue::UInt(1), AmqpValue::Null), (AmqpValue::UInt(2), AmqpValue::Null)])
    ), &AmqpValue::Dict(
        AmqpOrderedMap::from_pairs(vec![(AmqpValue::UInt(2), AmqpValue::Null), (AmqpValue::UInt(1), AmqpValue::Null)])
    )));
}
