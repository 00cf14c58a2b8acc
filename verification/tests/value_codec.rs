use amqp_message::ordered_map::AmqpOrderedMap;
use amqp_message::value::AmqpValue;
use amqp_message::value_codec::decode_value;
use amqp_message::value_codec::encode_value;
use amqp_message::value_codec::read_fixed;
use amqp_message::value_codec::read_sized;
use amqp_message::value_codec::read_text;

fn bytes_of(v: &AmqpValue) -> Vec<u8> {
    let mut out = Vec::new();
    encode_value(v, &mut out);
    out
}

fn len8(n: u8) -> Vec<u8> {
    vec![0, 0, 0, 0, 0, 0, 0, n]
}

fn join(parts: &[&[u8]]) -> Vec<u8> {
    let mut out = Vec::new();
    for p in parts {
        out.extend_from_slice(p);
    }
    out
}

fn check(v: AmqpValue, expected: Vec<u8>) {
    let bytes = bytes_of(&v);
    assert_eq!(bytes, expected);
    assert_eq!(decode_value(&bytes, 0), Some((v, expected.len())));
}

#[test]
fn scalars_have_their_tag_and_fixed_width() {
    check(AmqpValue::Null, vec![0x40]);
    check(AmqpValue::Boolean(true), vec![0x41]);
    check(AmqpValue::Boolean(false), vec![0x42]);
    check(AmqpValue::UByte(7), vec![0x50, 7]);
    check(AmqpValue::UShort(0x0102), vec![0x60, 1, 2]);
    check(AmqpValue::UInt(0x0102_0304), vec![0x70, 1, 2, 3, 4]);
    check(AmqpValue::ULong(1), vec![0x80, 0, 0, 0, 0, 0, 0, 0, 1]);
    check(AmqpValue::ULong(u64::MAX), vec![0x80, 255, 255, 255, 255, 255, 255, 255, 255]);
}

#[test]
fn signed_numbers_are_twos_complement() {
    check(AmqpValue::Byte(-1), vec![0x51, 0xff]);
    check(AmqpValue::Byte(i8::MIN), vec![0x51, 0x80]);
    check(AmqpValue::Byte(i8::MAX), vec![0x51, 0x7f]);
    check(AmqpValue::Short(-2), vec![0x61, 0xff, 0xfe]);
    check(AmqpValue::Short(i16::MIN), vec![0x61, 0x80, 0]);
    check(AmqpValue::Int(-1), vec![0x71, 0xff, 0xff, 0xff, 0xff]);
    check(AmqpValue::Int(i32::MAX), vec![0x71, 0x7f, 0xff, 0xff, 0xff]);
    check(AmqpValue::Long(i64::MIN), vec![0x81, 0x80, 0, 0, 0, 0, 0, 0, 0]);
    check(AmqpValue::Long(-1), vec![0x81, 255, 255, 255, 255, 255, 255, 255, 255]);
    check(AmqpValue::TimeStamp(1), vec![0x83, 0, 0, 0, 0, 0, 0, 0, 1]);
    check(AmqpValue::TimeStamp(-1), vec![0x83, 255, 255, 255, 255, 255, 255, 255, 255]);
}

#[test]
fn strings_have_their_length_in_bytes() {
    check(AmqpValue::Binary(vec![1, 2, 3]), join(&[&[0xb0], &len8(3), &[1, 2, 3]]));
    check(AmqpValue::Binary(Vec::new()), join(&[&[0xb0], &len8(0)]));
    check(
        AmqpValue::String(String::from("h\u{e9}")),
        join(&[&[0xb1], &len8(3), &[b'h', 0xc3, 0xa9]]),
    );
    check(AmqpValue::String(String::new()), join(&[&[0xb1], &len8(0)]));
    check(AmqpValue::Symbol(String::from("x-opt")), join(&[&[0xb3], &len8(5), b"x-opt"]));
}

#[test]
fn text_is_decoded_from_utf8() {
    let euro = join(&[&[0xb1], &len8(3), &[0xe2, 0x82, 0xac]]);
    assert_eq!(decode_value(&euro, 0), Some((AmqpValue::String(String::from("\u{20ac}")), 12)));
    let symbol = join(&[&[0xb3], &len8(2), b"ab"]);
    assert_eq!(decode_value(&symbol, 0), Some((AmqpValue::Symbol(String::from("ab")), 11)));
}

#[test]
fn text_that_is_not_utf8_is_refused() {
    let lone_continuation = join(&[&[0xb1], &len8(1), &[0x80]]);
    assert_eq!(decode_value(&lone_continuation, 0), None);
    let cut_short = join(&[&[0xb3], &len8(2), &[0xe2, 0x82]]);
    assert_eq!(decode_value(&cut_short, 0), None);
    let overlong = join(&[&[0xb1], &len8(2), &[0xc0, 0xaf]]);
    assert_eq!(decode_value(&overlong, 0), None);
    let as_binary = join(&[&[0xb0], &len8(1), &[0x80]]);
    assert_eq!(decode_value(&as_binary, 0), Some((AmqpValue::Binary(vec![0x80]), 10)));
}

#[test]
fn lists_have_their_count_and_items() {
    check(
        AmqpValue::List(vec![AmqpValue::Null, AmqpValue::Boolean(true), AmqpValue::UByte(3)]),
        join(&[&[0xd0], &len8(3), &[0x40, 0x41, 0x50, 3]]),
    );
    check(AmqpValue::List(Vec::new()), join(&[&[0xd0], &len8(0)]));
    check(
        AmqpValue::List(vec![AmqpValue::List(vec![AmqpValue::List(Vec::new())])]),
        join(&[&[0xd0], &len8(1), &[0xd0], &len8(1), &[0xd0], &len8(0)]),
    );
}

#[test]
fn maps_have_their_count_and_entries_in_order() {
    let m = AmqpOrderedMap::from_pairs(vec![
        (AmqpValue::UInt(2), AmqpValue::Null),
        (AmqpValue::UInt(1), AmqpValue::Boolean(false)),
    ]);
    check(
        AmqpValue::Dict(m),
        join(&[&[0xd1], &len8(2), &[0x70, 0, 0, 0, 2, 0x40, 0x70, 0, 0, 0, 1, 0x42]]),
    );
    check(AmqpValue::Dict(AmqpOrderedMap::new()), join(&[&[0xd1], &len8(0)]));
}

#[test]
fn a_map_with_a_repeated_key_is_refused() {
    let twice = join(&[&[0xd1], &len8(2), &[0x50, 1, 0x40, 0x50, 1, 0x41]]);
    assert_eq!(decode_value(&twice, 0), None);
    let once = join(&[&[0xd1], &len8(2), &[0x50, 1, 0x40, 0x50, 2, 0x41]]);
    assert!(decode_value(&once, 0).is_some());
}

#[test]
fn a_nested_value_is_read_back() {
    let v = AmqpValue::Dict(AmqpOrderedMap::from_pairs(vec![
        (
            AmqpValue::String(String::from("list")),
            AmqpValue::List(vec![AmqpValue::Long(-7), AmqpValue::Binary(vec![0, 255])]),
        ),
        (
            AmqpValue::Symbol(String::from("map")),
            AmqpValue::Dict(AmqpOrderedMap::from_pairs(vec![(
                AmqpValue::Null,
                AmqpValue::TimeStamp(1_700_000_000_000),
            )])),
        ),
    ]));
    let bytes = bytes_of(&v);
    assert_eq!(decode_value(&bytes, 0), Some((v, bytes.len())));
}

#[test]
fn encoding_appends_to_what_is_there() {
    let mut out = vec![0xee];
    encode_value(&AmqpValue::UByte(1), &mut out);
    encode_value(&AmqpValue::Null, &mut out);
    assert_eq!(out, vec![0xee, 0x50, 1, 0x40]);
    assert_eq!(decode_value(&out, 1), Some((AmqpValue::UByte(1), 3)));
    assert_eq!(decode_value(&out, 3), Some((AmqpValue::Null, 4)));
}

#[test]
fn nothing_is_read_past_the_end() {
    assert_eq!(decode_value(&[], 0), None);
    assert_eq!(decode_value(&[0x40], 1), None);
    assert_eq!(decode_value(&[0x40], 7), None);
    assert_eq!(decode_value(&[0x70, 1, 2, 3], 0), None);
    assert_eq!(decode_value(&[0x80, 1, 2, 3, 4, 5, 6, 7], 0), None);
    assert_eq!(decode_value(&join(&[&[0xb0], &len8(4), &[1, 2, 3]]), 0), None);
    assert_eq!(decode_value(&join(&[&[0xd0], &len8(2), &[0x40]]), 0), None);
    assert_eq!(decode_value(&join(&[&[0xd1], &len8(1), &[0x40]]), 0), None);
    assert_eq!(decode_value(&[0xb0, 0, 0, 0], 0), None);
}

#[test]
fn a_length_beyond_the_bytes_is_refused() {
    let huge = vec![0xb0, 255, 255, 255, 255, 255, 255, 255, 255, 1, 2];
    assert_eq!(decode_value(&huge, 0), None);
    let many = vec![0xd0, 255, 255, 255, 255, 255, 255, 255, 255, 0x40];
    assert_eq!(decode_value(&many, 0), None);
}

#[test]
fn an_unknown_tag_is_refused() {
    assert_eq!(decode_value(&[0x00], 0), None);
    assert_eq!(decode_value(&[0x43], 0), None);
    assert_eq!(decode_value(&[0xff, 0, 0], 0), None);
    assert_eq!(decode_value(&join(&[&[0xd0], &len8(1), &[0x99]]), 0), None);
}

#[test]
fn every_cut_of_an_encoding_is_refused() {
    let v = AmqpValue::List(vec![
        AmqpValue::String(String::from("abc")),
        AmqpValue::Dict(AmqpOrderedMap::from_pairs(vec![(
            AmqpValue::UInt(1),
            AmqpValue::Binary(vec![9, 9]),
        )])),
    ]);
    let bytes = bytes_of(&v);
    for cut in 0..bytes.len() {
        assert_eq!(decode_value(&bytes[..cut], 0), None);
    }
}

#[test]
fn fixed_and_sized_fields_are_read() {
    let bytes = [0u8, 0, 0, 0, 0, 0, 0, 2, 0x68, 0x69, 7];
    assert_eq!(read_fixed(&bytes, 0, 8), Some(2));
    assert_eq!(read_fixed(&bytes, 8, 2), Some(0x6869));
    assert_eq!(read_fixed(&bytes, 10, 2), None);
    assert_eq!(read_fixed(&bytes, 12, 0), None);
    assert_eq!(read_sized(&bytes, 0), Some((vec![0x68, 0x69], 10)));
    assert_eq!(read_sized(&bytes, 1), None);
    assert_eq!(read_text(&bytes, 0), Some((String::from("hi"), 10)));
}
