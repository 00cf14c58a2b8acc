use amqp_message::wire::copy_range;
use amqp_message::wire::push_all;
use amqp_message::wire::push_be;
use amqp_message::wire::read_be;
use amqp_message::wire::signed_bits;
use amqp_message::wire::signed_from_bits;

#[test]
fn push_be_writes_the_most_significant_byte_first() {
    let mut out = vec![0xaa];
    push_be(&mut out, 0x0102_0304, 4);
    assert_eq!(out, vec![0xaa, 1, 2, 3, 4]);
    let mut wide = Vec::new();
    push_be(&mut wide, 0x0102_0304_0506_0708, 8);
    assert_eq!(wide, vec![1, 2, 3, 4, 5, 6, 7, 8]);
}

#[test]
fn push_be_keeps_the_low_bytes_only() {
    let mut out = Vec::new();
    push_be(&mut out, 0x0102_0304, 2);
    assert_eq!(out, vec![3, 4]);
    let mut none = Vec::new();
    push_be(&mut none, 77, 0);
    assert!(none.is_empty());
}

#[test]
fn read_be_reads_what_push_be_wrote() {
    let bytes = [9u8, 0, 0, 1, 0, 9];
    assert_eq!(read_be(&bytes, 1, 4), 256);
    assert_eq!(read_be(&bytes, 0, 1), 9);
    assert_eq!(read_be(&bytes, 3, 0), 0);
    let wide = [0xffu8; 8];
    assert_eq!(read_be(&wide, 0, 8), u64::MAX);
}

#[test]
fn signed_bits_are_twos_complement() {
    assert_eq!(signed_bits(-1, 1), 0xff);
    assert_eq!(signed_bits(-128, 1), 0x80);
    assert_eq!(signed_bits(127, 1), 0x7f);
    assert_eq!(signed_bits(-2, 2), 0xfffe);
    assert_eq!(signed_bits(-1, 4), 0xffff_ffff);
    assert_eq!(signed_bits(i64::MIN, 8), 0x8000_0000_0000_0000);
    assert_eq!(signed_bits(-1, 8), u64::MAX);
    assert_eq!(signed_bits(5, 8), 5);
}

#[test]
fn signed_from_bits_undoes_signed_bits() {
    assert_eq!(signed_from_bits(0xff, 1), -1);
    assert_eq!(signed_from_bits(0x80, 1), -128);
    assert_eq!(signed_from_bits(0x7f, 1), 127);
    assert_eq!(signed_from_bits(0xfffe, 2), -2);
    assert_eq!(signed_from_bits(0x8000_0000, 4), i32::MIN as i64);
    assert_eq!(signed_from_bits(0x8000_0000_0000_0000, 8), i64::MIN);
    assert_eq!(signed_from_bits(u64::MAX, 8), -1);
    assert_eq!(signed_from_bits(0x7fff_ffff_ffff_ffff, 8), i64::MAX);
}

#[test]
fn bytes_are_appended_and_copied() {
    let mut out = vec![1u8];
    push_all(&mut out, &[2, 3]);
    push_all(&mut out, &[]);
    assert_eq!(out, vec![1, 2, 3]);
    assert_eq!(copy_range(&out, 1, 3), vec![2, 3]);
    assert_eq!(copy_range(&out, 2, 2), Vec::<u8>::new());
}
