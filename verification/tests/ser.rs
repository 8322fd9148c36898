use oe4::encoding::{be_len, list_header_len, string_item_len, uint_item_len};
use oe4::ser::EthereumRlpSerializer;

fn finish(s: EthereumRlpSerializer) -> Vec<u8> {
    s.finalize()
}

#[test]
fn empty_serializer_writes_nothing() {
    assert_eq!(finish(EthereumRlpSerializer::new()), Vec::<u8>::new());
}

#[test]
fn u64_values() {
    let cases: Vec<(u64, Vec<u8>)> = vec![
        (0, vec![0x80]),
        (15, vec![0x0f]),
        (0x7f, vec![0x7f]),
        (0x80, vec![0x81, 0x80]),
        (1024, vec![0x82, 0x04, 0x00]),
        (u64::MAX, vec![0x88, 0xff, 0xff, 0xff, 0xff, 0xff, 0xff, 0xff, 0xff]),
    ];
    for (v, expected) in cases {
        let mut s = EthereumRlpSerializer::new();
        s.serialize_u64(v);
        assert_eq!(finish(s), expected, "value {}", v);
    }
}

#[test]
fn u32_values() {
    let mut s = EthereumRlpSerializer::new();
    s.serialize_u32(0x0102_0304);
    assert_eq!(finish(s), vec![0x84, 0x01, 0x02, 0x03, 0x04]);
    let mut s = EthereumRlpSerializer::new();
    s.serialize_u32(0);
    assert_eq!(finish(s), vec![0x80]);
}

#[test]
fn u8_values() {
    let mut s = EthereumRlpSerializer::new();
    s.serialize_u8(0);
    s.serialize_u8(1);
    s.serialize_u8(0x7f);
    s.serialize_u8(0x80);
    s.serialize_u8(0xff);
    assert_eq!(finish(s), vec![0x80, 0x01, 0x7f, 0x81, 0x80, 0x81, 0xff]);
}

#[test]
fn bool_values() {
    let mut s = EthereumRlpSerializer::new();
    s.serialize_bool(true);
    s.serialize_bool(false);
    assert_eq!(finish(s), vec![0x01, 0x80]);
}

#[test]
fn char_is_truncated_to_a_byte() {
    let mut s = EthereumRlpSerializer::new();
    s.serialize_char('A');
    s.serialize_char('\u{e9}');
    s.serialize_char('\u{20ac}');
    s.serialize_char('\u{100}');
    assert_eq!(finish(s), vec![0x41, 0x81, 0xe9, 0x81, 0xac, 0x80]);
}

#[test]
fn short_strings() {
    let mut s = EthereumRlpSerializer::new();
    s.serialize_str("cat");
    s.serialize_str("");
    s.serialize_str("a");
    assert_eq!(finish(s), vec![0x83, b'c', b'a', b't', 0x80, b'a']);
}

#[test]
fn utf8_string_is_encoded_by_its_bytes() {
    let mut s = EthereumRlpSerializer::new();
    s.serialize_str("\u{e9}");
    assert_eq!(finish(s), vec![0x82, 0xc3, 0xa9]);
}

#[test]
fn long_string_has_length_of_length() {
    let text = "Lorem ipsum dolor sit amet, consectetur adipisicing elit";
    assert_eq!(text.len(), 56);
    let mut s = EthereumRlpSerializer::new();
    s.serialize_str(text);
    let mut expected = vec![0xb8, 56];
    expected.extend_from_slice(text.as_bytes());
    assert_eq!(finish(s), expected);
}

#[test]
fn very_long_string_has_two_length_bytes() {
    let text = "x".repeat(1024);
    let mut s = EthereumRlpSerializer::new();
    s.serialize_str(&text);
    let out = finish(s);
    assert_eq!(&out[..3], &[0xb9, 0x04, 0x00]);
    assert_eq!(out.len(), 1027);
}

#[test]
fn bytes_are_written_as_they_are() {
    let mut s = EthereumRlpSerializer::new();
    s.serialize_bytes(&[0xc2, 0x01, 0x02]);
    assert_eq!(finish(s), vec![0xc2, 0x01, 0x02]);
}

#[test]
fn bytes_count_as_one_list_item() {
    let mut s = EthereumRlpSerializer::new();
    s.serialize_seq(Some(1));
    s.serialize_bytes(&[0x83, b'd', b'o', b'g']);
    assert_eq!(finish(s), vec![0xc4, 0x83, b'd', b'o', b'g']);
}

#[test]
fn none_and_unit_are_empty_strings() {
    let mut s = EthereumRlpSerializer::new();
    s.serialize_none();
    s.serialize_unit();
    assert_eq!(finish(s), vec![0x80, 0x80]);
}

#[test]
fn some_is_a_list_of_one() {
    let mut s = EthereumRlpSerializer::new();
    s.serialize_some();
    s.serialize_u8(5);
    assert_eq!(finish(s), vec![0xc1, 0x05]);
}

#[test]
fn sequence_of_two_strings() {
    let mut s = EthereumRlpSerializer::new();
    s.serialize_seq(Some(2));
    s.serialize_str("cat");
    s.serialize_str("dog");
    assert_eq!(finish(s), vec![0xc8, 0x83, b'c', b'a', b't', 0x83, b'd', b'o', b'g']);
}

#[test]
fn sequence_of_unknown_length_is_the_empty_list() {
    let mut s = EthereumRlpSerializer::new();
    s.serialize_seq(None);
    s.serialize_u8(7);
    assert_eq!(finish(s), vec![0xc0, 0x07]);
}

#[test]
fn empty_tuple_and_struct() {
    let mut s = EthereumRlpSerializer::new();
    s.serialize_tuple(0);
    s.serialize_struct(0);
    assert_eq!(finish(s), vec![0xc0, 0xc0]);
}

#[test]
fn nested_lists() {
    let mut s = EthereumRlpSerializer::new();
    s.serialize_struct(2);
    s.serialize_tuple(2);
    s.serialize_str("cat");
    s.serialize_str("dog");
    s.serialize_str("");
    assert_eq!(
        finish(s),
        vec![0xca, 0xc8, 0x83, b'c', b'a', b't', 0x83, b'd', b'o', b'g', 0x80]
    );
}

#[test]
fn long_list_has_length_of_length() {
    let mut s = EthereumRlpSerializer::new();
    s.serialize_seq(Some(20));
    for _ in 0..20 {
        s.serialize_str("abc");
    }
    let out = finish(s);
    assert_eq!(&out[..2], &[0xf8, 80]);
    assert_eq!(&out[2..6], &[0x83, b'a', b'b', b'c']);
    assert_eq!(out.len(), 82);
}

#[test]
fn unfinished_list_keeps_its_reserved_byte() {
    let mut s = EthereumRlpSerializer::new();
    s.serialize_u8(1);
    s.serialize_seq(Some(3));
    s.serialize_u8(5);
    assert_eq!(finish(s), vec![0x01, 0x00, 0x05]);
}

#[test]
fn fits_any_item_when_no_list_is_open() {
    let mut s = EthereumRlpSerializer::new();
    assert!(s.fits(0));
    assert!(s.fits(u64::MAX));
    s.serialize_str("cat");
    assert!(s.fits(u64::MAX));
}

#[test]
fn fits_checks_lengths_of_lists_that_close() {
    let mut s = EthereumRlpSerializer::new();
    s.serialize_seq(Some(2));
    // the first item does not close the list: no length is written yet
    assert!(s.fits(u64::MAX));
    s.serialize_u8(1);
    // the second closes it: its payload of 1 + len bytes must fit in 32 bits
    assert!(s.fits(4294967294));
    assert!(!s.fits(4294967295));
}

#[test]
fn fits_checks_every_list_that_closes() {
    let mut s = EthereumRlpSerializer::new();
    s.serialize_seq(Some(1));
    s.serialize_seq(Some(1));
    // inner payload of 4294967290 bytes gets a 5-byte header: the outer payload is
    // 4294967295 bytes, which still fits
    assert!(s.fits(4294967290));
    assert!(!s.fits(4294967291));
}

#[test]
fn item_lengths() {
    assert_eq!(uint_item_len(0), 1);
    assert_eq!(uint_item_len(0x7f), 1);
    assert_eq!(uint_item_len(0x80), 2);
    assert_eq!(uint_item_len(1024), 3);
    assert_eq!(uint_item_len(u64::MAX), 9);
    assert_eq!(string_item_len(b"a"), Some(1));
    assert_eq!(string_item_len(b""), Some(1));
    assert_eq!(string_item_len(&[0x80]), Some(2));
    assert_eq!(string_item_len(&[0u8; 55]), Some(56));
    assert_eq!(string_item_len(&[0u8; 56]), Some(58));
    assert_eq!(string_item_len(&[0u8; 1024]), Some(1027));
    assert_eq!(list_header_len(55), 1);
    assert_eq!(list_header_len(56), 2);
    assert_eq!(list_header_len(1024), 3);
    assert_eq!(list_header_len(4294967295), 5);
    assert_eq!(be_len(0), 0);
    assert_eq!(be_len(255), 1);
    assert_eq!(be_len(256), 2);
    assert_eq!(be_len(u64::MAX), 8);
}
