use mcquery::wire::{push_all, push_be, push_string, read_be, read_string};

#[test]
fn big_endian_bytes() {
    let mut out = vec![1];
    push_be(25565, 2, &mut out);
    assert_eq!(out, vec![1, 0x63, 0xdd]);
    let mut out = Vec::new();
    push_be(0x0102_0304_0506_0708, 8, &mut out);
    assert_eq!(out, vec![1, 2, 3, 4, 5, 6, 7, 8]);
    let mut out = Vec::new();
    push_be(0x0102_0304, 2, &mut out);
    assert_eq!(out, vec![3, 4]);
    let mut out = vec![7];
    push_be(u64::MAX, 0, &mut out);
    assert_eq!(out, vec![7]);
}

#[test]
fn big_endian_values() {
    assert_eq!(read_be(&[]), 0);
    assert_eq!(read_be(&[0x63, 0xdd]), 25565);
    assert_eq!(read_be(&[1, 2, 3, 4, 5, 6, 7, 8]), 0x0102_0304_0506_0708);
    assert_eq!(read_be(&[0xff; 8]), u64::MAX);
}

#[test]
fn bytes_are_appended_in_order() {
    let mut out = vec![1, 2];
    push_all(&mut out, &[3, 4, 5]);
    push_all(&mut out, &[]);
    assert_eq!(out, vec![1, 2, 3, 4, 5]);
}

#[test]
fn strings_carry_their_byte_length() {
    let mut out = Vec::new();
    assert!(push_string("localhost", &mut out));
    assert_eq!(out, b"\x09localhost".to_vec());
    let mut out = Vec::new();
    assert!(push_string("", &mut out));
    assert_eq!(out, vec![0]);
    let mut out = Vec::new();
    assert!(push_string("grün", &mut out));
    assert_eq!(out, vec![5, b'g', b'r', 0xc3, 0xbc, b'n']);
    let long = "x".repeat(200);
    let mut out = Vec::new();
    assert!(push_string(&long, &mut out));
    assert_eq!(&out[..2], &[0xc8, 0x01]);
    assert_eq!(out.len(), 202);
}

#[test]
fn strings_read_back() {
    assert_eq!(read_string(b"\x09localhost"), Some("localhost".to_string()));
    assert_eq!(read_string(&[0]), Some(String::new()));
    assert_eq!(read_string(&[5, b'g', b'r', 0xc3, 0xbc, b'n']), Some("grün".to_string()));
    assert_eq!(read_string(&[0x82, 0x00, b'h', b'i']), Some("hi".to_string()));
}

#[test]
fn a_string_must_fill_its_payload_exactly() {
    assert_eq!(read_string(b"\x09localhos"), None);
    assert_eq!(read_string(b"\x09localhost!"), None);
    assert_eq!(read_string(&[]), None);
    assert_eq!(read_string(&[0x80]), None);
    assert_eq!(read_string(&[0x80, 0x80, 0x80, 0x80, 0x80, 0x00]), None);
}

#[test]
fn a_string_must_be_utf8() {
    assert_eq!(read_string(&[2, 0xc3, 0x28]), None);
    assert_eq!(read_string(&[1, 0xff]), None);
    assert_eq!(read_string(&[3, 0xed, 0xa0, 0x80]), None);
    assert_eq!(read_string(&[2, 0xc0, 0x80]), None);
}
