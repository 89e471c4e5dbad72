use mcquery::varint::{read_varint, varint_len, write_varint, VarInt};

fn encoded(v: u32) -> Vec<u8> {
    let mut out = Vec::new();
    write_varint(v, &mut out);
    out
}

#[test]
fn known_encodings() {
    assert_eq!(encoded(0), vec![0x00]);
    assert_eq!(encoded(1), vec![0x01]);
    assert_eq!(encoded(127), vec![0x7f]);
    assert_eq!(encoded(128), vec![0x80, 0x01]);
    assert_eq!(encoded(255), vec![0xff, 0x01]);
    assert_eq!(encoded(25565), vec![0xdd, 0xc7, 0x01]);
    assert_eq!(encoded(2097151), vec![0xff, 0xff, 0x7f]);
    assert_eq!(encoded(2147483647), vec![0xff, 0xff, 0xff, 0xff, 0x07]);
    assert_eq!(encoded(u32::MAX), vec![0xff, 0xff, 0xff, 0xff, 0x0f]);
}

#[test]
fn writing_appends() {
    let mut out = vec![9, 9];
    write_varint(300, &mut out);
    assert_eq!(out, vec![9, 9, 0xac, 0x02]);
}

#[test]
fn lengths_match_encodings() {
    for v in [0, 1, 127, 128, 16383, 16384, 2097151, 2097152, 268435455, 268435456, u32::MAX] {
        assert_eq!(varint_len(v), encoded(v).len());
    }
    assert_eq!(varint_len(0), 1);
    assert_eq!(varint_len(u32::MAX), 5);
}

#[test]
fn reading_returns_what_was_written() {
    for v in [0, 1, 127, 128, 300, 25565, 2097151, 2147483647, u32::MAX] {
        let mut bytes = encoded(v);
        let len = bytes.len();
        bytes.extend_from_slice(&[0xff, 0x00]);
        assert_eq!(read_varint(&bytes, 0), VarInt::Value { value: v as u64, len });
    }
}

#[test]
fn reading_starts_at_the_position_given() {
    let bytes = [0xff, 0xff, 0xac, 0x02, 0x05];
    assert_eq!(read_varint(&bytes, 2), VarInt::Value { value: 300, len: 2 });
    assert_eq!(read_varint(&bytes, 4), VarInt::Value { value: 5, len: 1 });
    assert_eq!(read_varint(&bytes, 5), VarInt::Incomplete);
}

#[test]
fn a_cut_integer_is_incomplete() {
    assert_eq!(read_varint(&[], 0), VarInt::Incomplete);
    assert_eq!(read_varint(&[0x80], 0), VarInt::Incomplete);
    assert_eq!(read_varint(&[0xff, 0xff, 0xff, 0xff], 0), VarInt::Incomplete);
}

#[test]
fn more_than_five_bytes_is_malformed() {
    assert_eq!(read_varint(&[0x80, 0x80, 0x80, 0x80, 0x80], 0), VarInt::Malformed);
    assert_eq!(read_varint(&[0xff, 0xff, 0xff, 0xff, 0xff, 0x01], 0), VarInt::Malformed);
}

#[test]
fn more_than_thirty_two_bits_is_malformed() {
    assert_eq!(read_varint(&[0xff, 0xff, 0xff, 0xff, 0x10], 0), VarInt::Malformed);
    assert_eq!(read_varint(&[0x80, 0x80, 0x80, 0x80, 0x7f], 0), VarInt::Malformed);
}

#[test]
fn longer_encodings_of_small_values_are_read() {
    assert_eq!(read_varint(&[0x80, 0x00], 0), VarInt::Value { value: 0, len: 2 });
    assert_eq!(read_varint(&[0x81, 0x80, 0x80, 0x80, 0x00], 0), VarInt::Value { value: 1, len: 5 });
}
