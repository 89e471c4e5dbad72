//! The field encodings that packets are made of: big-endian integers of a
//! fixed width, and strings as a length followed by UTF-8 bytes.

use vstd::prelude::*;
use vstd::slice::*;
use vstd::string::*;
use vstd::utf8::*;

use crate::varint::{
    lemma_varint_round_trip, parse_varint, read_varint, varint_bytes, write_varint, VarInt,
};

verus! {

/// 256 to the power `n`.
pub open spec fn pow256(n: nat) -> nat
    decreases n,
{
    if n == 0 {
        1
    } else {
        256 * pow256((n - 1) as nat)
    }
}

/// The `n` low bytes of `v`, the most significant first.
pub open spec fn be_bytes(v: nat, n: nat) -> Seq<u8>
    decreases n,
{
    if n == 0 {
        Seq::<u8>::empty()
    } else {
        be_bytes(v / 256, (n - 1) as nat).push((v % 256) as u8)
    }
}

/// The number that bytes denote, the most significant first.
pub open spec fn be_value(p: Seq<u8>) -> nat
    decreases p.len(),
{
    if p.len() == 0 {
        0
    } else {
        256 * be_value(p.drop_last()) + p.last() as nat
    }
}

/// A string on the wire: the number of its UTF-8 bytes, then the bytes.
pub open spec fn string_bytes(text: Seq<char>) -> Seq<u8> {
    varint_bytes(encode_utf8(text).len()) + encode_utf8(text)
}

/// The text of a payload that is one string and nothing else: a length,
/// then exactly that many bytes of valid UTF-8.
pub open spec fn parse_string(p: Seq<u8>) -> Option<Seq<char>> {
    match parse_varint(p) {
        VarInt::Value { value, len } => if p.len() - len == value && valid_utf8(
            p.skip(len as int),
        ) {
            Some(decode_utf8(p.skip(len as int)))
        } else {
            None
        },
        _ => None,
    }
}

/// The powers of 256 up to the eighth.
pub proof fn lemma_pow256_values()
    ensures
        pow256(0) == 1,
        pow256(1) == 0x100,
        pow256(2) == 0x1_0000,
        pow256(3) == 0x100_0000,
        pow256(4) == 0x1_0000_0000,
        pow256(5) == 0x100_0000_0000,
        pow256(6) == 0x1_0000_0000_0000,
        pow256(7) == 0x100_0000_0000_0000,
        pow256(8) == 0x1_0000_0000_0000_0000,
{
    reveal_with_fuel(pow256, 9);
}

/// `n` bytes denote a number below 256 to the `n`.
pub proof fn lemma_be_value_bound(p: Seq<u8>)
    ensures
        be_value(p) < pow256(p.len()),
    decreases p.len(),
{
    reveal_with_fuel(pow256, 2);
    if p.len() > 0 {
        lemma_be_value_bound(p.drop_last());
    }
}

/// Writing a number that fits in `n` bytes and reading the bytes gives the
/// number back.
pub proof fn lemma_be_round_trip(v: nat, n: nat)
    requires
        v < pow256(n),
    ensures
        be_bytes(v, n).len() == n,
        be_value(be_bytes(v, n)) == v,
    decreases n,
{
    reveal_with_fuel(pow256, 2);
    if n > 0 {
        lemma_be_round_trip(v / 256, (n - 1) as nat);
        assert(be_bytes(v, n).drop_last() =~= be_bytes(v / 256, (n - 1) as nat));
    }
}

/// Reading the encoding of a text as a string gives the text back.
pub proof fn lemma_string_round_trip(text: Seq<char>)
    requires
        encode_utf8(text).len() <= u32::MAX,
    ensures
        parse_string(string_bytes(text)) == Some(text),
{
    let body = encode_utf8(text);
    lemma_varint_round_trip(body.len() as u32, body);
    let head = varint_bytes(body.len());
    assert(string_bytes(text).skip(head.len() as int) =~= body);
    encode_utf8_valid_utf8(text);
    encode_utf8_decode_utf8(text);
}

/// Appends `bytes` to `out`.
pub fn push_all(out: &mut Vec<u8>, bytes: &[u8])
    ensures
        final(out)@ == old(out)@ + bytes@,
{
    let mut i: usize = 0;
    while i < bytes.len()
        invariant
            i <= bytes@.len(),
            out@ == old(out)@ + bytes@.take(i as int),
        decreases bytes@.len() - i,
    {
        out.push(bytes[i]);
        proof {
            assert(bytes@.take(i + 1) =~= bytes@.take(i as int).push(bytes@[i as int]));
        }
        i = i + 1;
    }
    proof {
        assert(bytes@.take(i as int) =~= bytes@);
    }
}

/// Appends the `n` low bytes of `v` to `out`, the most significant first.
pub fn push_be(v: u64, n: usize, out: &mut Vec<u8>)
    requires
        n <= 8,
    ensures
        final(out)@ == old(out)@ + be_bytes(v as nat, n as nat),
    decreases n,
{
    if n > 0 {
        push_be(v / 256, n - 1, out);
        out.push((v % 256) as u8);
        proof {
            assert(final(out)@ =~= old(out)@ + be_bytes(v as nat, n as nat));
        }
    } else {
        proof {
            assert(old(out)@ + be_bytes(v as nat, 0) =~= old(out)@);
        }
    }
}

/// The number that at most eight bytes denote, the most significant first.
pub fn read_be(p: &[u8]) -> (r: u64)
    requires
        p@.len() <= 8,
    ensures
        r == be_value(p@),
{
    let mut acc: u64 = 0;
    let mut i: usize = 0;
    proof {
        assert(p@.take(0) =~= Seq::<u8>::empty());
    }
    while i < p.len()
        invariant
            i <= p@.len() <= 8,
            acc == be_value(p@.take(i as int)),
        decreases p@.len() - i,
    {
        proof {
            lemma_be_value_bound(p@.take(i as int));
            lemma_pow256_values();
            assert(p@.take(i + 1).drop_last() =~= p@.take(i as int));
            assert(pow256(i as nat) <= pow256(7)) by {
                lemma_pow256_values();
            }
        }
        acc = acc * 256 + p[i] as u64;
        i = i + 1;
    }
    proof {
        assert(p@.take(i as int) =~= p@);
    }
    acc
}

/// Appends `text` as a string, unless it is too long for its length to be
/// written; then `out` is left as it was.
pub fn push_string(text: &str, out: &mut Vec<u8>) -> (done: bool)
    ensures
        done == (encode_utf8(text@).len() <= u32::MAX),
        final(out)@ == if done {
            old(out)@ + string_bytes(text@)
        } else {
            old(out)@
        },
{
    let bytes = text.as_bytes();
    if bytes.len() > 0xffff_ffff {
        return false;
    }
    write_varint(bytes.len() as u32, out);
    push_all(out, bytes);
    proof {
        assert(final(out)@ =~= old(out)@ + string_bytes(text@));
    }
    true
}

/// `String::from_utf8` of the standard library: the bytes as a string where
/// they are valid UTF-8, and nothing where they are not. The string holds
/// exactly the bytes given.
#[verifier::external_body]
fn string_from_utf8(bytes: Vec<u8>) -> (r: Option<String>)
    ensures
        r is Some <==> valid_utf8(bytes@),
        r matches Some(s) ==> encode_utf8(s@) == bytes@,
{
    String::from_utf8(bytes).ok()
}

/// Reads a payload that is one string and nothing else.
pub fn read_string(p: &[u8]) -> (r: Option<String>)
    ensures
        match parse_string(p@) {
            Some(text) => r matches Some(s) && s@ == text,
            None => r is None,
        },
{
    match read_varint(p, 0) {
        VarInt::Value { value, len } => {
            proof {
                assert(p@.skip(0) =~= p@);
            }
            if p.len() - len != value as usize {
                return None;
            }
            let body = slice_to_vec(slice_subrange(p, len, p.len()));
            proof {
                assert(p@.subrange(len as int, p@.len() as int) =~= p@.skip(len as int));
            }
            match string_from_utf8(body) {
                Some(s) => {
                    proof {
                        encode_utf8_decode_utf8(s@);
                    }
                    Some(s)
                },
                None => None,
            }
        },
        _ => {
            proof {
                assert(p@.skip(0) =~= p@);
            }
            None
        },
    }
}

} // verus!
