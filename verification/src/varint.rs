//! Variable-length unsigned integers: seven bits to a byte, the least
//! significant group first, the high bit set on every byte but the last.
//! A 32-bit value takes at most five bytes.

use vstd::prelude::*;

verus! {

/// The most bytes a 32-bit value takes.
pub const MAX_VARINT_LEN: usize = 5;

/// The encoding of `v`.
pub open spec fn varint_bytes(v: nat) -> Seq<u8>
    decreases v,
{
    if v < 128 {
        seq![v as u8]
    } else {
        seq![(v % 128 + 128) as u8] + varint_bytes(v / 128)
    }
}

/// 128 to the power `n`.
pub open spec fn pow128(n: nat) -> nat
    decreases n,
{
    if n == 0 {
        1
    } else {
        128 * pow128((n - 1) as nat)
    }
}

/// What stands at the front of a buffer where a variable-length integer is
/// expected.
#[derive(Clone, Copy, Debug, PartialEq, Eq, Structural)]
pub enum VarInt {
    /// A complete integer `value`, encoded in the first `len` bytes.
    Value { value: u64, len: usize },
    /// The buffer ends before the integer does.
    Incomplete,
    /// The integer does not end within the bytes allowed, or does not fit.
    Malformed,
}

/// Reads groups of seven bits from the front of `buf`, at most `n` of them.
pub open spec fn read_groups(buf: Seq<u8>, n: nat) -> VarInt
    decreases n,
{
    if n == 0 {
        VarInt::Malformed
    } else if buf.len() == 0 {
        VarInt::Incomplete
    } else if buf[0] < 128 {
        VarInt::Value { value: buf[0] as u64, len: 1 }
    } else {
        match read_groups(buf.skip(1), (n - 1) as nat) {
            VarInt::Value { value, len } => VarInt::Value {
                value: ((buf[0] - 128) + 128 * value) as u64,
                len: (len + 1) as usize,
            },
            other => other,
        }
    }
}

/// Reads a 32-bit integer from the front of `buf`. More than five bytes, or
/// a value beyond 32 bits, is malformed; any encoding within these limits is
/// accepted, the shortest or not.
pub open spec fn parse_varint(buf: Seq<u8>) -> VarInt {
    match read_groups(buf, MAX_VARINT_LEN as nat) {
        VarInt::Value { value, len } => if value <= u32::MAX {
            VarInt::Value { value, len }
        } else {
            VarInt::Malformed
        },
        other => other,
    }
}

/// The first powers of 128.
pub proof fn lemma_pow128_values()
    ensures
        pow128(0) == 1,
        pow128(1) == 128,
        pow128(2) == 16384,
        pow128(3) == 2097152,
        pow128(4) == 268435456,
        pow128(5) == 34359738368,
{
    reveal_with_fuel(pow128, 6);
}

/// An integer read in at most `n` groups is below 128 to the `n`, and its
/// encoding lies within the buffer.
pub proof fn lemma_read_groups_bound(buf: Seq<u8>, n: nat)
    requires
        n <= MAX_VARINT_LEN,
    ensures
        match read_groups(buf, n) {
            VarInt::Value { value, len } => value < pow128(n) && 1 <= len <= n && len <= buf.len(),
            _ => true,
        },
    decreases n,
{
    lemma_pow128_values();
    if n > 0 && buf.len() > 0 && buf[0] >= 128 {
        lemma_read_groups_bound(buf.skip(1), (n - 1) as nat);
        reveal_with_fuel(pow128, 2);
    }
}

/// The encoding of a value is one to five bytes long when the value fits in
/// 32 bits, and in general as long as the value has groups.
pub proof fn lemma_varint_len(v: nat, n: nat)
    requires
        1 <= n,
        v < pow128(n),
    ensures
        1 <= varint_bytes(v).len() <= n,
    decreases n,
{
    reveal_with_fuel(pow128, 2);
    if v >= 128 {
        assert(n >= 2);
        lemma_varint_len(v / 128, (n - 1) as nat);
    }
}

/// Reading the encoding of `v` gives `v` and stops where the encoding ends,
/// whatever follows it.
pub proof fn lemma_read_groups_round_trip(v: nat, n: nat, rest: Seq<u8>)
    requires
        1 <= n <= MAX_VARINT_LEN,
        v < pow128(n),
    ensures
        read_groups(varint_bytes(v) + rest, n) == (VarInt::Value {
            value: v as u64,
            len: varint_bytes(v).len() as usize,
        }),
    decreases n,
{
    lemma_pow128_values();
    reveal_with_fuel(pow128, 2);
    lemma_varint_len(v, n);
    let buf = varint_bytes(v) + rest;
    if v < 128 {
        assert(buf[0] == v as u8);
    } else {
        assert(n >= 2);
        let tail = varint_bytes(v / 128);
        assert(buf[0] == (v % 128 + 128) as u8);
        assert(buf.skip(1) =~= tail + rest);
        lemma_read_groups_round_trip(v / 128, (n - 1) as nat, rest);
        lemma_varint_len(v / 128, (n - 1) as nat);
    }
}

/// Reading the encoding of a 32-bit value gives the value back.
pub proof fn lemma_varint_round_trip(v: u32, rest: Seq<u8>)
    ensures
        parse_varint(varint_bytes(v as nat) + rest) == (VarInt::Value {
            value: v as u64,
            len: varint_bytes(v as nat).len() as usize,
        }),
        1 <= varint_bytes(v as nat).len() <= MAX_VARINT_LEN,
{
    lemma_pow128_values();
    lemma_varint_len(v as nat, 5);
    lemma_read_groups_round_trip(v as nat, 5, rest);
}

/// Appends the encoding of `v` to `out`.
pub fn write_varint(v: u32, out: &mut Vec<u8>)
    ensures
        final(out)@ == old(out)@ + varint_bytes(v as nat),
{
    let mut rest: u32 = v;
    while rest >= 128
        invariant
            out@ + varint_bytes(rest as nat) == old(out)@ + varint_bytes(v as nat),
        decreases rest,
    {
        let ghost before = out@;
        out.push((rest % 128 + 128) as u8);
        proof {
            assert(before + varint_bytes(rest as nat) =~= out@ + varint_bytes((rest / 128) as nat));
        }
        rest = rest / 128;
    }
    let ghost before = out@;
    out.push(rest as u8);
    proof {
        assert(out@ =~= before + varint_bytes(rest as nat));
    }
}

/// The number of bytes that the encoding of `v` takes.
pub fn varint_len(v: u32) -> (n: usize)
    ensures
        n == varint_bytes(v as nat).len(),
        1 <= n <= MAX_VARINT_LEN,
{
    proof {
        lemma_varint_round_trip(v, Seq::<u8>::empty());
    }
    let mut rest: u32 = v;
    let mut n: usize = 1;
    while rest >= 128
        invariant
            n + varint_bytes(rest as nat).len() == 1 + varint_bytes(v as nat).len(),
            varint_bytes(v as nat).len() <= MAX_VARINT_LEN,
            1 <= n,
        decreases rest,
    {
        rest = rest / 128;
        n = n + 1;
    }
    n
}

/// Reads at most `n` groups from `buf`, starting at `pos`.
fn read_groups_at(buf: &[u8], pos: usize, n: usize) -> (r: VarInt)
    requires
        pos <= buf@.len(),
        n <= MAX_VARINT_LEN,
    ensures
        r == read_groups(buf@.skip(pos as int), n as nat),
    decreases n,
{
    if n == 0 {
        VarInt::Malformed
    } else if pos >= buf.len() {
        VarInt::Incomplete
    } else {
        let first = buf[pos];
        proof {
            assert(buf@.skip(pos as int)[0] == first);
            assert(buf@.skip(pos as int).skip(1) =~= buf@.skip(pos + 1));
            lemma_read_groups_bound(buf@.skip(pos + 1), (n - 1) as nat);
            lemma_pow128_values();
        }
        if first < 128 {
            VarInt::Value { value: first as u64, len: 1 }
        } else {
            match read_groups_at(buf, pos + 1, n - 1) {
                VarInt::Value { value, len } => VarInt::Value {
                    value: (first - 128) as u64 + 128 * value,
                    len: len + 1,
                },
                other => other,
            }
        }
    }
}

/// Reads a 32-bit integer from `buf`, starting at `pos`.
pub fn read_varint(buf: &[u8], pos: usize) -> (r: VarInt)
    requires
        pos <= buf@.len(),
    ensures
        r == parse_varint(buf@.skip(pos as int)),
        r matches VarInt::Value { value, len } ==> value <= u32::MAX && 1 <= len <= MAX_VARINT_LEN
            && pos + len <= buf@.len(),
{
    proof {
        lemma_read_groups_bound(buf@.skip(pos as int), MAX_VARINT_LEN as nat);
    }
    match read_groups_at(buf, pos, MAX_VARINT_LEN) {
        VarInt::Value { value, len } => if value <= 0xffff_ffff {
            VarInt::Value { value, len }
        } else {
            VarInt::Malformed
        },
        other => other,
    }
}

} // verus!
