//! Addresses written out: the dotted form of IPv4 and the colon form of
//! IPv6, as a host name may hold them in place of a name.
//!
//! An IPv4 address is four decimal numbers up to 255 set apart by dots,
//! none with a leading zero. An IPv6 address is eight groups of one to four
//! hexadecimal digits set apart by colons; one run of zero groups may be
//! left out and marked by a double colon; and the last two groups may be
//! written as an IPv4 address.

use vstd::prelude::*;

use crate::decimal::{canonical_magnitude, digits_value, parse_magnitude};
use crate::fields::{lemma_split_fields_shape, split_bounds, split_fields, to_chars};

verus! {

/// The character between two numbers of an IPv4 address.
pub const DOT: char = '.';

/// The character between two groups of an IPv6 address.
pub const COLON: char = ':';

/// The number of groups in an IPv6 address.
pub const GROUP_COUNT: usize = 8;

/// An IP address as a number: the four or sixteen bytes of the address,
/// the first byte most significant.
#[derive(Clone, Copy, Debug, PartialEq, Eq, Structural)]
pub enum IpAddress {
    V4(u32),
    V6(u128),
}

/// The number a hexadecimal digit stands for, in either case.
pub open spec fn hex_digit_value(c: char) -> Option<nat> {
    let code = c as u32;
    if 48 <= code <= 57 {
        Some((code - 48) as nat)
    } else if 97 <= code <= 102 {
        Some((code - 87) as nat)
    } else if 65 <= code <= 70 {
        Some((code - 55) as nat)
    } else {
        None
    }
}

/// Every character of `f` is a hexadecimal digit.
pub open spec fn all_hex(f: Seq<char>) -> bool {
    forall|i: int| 0 <= i < f.len() ==> hex_digit_value(#[trigger] f[i]) is Some
}

/// The number that a run of hexadecimal digits denotes.
pub open spec fn hex_value(f: Seq<char>) -> nat
    decreases f.len(),
{
    if f.len() == 0 {
        0
    } else {
        16 * hex_value(f.drop_last()) + match hex_digit_value(f.last()) {
            Some(d) => d,
            None => 0,
        }
    }
}

/// The value of one group of an IPv6 address: one to four hexadecimal
/// digits.
pub open spec fn group_value(f: Seq<char>) -> Option<u16> {
    if 1 <= f.len() <= 4 && all_hex(f) {
        Some(hex_value(f) as u16)
    } else {
        None
    }
}

/// The value of one number of an IPv4 address: decimal, at most 255,
/// without a leading zero.
pub open spec fn octet_value(f: Seq<char>) -> Option<u8> {
    if canonical_magnitude(f) && digits_value(f) <= 255 {
        Some(digits_value(f) as u8)
    } else {
        None
    }
}

/// The IPv4 address that `s` writes out, if it does.
pub open spec fn ipv4_value(s: Seq<char>) -> Option<u32> {
    let f = split_fields(s, DOT);
    if f.len() == 4 && octet_value(f[0]) is Some && octet_value(f[1]) is Some && octet_value(
        f[2],
    ) is Some && octet_value(f[3]) is Some {
        Some(
            (((octet_value(f[0]).unwrap() * 256 + octet_value(f[1]).unwrap()) * 256 + octet_value(
                f[2],
            ).unwrap()) * 256 + octet_value(f[3]).unwrap()) as u32,
        )
    } else {
        None
    }
}

/// The groups that the pieces `p` write out, each piece one group.
pub open spec fn hex_groups(p: Seq<Seq<char>>) -> Option<Seq<u16>>
    decreases p.len(),
{
    if p.len() == 0 {
        Some(Seq::<u16>::empty())
    } else {
        match (hex_groups(p.drop_last()), group_value(p.last())) {
            (Some(init), Some(g)) => Some(init.push(g)),
            _ => None,
        }
    }
}

/// The two groups that an IPv4 address fills.
pub open spec fn ipv4_groups(v: u32) -> Seq<u16> {
    seq![(v / 65536) as u16, (v % 65536) as u16]
}

/// The groups that the pieces `p` write out at the end of an address: each
/// piece one group, except that the last piece may be an IPv4 address,
/// which makes two.
pub open spec fn end_groups(p: Seq<Seq<char>>) -> Option<Seq<u16>> {
    if p.len() == 0 {
        Some(Seq::<u16>::empty())
    } else {
        match hex_groups(p.drop_last()) {
            Some(init) => match group_value(p.last()) {
                Some(g) => Some(init.push(g)),
                None => match ipv4_value(p.last()) {
                    Some(v) => Some(init + ipv4_groups(v)),
                    None => None,
                },
            },
            None => None,
        }
    }
}

/// The index of the first empty piece of `p`, or the number of pieces if
/// none is empty.
pub open spec fn first_empty(p: Seq<Seq<char>>) -> int
    decreases p.len(),
{
    if p.len() == 0 || p[0].len() == 0 {
        0
    } else {
        1 + first_empty(p.skip(1))
    }
}

/// The pieces behind a double colon whose first empty piece is piece `i`,
/// if there is a double colon there. At the front and at the end of a text
/// a double colon shows as two empty pieces, in between as one; a text that
/// is nothing but a double colon shows as three.
pub open spec fn pieces_behind_gap(p: Seq<Seq<char>>, i: int) -> Option<Seq<Seq<char>>> {
    let n = p.len() as int;
    if i == 0 {
        if n >= 3 && p[1].len() == 0 {
            if n == 3 && p[2].len() == 0 {
                Some(Seq::<Seq<char>>::empty())
            } else {
                Some(p.skip(2))
            }
        } else {
            None
        }
    } else if i == n - 1 {
        None
    } else if i == n - 2 && p[n - 1].len() == 0 {
        Some(Seq::<Seq<char>>::empty())
    } else {
        Some(p.skip(i + 1))
    }
}

/// The number that groups denote, the first group most significant.
pub open spec fn groups_value(g: Seq<u16>) -> nat
    decreases g.len(),
{
    if g.len() == 0 {
        0
    } else {
        65536 * groups_value(g.drop_last()) + g.last() as nat
    }
}

/// `n` groups of zero.
pub open spec fn zero_groups(n: nat) -> Seq<u16> {
    Seq::new(n, |k: int| 0u16)
}

/// The eight groups that `s` writes out, if it writes out an IPv6
/// address: either all eight, or those before and behind a double colon
/// with the zero groups between them that the double colon stands for, at
/// least one.
pub open spec fn ipv6_groups(s: Seq<char>) -> Option<Seq<u16>> {
    let p = split_fields(s, COLON);
    let i = first_empty(p);
    if i == p.len() {
        match end_groups(p) {
            Some(g) => if g.len() == GROUP_COUNT {
                Some(g)
            } else {
                None
            },
            None => None,
        }
    } else {
        match pieces_behind_gap(p, i) {
            Some(behind) => match (hex_groups(p.take(i)), end_groups(behind)) {
                (Some(head), Some(tail)) => if head.len() + tail.len() < GROUP_COUNT {
                    Some(head + zero_groups((GROUP_COUNT - head.len() - tail.len()) as nat) + tail)
                } else {
                    None
                },
                _ => None,
            },
            None => None,
        }
    }
}

/// The IPv6 address that `s` writes out, if it does.
pub open spec fn ipv6_value(s: Seq<char>) -> Option<u128> {
    match ipv6_groups(s) {
        Some(g) => Some(groups_value(g) as u128),
        None => None,
    }
}

/// The address that `s` writes out, if it does.
pub open spec fn ip_literal(s: Seq<char>) -> Option<IpAddress> {
    match ipv4_value(s) {
        Some(v) => Some(IpAddress::V4(v)),
        None => match ipv6_value(s) {
            Some(v) => Some(IpAddress::V6(v)),
            None => None,
        },
    }
}

/// 16 to the power `n`.
pub open spec fn pow16(n: nat) -> nat
    decreases n,
{
    if n == 0 {
        1
    } else {
        16 * pow16((n - 1) as nat)
    }
}

/// A run of `n` hexadecimal digits denotes a number below 16 to the `n`.
pub proof fn lemma_hex_value_bound(f: Seq<char>)
    ensures
        hex_value(f) < pow16(f.len()),
        f.len() <= 4 ==> hex_value(f) < 65536,
    decreases f.len(),
{
    reveal_with_fuel(pow16, 5);
    if f.len() > 0 {
        lemma_hex_value_bound(f.drop_last());
    }
}

/// Reads the group `chars[start..end]`.
fn read_group(chars: &Vec<char>, start: usize, end: usize) -> (r: Option<u16>)
    requires
        start <= end <= chars@.len(),
    ensures
        r == group_value(chars@.subrange(start as int, end as int)),
{
    let ghost f = chars@.subrange(start as int, end as int);
    if end - start < 1 || end - start > 4 {
        return None;
    }
    let mut acc: u32 = 0;
    let mut i: usize = start;
    proof {
        assert(f.take(0) =~= Seq::<char>::empty());
    }
    while i < end
        invariant
            start <= i <= end <= chars@.len(),
            end - start <= 4,
            f == chars@.subrange(start as int, end as int),
            all_hex(f.take(i - start)),
            acc == hex_value(f.take(i - start)),
            acc < 65536,
        decreases end - i,
    {
        let c = chars[i];
        let code: u32 = c as u32;
        let ghost next = f.take(i - start + 1);
        proof {
            assert(f[i - start] == c);
            assert(next.drop_last() =~= f.take(i - start));
            assert(next.last() == c);
            lemma_hex_value_bound(next);
        }
        let digit: u32 = if 48 <= code && code <= 57 {
            code - 48
        } else if 97 <= code && code <= 102 {
            code - 87
        } else if 65 <= code && code <= 70 {
            code - 55
        } else {
            return None;
        };
        acc = acc * 16 + digit;
        proof {
            assert forall|j: int| 0 <= j < next.len() implies hex_digit_value(
                #[trigger] next[j],
            ) is Some by {
                if j < i - start {
                    assert(next[j] == f.take(i - start)[j]);
                }
            }
        }
        i = i + 1;
    }
    proof {
        assert(f.take(end - start) =~= f);
    }
    Some(acc as u16)
}

/// Reads the number `chars[start..end]` of an IPv4 address.
fn read_octet(chars: &Vec<char>, start: usize, end: usize) -> (r: Option<u8>)
    requires
        start <= end <= chars@.len(),
    ensures
        r == octet_value(chars@.subrange(start as int, end as int)),
{
    if end - start > 1 && chars[start] == '0' {
        proof {
            assert(chars@.subrange(start as int, end as int)[0] == chars@[start as int]);
        }
        return None;
    }
    proof {
        if end - start > 1 {
            assert(chars@.subrange(start as int, end as int)[0] == chars@[start as int]);
        }
    }
    match parse_magnitude(chars, start, end, 255) {
        Some(m) => Some(m as u8),
        None => None,
    }
}

/// Reads the IPv4 address `chars[start..end]`.
fn read_ipv4(chars: &Vec<char>, start: usize, end: usize) -> (r: Option<u32>)
    requires
        start <= end <= chars@.len(),
    ensures
        r == ipv4_value(chars@.subrange(start as int, end as int)),
{
    let bounds = match split_bounds(chars, start, end, DOT, 4) {
        Some(bounds) => bounds,
        None => {
            return None;
        },
    };
    if bounds.len() != 4 {
        return None;
    }
    let a = match read_octet(chars, bounds[0].0, bounds[0].1) {
        Some(v) => v,
        None => {
            return None;
        },
    };
    let b = match read_octet(chars, bounds[1].0, bounds[1].1) {
        Some(v) => v,
        None => {
            return None;
        },
    };
    let c = match read_octet(chars, bounds[2].0, bounds[2].1) {
        Some(v) => v,
        None => {
            return None;
        },
    };
    let d = match read_octet(chars, bounds[3].0, bounds[3].1) {
        Some(v) => v,
        None => {
            return None;
        },
    };
    Some(((a as u32 * 256 + b as u32) * 256 + c as u32) * 256 + d as u32)
}

/// 65536 to the power `n`.
pub open spec fn pow65536(n: nat) -> nat
    decreases n,
{
    if n == 0 {
        1
    } else {
        65536 * pow65536((n - 1) as nat)
    }
}

/// `n` groups denote a number below 65536 to the `n`; eight groups fit in
/// 128 bits.
pub proof fn lemma_groups_value_bound(g: Seq<u16>)
    ensures
        groups_value(g) < pow65536(g.len()),
        g.len() <= 8 ==> groups_value(g) <= u128::MAX,
        g.len() < 8 ==> groups_value(g) < 0x1_0000_0000_0000_0000_0000_0000_0000,
    decreases g.len(),
{
    reveal_with_fuel(pow65536, 9);
    if g.len() > 0 {
        lemma_groups_value_bound(g.drop_last());
    }
}

/// Where some piece of a prefix is no group, the pieces as a whole write
/// out no groups.
pub proof fn lemma_hex_groups_prefix(p: Seq<Seq<char>>, j: int)
    requires
        0 <= j <= p.len(),
        hex_groups(p.take(j)) is None,
    ensures
        hex_groups(p) is None,
    decreases p.len(),
{
    if j == p.len() {
        assert(p.take(j) =~= p);
    } else {
        assert(p.drop_last().take(j) =~= p.take(j));
        lemma_hex_groups_prefix(p.drop_last(), j);
    }
}

/// Pieces write out as many groups as there are pieces, or one more where
/// the last piece is an IPv4 address.
pub proof fn lemma_groups_len(p: Seq<Seq<char>>)
    ensures
        hex_groups(p) matches Some(g) ==> g.len() == p.len(),
        end_groups(p) matches Some(g) ==> p.len() <= g.len() <= p.len() + 1,
    decreases p.len(),
{
    if p.len() > 0 {
        lemma_groups_len(p.drop_last());
    }
}

/// The first empty piece is the one that no empty piece precedes.
pub proof fn lemma_first_empty(p: Seq<Seq<char>>, i: int)
    requires
        0 <= i <= p.len(),
        forall|j: int| 0 <= j < i ==> (#[trigger] p[j]).len() > 0,
        i < p.len() ==> p[i].len() == 0,
    ensures
        first_empty(p) == i,
    decreases i,
{
    if i > 0 {
        let q = p.skip(1);
        assert forall|j: int| 0 <= j < i - 1 implies (#[trigger] q[j]).len() > 0 by {
            assert(q[j] == p[j + 1]);
        }
        lemma_first_empty(q, i - 1);
    }
}

/// The first empty piece lies among the pieces, or right behind them.
pub proof fn lemma_first_empty_bounds(p: Seq<Seq<char>>)
    ensures
        0 <= first_empty(p) <= p.len(),
    decreases p.len(),
{
    if p.len() > 0 && p[0].len() > 0 {
        lemma_first_empty_bounds(p.skip(1));
    }
}

/// An IPv6 address has at most nine pieces between its colons.
pub proof fn lemma_piece_count(s: Seq<char>)
    requires
        ipv6_groups(s) is Some,
    ensures
        split_fields(s, COLON).len() <= 9,
{
    let p = split_fields(s, COLON);
    let i = first_empty(p);
    lemma_first_empty_bounds(p);
    lemma_groups_len(p);
    if i != p.len() {
        let behind = pieces_behind_gap(p, i).unwrap();
        lemma_groups_len(p.take(i));
        lemma_groups_len(behind);
    }
}

/// The pieces `p` are the stretches of `chars` that `bounds` marks.
pub open spec fn spells(chars: Seq<char>, bounds: Seq<(usize, usize)>, p: Seq<Seq<char>>) -> bool {
    &&& bounds.len() == p.len()
    &&& forall|k: int|
        0 <= k < bounds.len() ==> {
            &&& (#[trigger] bounds[k]).0 <= bounds[k].1 <= chars.len()
            &&& p[k] == chars.subrange(bounds[k].0 as int, bounds[k].1 as int)
        }
}

/// Reads the pieces `from..to` as groups and appends them to `out`. Where
/// it fails, `out` holds the groups read until then.
fn read_hex_groups(
    chars: &Vec<char>,
    bounds: &Vec<(usize, usize)>,
    from: usize,
    to: usize,
    out: &mut Vec<u16>,
    Ghost(p): Ghost<Seq<Seq<char>>>,
) -> (ok: bool)
    requires
        spells(chars@, bounds@, p),
        from <= to <= bounds@.len(),
    ensures
        match hex_groups(p.subrange(from as int, to as int)) {
            Some(g) => ok && final(out)@ == old(out)@ + g,
            None => !ok,
        },
{
    let mut k: usize = from;
    proof {
        assert(p.subrange(from as int, from as int) =~= Seq::<Seq<char>>::empty());
        assert(old(out)@ + Seq::<u16>::empty() =~= old(out)@);
    }
    while k < to
        invariant
            spells(chars@, bounds@, p),
            from <= k <= to <= bounds@.len(),
            hex_groups(p.subrange(from as int, k as int)) matches Some(g) && out@ == old(out)@ + g,
        decreases to - k,
    {
        let ghost done = hex_groups(p.subrange(from as int, k as int)).unwrap();
        let ghost next = p.subrange(from as int, k + 1);
        proof {
            assert(next.drop_last() =~= p.subrange(from as int, k as int));
            assert(next.last() == p[k as int]);
        }
        match read_group(chars, bounds[k].0, bounds[k].1) {
            Some(g) => {
                out.push(g);
                proof {
                    assert(out@ =~= old(out)@ + done.push(g));
                }
            },
            None => {
                proof {
                    let all = p.subrange(from as int, to as int);
                    assert(all.take(k - from + 1) =~= next);
                    lemma_hex_groups_prefix(all, k - from + 1);
                }
                return false;
            },
        }
        k = k + 1;
    }
    true
}

/// Reads the pieces `from..to` as the groups at the end of an address and
/// appends them to `out`.
fn read_end_groups(
    chars: &Vec<char>,
    bounds: &Vec<(usize, usize)>,
    from: usize,
    to: usize,
    out: &mut Vec<u16>,
    Ghost(p): Ghost<Seq<Seq<char>>>,
) -> (ok: bool)
    requires
        spells(chars@, bounds@, p),
        from <= to <= bounds@.len(),
    ensures
        match end_groups(p.subrange(from as int, to as int)) {
            Some(g) => ok && final(out)@ == old(out)@ + g,
            None => !ok,
        },
{
    if from == to {
        proof {
            assert(old(out)@ + Seq::<u16>::empty() =~= old(out)@);
        }
        return true;
    }
    let ghost all = p.subrange(from as int, to as int);
    proof {
        assert(all.drop_last() =~= p.subrange(from as int, to - 1));
        assert(all.last() == p[to - 1]);
    }
    if !read_hex_groups(chars, bounds, from, to - 1, out, Ghost(p)) {
        return false;
    }
    let ghost init = hex_groups(all.drop_last()).unwrap();
    let last = bounds[to - 1];
    match read_group(chars, last.0, last.1) {
        Some(g) => {
            out.push(g);
            proof {
                assert(out@ =~= old(out)@ + init.push(g));
            }
            true
        },
        None => match read_ipv4(chars, last.0, last.1) {
            Some(v) => {
                out.push((v / 65536) as u16);
                out.push((v % 65536) as u16);
                proof {
                    assert(out@ =~= old(out)@ + (init + ipv4_groups(v)));
                }
                true
            },
            None => false,
        },
    }
}

/// The number that at most eight groups denote.
fn groups_number(groups: &Vec<u16>) -> (r: u128)
    requires
        groups@.len() <= GROUP_COUNT,
    ensures
        r == groups_value(groups@),
{
    let mut acc: u128 = 0;
    let mut i: usize = 0;
    proof {
        assert(groups@.take(0) =~= Seq::<u16>::empty());
    }
    while i < groups.len()
        invariant
            i <= groups@.len() <= GROUP_COUNT,
            acc == groups_value(groups@.take(i as int)),
        decreases groups@.len() - i,
    {
        proof {
            lemma_groups_value_bound(groups@.take(i as int));
            assert(groups@.take(i + 1).drop_last() =~= groups@.take(i as int));
        }
        acc = acc * 65536 + groups[i] as u128;
        i = i + 1;
    }
    proof {
        assert(groups@.take(i as int) =~= groups@);
    }
    acc
}

/// Reads the IPv6 address that `chars` writes out.
fn read_ipv6(chars: &Vec<char>) -> (r: Option<u128>)
    ensures
        r == ipv6_value(chars@),
{
    let ghost s = chars@;
    let ghost p = split_fields(s, COLON);
    proof {
        assert(chars@.subrange(0, chars@.len() as int) =~= s);
        lemma_split_fields_shape(s, COLON);
    }
    let bounds = match split_bounds(chars, 0, chars.len(), COLON, 9) {
        Some(bounds) => bounds,
        None => {
            proof {
                if ipv6_groups(s) is Some {
                    lemma_piece_count(s);
                }
            }
            return None;
        },
    };
    let n = bounds.len();
    assert(spells(chars@, bounds@, p));
    let mut i: usize = 0;
    while i < n && bounds[i].0 < bounds[i].1
        invariant
            i <= n == bounds@.len(),
            spells(chars@, bounds@, p),
            forall|j: int| 0 <= j < i ==> (#[trigger] p[j]).len() > 0,
        decreases n - i,
    {
        i = i + 1;
    }
    proof {
        lemma_first_empty(p, i as int);
    }
    let mut groups: Vec<u16> = Vec::new();
    if i == n {
        proof {
            assert(p.subrange(0, n as int) =~= p);
            lemma_groups_len(p);
        }
        if !read_end_groups(chars, &bounds, 0, n, &mut groups, Ghost(p)) {
            return None;
        }
        if groups.len() != GROUP_COUNT {
            return None;
        }
        proof {
            assert(Seq::<u16>::empty() + end_groups(p).unwrap() =~= end_groups(p).unwrap());
        }
    } else {
        let behind: usize = if i == 0 {
            if n >= 3 && bounds[1].0 == bounds[1].1 {
                if n == 3 && bounds[2].0 == bounds[2].1 {
                    n
                } else {
                    2
                }
            } else {
                return None;
            }
        } else if i == n - 1 {
            return None;
        } else if i == n - 2 && bounds[n - 1].0 == bounds[n - 1].1 {
            n
        } else {
            i + 1
        };
        let ghost tail_pieces = p.subrange(behind as int, n as int);
        proof {
            assert(pieces_behind_gap(p, i as int) == Some(tail_pieces)) by {
                if behind == n {
                    assert(tail_pieces =~= Seq::<Seq<char>>::empty());
                } else {
                    assert(tail_pieces =~= p.skip(behind as int));
                }
            }
            assert(p.subrange(0, i as int) =~= p.take(i as int));
            lemma_groups_len(p.take(i as int));
            lemma_groups_len(tail_pieces);
        }
        if !read_hex_groups(chars, &bounds, 0, i, &mut groups, Ghost(p)) {
            return None;
        }
        let mut tail: Vec<u16> = Vec::new();
        if !read_end_groups(chars, &bounds, behind, n, &mut tail, Ghost(p)) {
            return None;
        }
        let ghost head_groups = hex_groups(p.take(i as int)).unwrap();
        let ghost tail_groups = end_groups(tail_pieces).unwrap();
        proof {
            assert(groups@ =~= head_groups);
            assert(tail@ =~= tail_groups);
        }
        if groups.len() + tail.len() >= GROUP_COUNT {
            return None;
        }
        let missing: usize = GROUP_COUNT - groups.len() - tail.len();
        let mut k: usize = 0;
        while k < missing
            invariant
                k <= missing,
                groups@ == head_groups + zero_groups(k as nat),
            decreases missing - k,
        {
            groups.push(0);
            proof {
                assert(groups@ =~= head_groups + zero_groups((k + 1) as nat));
            }
            k = k + 1;
        }
        groups.append(&mut tail);
    }
    Some(groups_number(&groups))
}

/// Reads `s` as an address written out: the address, or `None` where `s`
/// is not one.
pub fn read_ip_literal(s: &str) -> (r: Option<IpAddress>)
    ensures
        r == ip_literal(s@),
{
    let chars = to_chars(s);
    proof {
        assert(chars@.subrange(0, chars@.len() as int) =~= s@);
    }
    match read_ipv4(&chars, 0, chars.len()) {
        Some(v) => Some(IpAddress::V4(v)),
        None => match read_ipv6(&chars) {
            Some(v) => Some(IpAddress::V6(v)),
            None => None,
        },
    }
}

} // verus!
