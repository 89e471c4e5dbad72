//! Decimal integer literals: what a run of characters denotes, how to read
//! it within a range, and how to write an integer back in its shortest form.

use vstd::prelude::*;
use vstd::string::*;

verus! {

/// The largest magnitude any supported integer type has: 2^127.
pub const MAX_MAGNITUDE: u128 = 0x8000_0000_0000_0000_0000_0000_0000_0000u128;

/// `c` is one of `0` to `9`.
pub open spec fn is_digit(c: char) -> bool {
    48 <= c as u32 <= 57
}

/// The number a digit stands for; 0 for any other character.
pub open spec fn digit_value(c: char) -> nat {
    if is_digit(c) {
        (c as u32 - 48) as nat
    } else {
        0
    }
}

/// The character that stands for `d`, for `d` below 10.
pub open spec fn digit_char(d: nat) -> char {
    (d + 48) as char
}

/// Every character of `s` is a digit.
pub open spec fn all_digits(s: Seq<char>) -> bool {
    forall|i: int| 0 <= i < s.len() ==> is_digit(#[trigger] s[i])
}

/// The number that a run of digits denotes in base ten, most significant
/// digit first.
pub open spec fn digits_value(s: Seq<char>) -> nat
    decreases s.len(),
{
    if s.len() == 0 {
        0
    } else {
        10 * digits_value(s.drop_last()) + digit_value(s.last())
    }
}

/// The magnitude of an unsigned literal: at least one digit and nothing else.
pub open spec fn magnitude(s: Seq<char>) -> Option<nat> {
    if s.len() >= 1 && all_digits(s) {
        Some(digits_value(s))
    } else {
        None
    }
}

/// The integer that a literal denotes: an optional `+`, or where `signed`
/// an optional `-`, followed by at least one digit. Anything else, white
/// space included, denotes nothing.
pub open spec fn literal_value(s: Seq<char>, signed: bool) -> Option<int> {
    if s.len() >= 1 && s[0] == '+' {
        match magnitude(s.skip(1)) {
            Some(m) => Some(m as int),
            None => None,
        }
    } else if signed && s.len() >= 1 && s[0] == '-' {
        match magnitude(s.skip(1)) {
            Some(m) => Some(-(m as int)),
            None => None,
        }
    } else {
        match magnitude(s) {
            Some(m) => Some(m as int),
            None => None,
        }
    }
}

/// The value of a literal, provided it lies between `lo` and `hi`.
pub open spec fn literal_in_range(s: Seq<char>, signed: bool, lo: int, hi: int) -> Option<int> {
    match literal_value(s, signed) {
        Some(v) => if lo <= v <= hi {
            Some(v)
        } else {
            None
        },
        None => None,
    }
}

/// The digits of `n` with no leading zero; `0` is written as one digit.
pub open spec fn decimal_digits(n: nat) -> Seq<char>
    decreases n,
{
    if n < 10 {
        seq![digit_char(n)]
    } else {
        decimal_digits(n / 10).push(digit_char(n % 10))
    }
}

/// The shortest literal that denotes `v`.
pub open spec fn decimal_text(v: int) -> Seq<char> {
    if v < 0 {
        seq!['-'] + decimal_digits((-v) as nat)
    } else {
        decimal_digits(v as nat)
    }
}

/// A run of digits without a leading zero, except that `0` stands alone.
pub open spec fn canonical_magnitude(s: Seq<char>) -> bool {
    s.len() >= 1 && all_digits(s) && (s.len() > 1 ==> s[0] != '0')
}

/// A literal in shortest form: no `+`, no leading zero, no `-0`.
pub open spec fn is_canonical(s: Seq<char>) -> bool {
    canonical_magnitude(s) || (s.len() >= 2 && s[0] == '-' && canonical_magnitude(s.skip(1))
        && s[1] != '0')
}

/// A digit is the character of its own value.
pub proof fn lemma_digit_char(c: char)
    requires
        is_digit(c),
    ensures
        digit_char(digit_value(c)) == c,
{
    let code = c as u32;
    assert(code as char == c);
}

/// A prefix of a run of digits denotes no more than the whole run.
pub proof fn lemma_digits_value_prefix(s: Seq<char>, k: int)
    requires
        0 <= k <= s.len(),
    ensures
        digits_value(s.take(k)) <= digits_value(s),
    decreases s.len(),
{
    if k == s.len() {
        assert(s.take(k) =~= s);
    } else {
        assert(s.drop_last().take(k) =~= s.take(k));
        lemma_digits_value_prefix(s.drop_last(), k);
    }
}

/// Appending one digit multiplies the value by ten and adds the digit.
pub proof fn lemma_digits_value_push(s: Seq<char>, c: char)
    ensures
        digits_value(s.push(c)) == 10 * digits_value(s) + digit_value(c),
{
    assert(s.push(c).drop_last() =~= s);
}

/// Writing a number and reading the digits back gives the number, and the
/// digits written are canonical.
pub proof fn lemma_decimal_digits_value(n: nat)
    ensures
        canonical_magnitude(decimal_digits(n)),
        digits_value(decimal_digits(n)) == n,
        n > 0 ==> decimal_digits(n)[0] != '0',
    decreases n,
{
    if n < 10 {
        let s = decimal_digits(n);
        assert(s =~= seq![digit_char(n)]);
        assert(s.drop_last() =~= Seq::<char>::empty());
        assert(digits_value(s.drop_last()) == 0);
        assert(digit_value(s.last()) == n);
    } else {
        let q = n / 10;
        let r = n % 10;
        lemma_decimal_digits_value(q);
        let t = decimal_digits(q);
        let s = decimal_digits(n);
        assert(s == t.push(digit_char(r)));
        lemma_digits_value_push(t, digit_char(r));
        assert(s[0] == t[0]);
        assert forall|i: int| 0 <= i < s.len() implies is_digit(#[trigger] s[i]) by {
            if i < t.len() {
                assert(s[i] == t[i]);
            }
        }
    }
}

/// Reading canonical digits and writing the number back gives the digits.
pub proof fn lemma_canonical_magnitude_text(s: Seq<char>)
    requires
        canonical_magnitude(s),
    ensures
        decimal_digits(digits_value(s)) == s,
        s[0] != '0' ==> digits_value(s) >= 1,
    decreases s.len(),
{
    let t = s.drop_last();
    let c = s.last();
    assert(is_digit(c));
    lemma_digit_char(c);
    if s.len() == 1 {
        assert(t =~= Seq::<char>::empty());
        assert(digits_value(t) == 0);
        assert(digits_value(s) == digit_value(c));
        assert(decimal_digits(digits_value(s)) =~= s);
    } else {
        assert(t[0] == s[0]);
        assert forall|i: int| 0 <= i < t.len() implies is_digit(#[trigger] t[i]) by {
            assert(t[i] == s[i]);
        }
        lemma_canonical_magnitude_text(t);
        let q = digits_value(t);
        let d = digit_value(c);
        let n = digits_value(s);
        assert(n == 10 * q + d);
        assert(n / 10 == q && n % 10 == d);
        assert(digit_char(d) == c);
        assert(decimal_digits(n) == decimal_digits(q).push(digit_char(d)));
        assert(t.push(c) =~= s);
    }
}

/// Every integer is what its shortest literal denotes.
pub proof fn lemma_decimal_text_value(v: int)
    ensures
        is_canonical(decimal_text(v)),
        literal_value(decimal_text(v), true) == Some(v),
        v >= 0 ==> literal_value(decimal_text(v), false) == Some(v),
{
    if v < 0 {
        let m = (-v) as nat;
        lemma_decimal_digits_value(m);
        let s = decimal_text(v);
        assert(s.skip(1) =~= decimal_digits(m));
        assert(s[0] == '-');
        assert(s[1] == decimal_digits(m)[0]);
    } else {
        lemma_decimal_digits_value(v as nat);
        let s = decimal_text(v);
        assert(is_digit(s[0]));
    }
}

/// A canonical literal is the shortest literal of what it denotes.
pub proof fn lemma_canonical_text(s: Seq<char>, signed: bool)
    requires
        is_canonical(s),
        literal_value(s, signed) is Some,
    ensures
        decimal_text(literal_value(s, signed).unwrap()) == s,
{
    if canonical_magnitude(s) {
        assert(is_digit(s[0]));
        lemma_canonical_magnitude_text(s);
    } else {
        let t = s.skip(1);
        assert(t[0] == s[1]);
        lemma_canonical_magnitude_text(t);
        assert(signed);
        assert(digits_value(t) >= 1);
        assert(seq!['-'] + t =~= s);
    }
}

/// Reads the run of digits `chars[start..end]`, giving up as soon as the
/// value passes `limit`.
pub(crate) fn parse_magnitude(chars: &Vec<char>, start: usize, end: usize, limit: u128) -> (r:
    Option<u128>)
    requires
        start <= end <= chars.len(),
        limit <= MAX_MAGNITUDE,
    ensures
        r == match magnitude(chars@.subrange(start as int, end as int)) {
            Some(m) => if m <= limit {
                Some(m as u128)
            } else {
                None
            },
            None => None,
        },
{
    let ghost s = chars@.subrange(start as int, end as int);
    if start == end {
        return None;
    }
    let mut acc: u128 = 0;
    let mut i: usize = start;
    proof {
        assert(s.take(0) =~= Seq::<char>::empty());
    }
    while i < end
        invariant
            start <= i <= end <= chars.len(),
            s == chars@.subrange(start as int, end as int),
            limit <= MAX_MAGNITUDE,
            all_digits(s.take(i - start)),
            acc == digits_value(s.take(i - start)),
            acc <= limit,
        decreases end - i,
    {
        let c = chars[i];
        let code: u32 = c as u32;
        proof {
            assert(s[i - start] == c);
            assert(s.take(i - start + 1) =~= s.take(i - start).push(c));
            lemma_digits_value_push(s.take(i - start), c);
            lemma_digits_value_prefix(s, i - start + 1);
        }
        if code < 48 || code > 57 {
            return None;
        }
        let d: u128 = (code - 48) as u128;
        if acc > limit / 10 {
            return None;
        }
        let shifted: u128 = acc * 10;
        if d > limit - shifted {
            return None;
        }
        acc = shifted + d;
        proof {
            let next = s.take(i - start + 1);
            assert forall|j: int| 0 <= j < next.len() implies is_digit(#[trigger] next[j]) by {
                if j < i - start {
                    assert(next[j] == s.take(i - start)[j]);
                }
            }
        }
        i = i + 1;
    }
    proof {
        assert(s.take(end - start) =~= s);
    }
    Some(acc)
}

/// Reads the literal `chars[start..end]` and returns its value if it lies
/// between `lo` and `hi`.
pub(crate) fn parse_literal(
    chars: &Vec<char>,
    start: usize,
    end: usize,
    signed: bool,
    lo: i128,
    hi: i128,
) -> (r: Option<i128>)
    requires
        start <= end <= chars.len(),
        lo <= 0 <= hi,
    ensures
        r == match literal_in_range(
            chars@.subrange(start as int, end as int),
            signed,
            lo as int,
            hi as int,
        ) {
            Some(v) => Some(v as i128),
            None => None,
        },
{
    let ghost s = chars@.subrange(start as int, end as int);
    if start < end && chars[start] == '+' {
        proof {
            assert(s[0] == chars@[start as int]);
            assert(s.skip(1) =~= chars@.subrange(start + 1, end as int));
        }
        match parse_magnitude(chars, start + 1, end, hi as u128) {
            Some(m) => Some(m as i128),
            None => None,
        }
    } else if signed && start < end && chars[start] == '-' {
        proof {
            assert(s[0] == chars@[start as int]);
            assert(s.skip(1) =~= chars@.subrange(start + 1, end as int));
        }
        let limit: u128 = if lo == i128::MIN {
            MAX_MAGNITUDE
        } else {
            (-lo) as u128
        };
        match parse_magnitude(chars, start + 1, end, limit) {
            Some(m) => if m == MAX_MAGNITUDE {
                Some(i128::MIN)
            } else {
                Some(-(m as i128))
            },
            None => None,
        }
    } else {
        proof {
            if start < end {
                assert(s[0] == chars@[start as int]);
            }
        }
        match parse_magnitude(chars, start, end, hi as u128) {
            Some(m) => Some(m as i128),
            None => None,
        }
    }
}

/// The one-character string of the digit `d`.
fn digit_str(d: u8) -> (r: &'static str)
    requires
        d < 10,
    ensures
        r@ == seq![digit_char(d as nat)],
{
    proof {
        reveal_strlit("0");
        reveal_strlit("1");
        reveal_strlit("2");
        reveal_strlit("3");
        reveal_strlit("4");
        reveal_strlit("5");
        reveal_strlit("6");
        reveal_strlit("7");
        reveal_strlit("8");
        reveal_strlit("9");
    }
    let r = match d {
        0 => "0",
        1 => "1",
        2 => "2",
        3 => "3",
        4 => "4",
        5 => "5",
        6 => "6",
        7 => "7",
        8 => "8",
        _ => "9",
    };
    assert(r@ =~= seq![digit_char(d as nat)]);
    r
}

/// Appends the digits of `n` to `out`.
fn push_digits(n: u128, out: &mut String)
    ensures
        final(out)@ == old(out)@ + decimal_digits(n as nat),
    decreases n,
{
    if n >= 10 {
        push_digits(n / 10, out);
    }
    out.append(digit_str((n % 10) as u8));
    proof {
        if n >= 10 {
            assert(final(out)@ =~= old(out)@ + decimal_digits((n / 10) as nat).push(
                digit_char((n % 10) as nat),
            ));
        }
    }
}

/// Appends the shortest literal of `v` to `out`.
pub fn push_decimal(v: i128, out: &mut String)
    ensures
        final(out)@ == old(out)@ + decimal_text(v as int),
{
    if v < 0 {
        out.append("-");
        let m: u128 = if v == i128::MIN {
            MAX_MAGNITUDE
        } else {
            (-v) as u128
        };
        push_digits(m, out);
        proof {
            reveal_strlit("-");
            assert("-"@ =~= seq!['-']);
            assert(final(out)@ =~= old(out)@ + (seq!['-'] + decimal_digits(m as nat)));
        }
    } else {
        push_digits(v as u128, out);
    }
}

} // verus!
