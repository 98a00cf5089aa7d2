//! Decimal numbers: reading them out of text and writing them.

use crate::text::is_digit;
use vstd::prelude::*;
use vstd::slice::slice_subrange;

verus! {

broadcast use vstd::string::group_string_axioms;

/// The smaller of two numbers.
pub open spec fn least(a: int, b: int) -> int {
    if a <= b {
        a
    } else {
        b
    }
}

/// `n` less `k`, but not less than nothing.
pub open spec fn less_by(n: int, k: int) -> int {
    if n < k {
        0
    } else {
        n - k
    }
}

/// The number that a row of decimal digits stands for.
pub open spec fn digits_value(s: Seq<char>) -> nat
    decreases s.len(),
{
    if s.len() == 0 {
        0
    } else {
        digits_value(s.drop_last()) * 10 + (s.last() as u32 - '0' as u32) as nat
    }
}

pub open spec fn all_digits(s: Seq<char>) -> bool {
    forall|i: int| 0 <= i < s.len() ==> is_digit(#[trigger] s[i])
}

/// `s` without one leading plus sign.
pub open spec fn without_plus(s: Seq<char>) -> Seq<char> {
    if s.len() > 0 && s[0] == '+' {
        s.drop_first()
    } else {
        s
    }
}

/// The unsigned number that `s` writes, where it is at most `max`: an optional plus sign,
/// then one or more decimal digits and nothing else.
pub open spec fn parse_number(s: Seq<char>, max: nat) -> Option<nat> {
    let d = without_plus(s);
    if d.len() > 0 && all_digits(d) && digits_value(d) <= max {
        Some(digits_value(d))
    } else {
        None
    }
}

pub proof fn lemma_digits_value_grows(s: Seq<char>, n: int)
    requires
        0 <= n <= s.len(),
        all_digits(s),
    ensures
        digits_value(s.take(n)) <= digits_value(s),
    decreases s.len() - n,
{
    if n < s.len() {
        lemma_digits_value_grows(s, n + 1);
        assert(s.take(n + 1).drop_last() =~= s.take(n));
        assert(is_digit(s[n]));
    } else {
        assert(s.take(n) =~= s);
    }
}

/// The number that the digits of `d` write, where it is at most `max`.
fn read_digits(d: &[char], max: u64) -> (r: Option<u64>)
    ensures
        match r {
            Some(v) => all_digits(d@) && v == digits_value(d@) && v <= max,
            None => !all_digits(d@) || digits_value(d@) > max,
        },
{
    let mut v: u64 = 0;
    for i in 0..d.len()
        invariant
            v <= max,
            all_digits(d@.take(i as int)),
            v == digits_value(d@.take(i as int)),
    {
        let c = d[i];
        if !('0' <= c && c <= '9') {
            assert(!is_digit(d@[i as int]));
            return None;
        }
        let k: u64 = (c as u32 - '0' as u32) as u64;
        proof {
            assert(d@.take(i + 1).drop_last() =~= d@.take(i as int));
            assert(digits_value(d@.take(i + 1)) == v * 10 + k);
            if all_digits(d@) {
                lemma_digits_value_grows(d@, i + 1);
            }
            assert forall|j: int| 0 <= j < i + 1 implies is_digit(#[trigger] d@.take(i + 1)[j]) by {
                if j < i {
                    assert(is_digit(d@.take(i as int)[j]));
                }
            }
        }
        if v > max / 10 || k > max - v * 10 {
            return None;
        }
        v = v * 10 + k;
    }
    assert(d@.take(d@.len() as int) =~= d@);
    Some(v)
}

/// The unsigned number that the text writes, where it is at most `max`.
fn read_number(s: &[char], max: u64) -> (r: Option<u64>)
    ensures
        match r {
            Some(v) => parse_number(s@, max as nat) == Some(v as nat) && v <= max,
            None => parse_number(s@, max as nat) is None,
        },
{
    let d: &[char] = if s.len() > 0 && s[0] == '+' {
        slice_subrange(s, 1, s.len())
    } else {
        s
    };
    assert(d@ =~= without_plus(s@));
    if d.len() == 0 {
        return None;
    }
    read_digits(d, max)
}

/// The `u64` that the text writes.
pub fn parse_u64(s: &[char]) -> (r: Option<u64>)
    ensures
        match r {
            Some(v) => parse_number(s@, u64::MAX as nat) == Some(v as nat),
            None => parse_number(s@, u64::MAX as nat) is None,
        },
{
    read_number(s, u64::MAX)
}

/// The `usize` that the text writes.
pub fn parse_usize(s: &[char]) -> (r: Option<usize>)
    ensures
        match r {
            Some(v) => parse_number(s@, usize::MAX as nat) == Some(v as nat),
            None => parse_number(s@, usize::MAX as nat) is None,
        },
{
    match read_number(s, usize::MAX as u64) {
        Some(v) => Some(v as usize),
        None => None,
    }
}

// ---------------------------------------------------------------------------
// Writing
// ---------------------------------------------------------------------------

/// The decimal digit of a number below ten.
pub open spec fn digit_char(d: nat) -> char {
    ('0' as u8 + d) as u8 as char
}

/// The decimal digits of `n`, without leading zeros.
pub open spec fn decimal(n: nat) -> Seq<char>
    decreases n,
{
    if n < 10 {
        seq![digit_char(n)]
    } else {
        decimal(n / 10).push(digit_char(n % 10))
    }
}

/// The decimal digits of `n`, with a leading zero where there is only one.
pub open spec fn two_digits(n: nat) -> Seq<char> {
    if n < 10 {
        seq!['0'] + decimal(n)
    } else {
        decimal(n)
    }
}

/// Appends the decimal digits of `n`.
pub fn append_decimal(s: &mut String, n: u128)
    ensures
        final(s)@ == old(s)@ + decimal(n as nat),
    decreases n,
{
    if n >= 10 {
        append_decimal(s, n / 10);
    }
    let d: u8 = (n % 10) as u8;
    let b: u8 = 48 + d;
    s.push(b as char);
    proof {
        if n < 10 {
            assert(s@ =~= old(s)@ + decimal(n as nat));
        } else {
            assert(s@ =~= old(s)@ + decimal(n as nat));
        }
    }
}

/// Appends the decimal digits of `n`, with a leading zero where there is only one.
pub fn append_two_digits(s: &mut String, n: u64)
    ensures
        final(s)@ == old(s)@ + two_digits(n as nat),
{
    if n < 10 {
        s.push('0');
    }
    append_decimal(s, n as u128);
    assert(s@ =~= old(s)@ + two_digits(n as nat));
}

/// What is written in decimal reads back as the same number.
pub proof fn law_decimal_reads_back(n: nat, max: nat)
    requires
        n <= max,
    ensures
        parse_number(decimal(n), max) == Some(n),
{
    lemma_decimal(n);
    assert(without_plus(decimal(n)) == decimal(n));
}

/// The decimal digits of a number are digits, at least one, and stand for the number.
pub proof fn lemma_decimal(n: nat)
    ensures
        decimal(n).len() > 0,
        all_digits(decimal(n)),
        digits_value(decimal(n)) == n,
        is_digit(decimal(n)[0]),
    decreases n,
{
    if n < 10 {
        reveal_with_fuel(digits_value, 2);
        assert(decimal(n).drop_last() =~= Seq::<char>::empty());
    } else {
        lemma_decimal(n / 10);
        assert(decimal(n).drop_last() =~= decimal(n / 10));
        assert forall|i: int| 0 <= i < decimal(n).len() implies is_digit(#[trigger] decimal(n)[i]) by {
            if i < decimal(n / 10).len() {
                assert(decimal(n)[i] == decimal(n / 10)[i]);
            }
        }
    }
}

/// Reading a number goes digit by digit: one more digit gives ten times as much and the digit,
/// as far as that is allowed; a plus sign before the digits changes nothing.
pub proof fn law_next_digit(s: Seq<char>, c: char, v: nat, max: nat)
    requires
        all_digits(s),
        parse_number(s, max) == Some(v) || (s.len() == 0 && v == 0),
        is_digit(c),
    ensures
        parse_number(s.push(c), max) == (if 10 * v + (c as u32 - 48) <= max {
            Some((10 * v + (c as u32 - 48)) as nat)
        } else {
            None
        }),
        parse_number(seq!['+'] + s.push(c), max) == parse_number(s.push(c), max),
        parse_number(Seq::<char>::empty(), max) is None,
{
    let t = s.push(c);
    assert(t.drop_last() =~= s);
    if s.len() > 0 {
        assert(is_digit(s[0]));
        assert(without_plus(s) == s);
    }
    assert(is_digit(t[0]));
    assert forall|i: int| 0 <= i < t.len() implies is_digit(#[trigger] t[i]) by {
        if i < s.len() {
            assert(is_digit(s[i]));
        }
    }
    assert((seq!['+'] + t).drop_first() =~= t);
}

/// A text that holds anything but digits, behind its first place, is no number; nor is one that
/// starts with anything but a digit or a plus sign.
pub proof fn law_no_number(s: Seq<char>, i: int, max: nat)
    requires
        0 <= i < s.len(),
        !is_digit(s[i]),
        i > 0 || s[0] != '+',
    ensures
        parse_number(s, max) is None,
{
    let d = without_plus(s);
    if s[0] == '+' {
        assert(d[i - 1] == s[i]);
    }
}

/// The digits are the characters from 48 to 57.
pub proof fn law_digits(c: char)
    ensures
        is_digit(c) <==> 48 <= c as u32 <= 57,
{
}

/// What is written with at least two digits reads back as the same number, and has two digits
/// where that is enough.
pub proof fn law_two_digits_read_back(n: nat, max: nat)
    requires
        n <= max,
    ensures
        parse_number(two_digits(n), max) == Some(n),
        two_digits(n).len() >= 2,
        n < 100 ==> two_digits(n).len() == 2,
{
    lemma_decimal(n);
    if n < 10 {
        let d = decimal(n);
        let t = seq!['0'] + d;
        assert(d.len() == 1);
        assert(t.drop_last() =~= seq!['0']);
        assert(seq!['0'].drop_last() =~= Seq::<char>::empty());
        reveal_with_fuel(digits_value, 3);
        assert(digits_value(seq!['0']) == 0);
        assert(d.drop_last() =~= Seq::<char>::empty());
        assert(t.last() == d.last());
        assert(all_digits(t)) by {
            assert forall|i: int| 0 <= i < t.len() implies is_digit(#[trigger] t[i]) by {
                if i > 0 {
                    assert(is_digit(d[i - 1]));
                }
            }
        }
        assert(without_plus(t) == t);
    } else {
        assert(without_plus(decimal(n)) == decimal(n));
        assert(decimal(n).len() == decimal(n / 10).len() + 1);
        lemma_decimal(n / 10);
    }
}

/// No number but zero begins with a zero.
pub proof fn law_no_leading_zero(n: nat)
    requires
        n > 0,
    ensures
        decimal(n)[0] != '0',
    decreases n,
{
    if n >= 10 {
        law_no_leading_zero(n / 10);
        lemma_decimal(n / 10);
    }
}

/// The lesser of two is one of them and above neither; what is left of a number is the
/// difference, or nothing where there is not enough.
pub proof fn law_least_and_left(a: int, b: int)
    ensures
        least(a, b) <= a && least(a, b) <= b && (least(a, b) == a || least(a, b) == b),
        a >= b ==> less_by(a, b) + b == a,
        a <= b ==> less_by(a, b) == 0,
{
}

} // verus!
