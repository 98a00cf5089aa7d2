//! Measured quantities as text: a fixed number of decimals, rounded to the nearest and, half
//! way between two, to the even one.

use crate::number::{
    all_digits, append_decimal, decimal, digit_char, digits_value, law_digits, lemma_decimal,
};
use crate::reading::{Reading, INFINITE, SIGN};
use crate::text::is_digit;
use vstd::arithmetic::div_mod::{lemma_fundamental_div_mod, lemma_fundamental_div_mod_converse};
use vstd::arithmetic::power2::{
    lemma2_to64, lemma2_to64_rest, lemma_pow2_adds, lemma_pow2_pos, lemma_pow2_strictly_increases,
    pow2,
};
use vstd::prelude::*;

verus! {

broadcast use vstd::string::group_string_axioms;

/// `a` divided by `b`, rounded to the nearest whole number, half way to the even one.
pub open spec fn nearest(a: nat, b: nat) -> nat {
    let q = a / b;
    let r = a % b;
    if 2 * r > b || (2 * r == b && q % 2 == 1) {
        q + 1
    } else {
        q
    }
}

/// Dividing both by the same number changes nothing.
proof fn lemma_nearest_scaled(a: nat, b: nat, c: nat)
    requires
        b > 0,
        c > 0,
    ensures
        nearest(a * c, b * c) == nearest(a, b),
{
    let q = a / b;
    let r = a % b;
    lemma_fundamental_div_mod(a as int, b as int);
    assert(a * c == (b * c) * q + r * c) by (nonlinear_arith)
        requires
            a == b * q + r,
    ;
    assert(0 <= r * c < b * c) by (nonlinear_arith)
        requires
            0 <= r < b,
            c > 0,
    ;
    lemma_fundamental_div_mod_converse((a * c) as int, (b * c) as int, q as int, (r * c) as int);
    assert(2 * (r * c) > b * c <==> 2 * r > b) by (nonlinear_arith)
        requires
            c > 0,
    ;
    assert(2 * (r * c) == b * c <==> 2 * r == b) by (nonlinear_arith)
        requires
            c > 0,
    ;
}

/// A whole multiple is its own nearest.
proof fn lemma_nearest_exact(a: nat, b: nat)
    requires
        b > 0,
    ensures
        nearest(a * b, b) == a,
{
    assert(a * b == b * a) by (nonlinear_arith);
    lemma_fundamental_div_mod_converse((a * b) as int, b as int, a as int, 0);
}

/// What is less than half rounds to nothing.
proof fn lemma_nearest_small(a: nat, b: nat)
    requires
        2 * a < b,
    ensures
        nearest(a, b) == 0,
{
    lemma_fundamental_div_mod_converse(a as int, b as int, 0, a as int);
}

/// `a` divided by `b`, rounded to the nearest whole number, half way to the even one.
pub fn nearest_quotient(a: u128, b: u128) -> (r: u128)
    requires
        b > 0,
        b <= u64::MAX,
    ensures
        r == nearest(a as nat, b as nat),
{
    let q: u128 = a / b;
    let r: u128 = a % b;
    if 2 * r > b || (2 * r == b && q % 2 == 1) {
        assert(q < u128::MAX) by (nonlinear_arith)
            requires
                q == a / b,
                r == a % b,
                b > 0,
                2 * r >= b,
                a <= u128::MAX,
        {
            lemma_fundamental_div_mod(a as int, b as int);
            if b == 1 {
                assert(r == 0);
            }
        }
        q + 1
    } else {
        q
    }
}

// ---------------------------------------------------------------------------
// Text with decimals
// ---------------------------------------------------------------------------

/// Ten to the power of the number of decimals.
pub open spec fn tens(decimals: nat) -> nat
    decreases decimals,
{
    if decimals == 0 {
        1
    } else {
        10 * tens((decimals - 1) as nat)
    }
}

/// The last `width` digits of `n`, with leading zeros.
pub open spec fn padded_digits(n: nat, width: nat) -> Seq<char>
    decreases width,
{
    if width == 0 {
        Seq::empty()
    } else {
        padded_digits(n / 10, (width - 1) as nat).push(crate::number::digit_char(n % 10))
    }
}

/// The text of `n` over ten to the power of `decimals`.
pub open spec fn with_decimals(n: nat, decimals: nat) -> Seq<char> {
    if decimals == 0 {
        decimal(n)
    } else {
        decimal(n / tens(decimals)) + seq!['.'] + padded_digits(n % tens(decimals), decimals)
    }
}

/// Appends the last `width` digits of `n`, with leading zeros.
fn append_padded(s: &mut String, n: u128, width: u32)
    ensures
        final(s)@ == old(s)@ + padded_digits(n as nat, width as nat),
    decreases width,
{
    if width > 0 {
        append_padded(s, n / 10, width - 1);
        let d: u8 = (n % 10) as u8;
        let b: u8 = 48 + d;
        s.push(b as char);
    }
    assert(s@ =~= old(s)@ + padded_digits(n as nat, width as nat));
}

/// Appends the text of `n` over ten to the power of `decimals`.
fn append_with_decimals(s: &mut String, n: u128, decimals: u32)
    requires
        decimals <= 2,
    ensures
        final(s)@ == old(s)@ + with_decimals(n as nat, decimals as nat),
{
    proof {
        reveal_with_fuel(tens, 3);
    }
    if decimals == 0 {
        append_decimal(s, n);
        return;
    }
    let ten: u128 = if decimals == 1 {
        10
    } else {
        100
    };
    append_decimal(s, n / ten);
    s.push('.');
    append_padded(s, n % ten, decimals);
    assert(s@ =~= old(s)@ + with_decimals(n as nat, decimals as nat));
}

/// Two to the power of `s`.
fn power_of_two(s: u32) -> (r: u128)
    requires
        s <= 104,
    ensures
        r == pow2(s as nat),
{
    let mut r: u128 = 1;
    proof {
        lemma2_to64();
        lemma2_to64_rest();
        lemma_pow2_adds(64, 40);
        assert(pow2(104) == 0x1_0000_0000_0000_0000 * 0x100_0000_0000);
    }
    for i in 0..s
        invariant
            s <= 104,
            r == pow2(i as nat),
            pow2(0) == 1,
            pow2(1) == 2,
            pow2(104) == 0x1_0000_0000_0000_0000 * 0x100_0000_0000,
    {
        proof {
            lemma_pow2_adds(i as nat, 1);
            if i + 1 < 104 {
                lemma_pow2_strictly_increases((i + 1) as nat, 104);
            }
        }
        r = r * 2;
    }
    r
}

/// The text of a reading over two to the power of `shift`, with a number of decimals.
pub open spec fn fixed(r: Reading, shift: nat, decimals: nat) -> Seq<char> {
    let sign = if r.bits >= SIGN {
        seq!['-']
    } else {
        Seq::empty()
    };
    if r.is_nan() {
        "NaN"@
    } else if r.magnitude() == INFINITE {
        sign + "inf"@
    } else {
        sign + with_decimals(nearest((r.units() * tens(decimals)) as nat, pow2(149 + shift)), decimals)
    }
}

proof fn lemma_scaled(m: nat, e: nat, ten: nat, t: nat)
    ensures
        e >= t ==> nearest((m * pow2(e)) * ten, pow2(t)) == (m * pow2((e - t) as nat)) * ten,
        e < t ==> nearest((m * pow2(e)) * ten, pow2(t)) == nearest(m * ten, pow2((t - e) as nat)),
{
    lemma_pow2_pos(t);
    lemma_pow2_pos(e);
    if e >= t {
        let p = pow2((e - t) as nat);
        lemma_pow2_adds((e - t) as nat, t);
        let q = pow2(t);
        assert((m * (p * q)) * ten == ((m * p) * ten) * q) by (nonlinear_arith);
        lemma_nearest_exact((m * p) * ten, q);
    } else {
        let p = pow2((t - e) as nat);
        lemma_pow2_pos((t - e) as nat);
        lemma_pow2_adds((t - e) as nat, e);
        let q = pow2(e);
        assert((m * q) * ten == (m * ten) * q) by (nonlinear_arith);
        lemma_nearest_scaled(m * ten, p, q);
    }
}

/// Appends the text of a finite reading without its sign.
fn append_magnitude(s: &mut String, r: Reading, shift: u32, decimals: u32)
    requires
        shift <= 10,
        decimals <= 2,
        r.magnitude() < INFINITE,
    ensures
        final(s)@ == old(s)@ + with_decimals(
            nearest((r.units() * tens(decimals as nat)) as nat, pow2((149 + shift) as nat)),
            decimals as nat,
        ),
{
    let magnitude: u32 = if r.bits >= SIGN {
        r.bits - SIGN
    } else {
        r.bits
    };
    let exponent: u32 = magnitude / 0x80_0000;
    let fraction: u32 = magnitude % 0x80_0000;
    let (m, e): (u32, u32) = if exponent == 0 {
        (fraction, 0)
    } else {
        (0x80_0000 + fraction, exponent - 1)
    };
    let ten: u128 = if decimals == 0 {
        1
    } else if decimals == 1 {
        10
    } else {
        100
    };
    let t: u32 = 149 + shift;
    proof {
        reveal_with_fuel(tens, 3);
        lemma2_to64();
        lemma2_to64_rest();
        assert(exponent <= 254);
        assert(r.units() == m * pow2(e as nat));
        lemma_scaled(m as nat, e as nat, ten as nat, t as nat);
    }
    if e >= t {
        let p = power_of_two(e - t);
        proof {
            lemma_pow2_adds(64, 40);
            if e - t < 104 {
                lemma_pow2_strictly_increases((e - t) as nat, 104);
            }
            assert(m * p <= 0xFF_FFFF * (0x1_0000_0000_0000_0000 * 0x100_0000_0000)) by (nonlinear_arith)
                requires
                    m <= 0xFF_FFFF,
                    p <= 0x1_0000_0000_0000_0000 * 0x100_0000_0000,
            ;
        }
        let whole: u128 = m as u128 * p;
        let ghost start = s@;
        append_decimal(s, whole);
        if decimals > 0 {
            s.push('.');
            append_padded(s, 0, decimals);
        }
        proof {
            let n = whole as nat * ten as nat;
            assert(n / ten as nat == whole && n % ten as nat == 0) by {
                lemma_fundamental_div_mod_converse(n as int, ten as int, whole as int, 0);
            }
            assert(s@ =~= start + with_decimals(n, decimals as nat));
        }
    } else if t - e < 64 {
        let p = power_of_two(t - e);
        proof {
            lemma_pow2_strictly_increases((t - e) as nat, 64);
            lemma_pow2_pos((t - e) as nat);
        }
        let n = nearest_quotient(m as u128 * ten, p);
        append_with_decimals(s, n, decimals);
    } else {
        proof {
            if t - e > 64 {
                lemma_pow2_strictly_increases(64, (t - e) as nat);
            }
            lemma_nearest_small((m * ten) as nat, pow2((t - e) as nat));
        }
        append_with_decimals(s, 0, decimals);
    }
}

/// Appends the text of a reading over two to the power of `shift`, with a number of decimals.
pub fn append_fixed(s: &mut String, r: Reading, shift: u32, decimals: u32)
    requires
        shift <= 10,
        decimals <= 2,
    ensures
        final(s)@ == old(s)@ + fixed(r, shift as nat, decimals as nat),
{
    let ghost start = s@;
    if r.not_a_number() {
        s.append("NaN");
        return;
    }
    let magnitude: u32 = if r.bits >= SIGN {
        s.push('-');
        r.bits - SIGN
    } else {
        r.bits
    };
    if magnitude == INFINITE {
        s.append("inf");
    } else {
        append_magnitude(s, r, shift, decimals);
    }
    assert(s@ =~= start + fixed(r, shift as nat, decimals as nat));
}

/// Whether every character takes one byte.
pub open spec fn is_ascii(text: Seq<char>) -> bool {
    forall|i: int| 0 <= i < text.len() ==> #[trigger] text[i] as u32 <= 0x7F
}

proof fn lemma_padded_ascii(n: nat, width: nat)
    ensures
        is_ascii(padded_digits(n, width)),
    decreases width,
{
    if width > 0 {
        lemma_padded_ascii(n / 10, (width - 1) as nat);
    }
}

/// The text of a reading consists of characters that take one byte.
pub proof fn lemma_fixed_ascii(r: Reading, shift: nat, decimals: nat)
    ensures
        is_ascii(fixed(r, shift, decimals)),
{
    reveal_strlit("NaN");
    reveal_strlit("inf");
    let n = nearest((r.units() * tens(decimals)) as nat, pow2(149 + shift));
    lemma_decimal(n);
    lemma_decimal(n / tens(decimals));
    lemma_padded_ascii(n % tens(decimals), decimals);
}

// ---------------------------------------------------------------------------
// Alignment
// ---------------------------------------------------------------------------

/// `count` times the same character.
pub open spec fn repeated(c: char, count: nat) -> Seq<char> {
    Seq::new(count, |i: int| c)
}

/// `count` times the same character.
pub fn repeat(c: char, count: usize) -> (s: String)
    ensures
        s@ == repeated(c, count as nat),
{
    let mut s = String::new();
    for i in 0..count
        invariant
            s@ =~= repeated(c, i as nat),
    {
        s.push(c);
    }
    s
}

/// `text` with spaces before it until it has `width` characters.
pub open spec fn right_aligned(text: Seq<char>, width: nat) -> Seq<char> {
    if text.len() < width {
        repeated(' ', (width - text.len()) as nat) + text
    } else {
        text
    }
}

/// `text` with spaces after it until it has `width` characters.
pub open spec fn left_aligned(text: Seq<char>, width: nat) -> Seq<char> {
    if text.len() < width {
        text + repeated(' ', (width - text.len()) as nat)
    } else {
        text
    }
}

/// A reading with `decimals` decimals, aligned right in `width` characters.
pub open spec fn aligned(r: Reading, decimals: nat, width: nat) -> Seq<char> {
    right_aligned(fixed(r, 0, decimals), width)
}

/// Appends a reading with `decimals` decimals, aligned right in `width` characters.
pub fn append_aligned(s: &mut String, r: Reading, decimals: u32, width: usize)
    requires
        decimals <= 2,
    ensures
        final(s)@ == old(s)@ + aligned(r, decimals as nat, width as nat),
{
    let ghost start = s@;
    let mut text = String::new();
    append_fixed(&mut text, r, 0, decimals);
    assert(text@ =~= fixed(r, 0, decimals as nat));
    let chars = crate::text::chars_of(text.as_str());
    if chars.len() < width {
        let pad = repeat(' ', width - chars.len());
        s.append(pad.as_str());
    }
    s.append(text.as_str());
    assert(s@ =~= start + aligned(r, decimals as nat, width as nat));
}

// ---------------------------------------------------------------------------
// Sizes in bytes
// ---------------------------------------------------------------------------

/// By how many binary digits a number is longer than 53.
pub open spec fn excess(n: nat) -> nat
    decreases n,
{
    if n < 0x20_0000_0000_0000 {
        0
    } else {
        1 + excess(n / 2)
    }
}

/// The nearest number with at most 53 significant binary digits, half way to the even one.
pub open spec fn to_double(n: nat) -> nat {
    nearest(n, pow2(excess(n))) * pow2(excess(n))
}

/// A size over two to the power of `shift`, with a number of decimals.
pub open spec fn size_text(bytes: nat, shift: nat, decimals: nat) -> Seq<char> {
    with_decimals(nearest(to_double(bytes) * tens(decimals), pow2(shift)), decimals)
}

/// The nearest number with at most 53 significant binary digits.
fn rounded_to_double(n: u64) -> (r: u128)
    ensures
        r == to_double(n as nat),
        r <= 0x1_0000_0000_0000_0000,
{
    let mut k: u32 = 0;
    let mut rest: u64 = n;
    let ghost limit: nat = 0x1_0000_0000_0000_0000;
    proof {
        lemma2_to64();
        lemma2_to64_rest();
    }
    while rest >= 0x20_0000_0000_0000
        invariant
            excess(n as nat) == k + excess(rest as nat),
            rest * pow2(k as nat) <= n,
            k <= 11,
            pow2(0) == 1,
            pow2(1) == 2,
            pow2(11) == 0x800,
        decreases rest,
    {
        proof {
            lemma_pow2_adds(k as nat, 1);
            if k >= 11 {
                assert(rest * pow2(k as nat) >= 0x20_0000_0000_0000 * 0x800) by (nonlinear_arith)
                    requires
                        rest >= 0x20_0000_0000_0000,
                        pow2(k as nat) >= 0x800,
                ;
            }
            assert((rest / 2) * (2 * pow2(k as nat)) <= rest * pow2(k as nat)) by (nonlinear_arith);
        }
        rest = rest / 2;
        k = k + 1;
    }
    let p = power_of_two(k);
    proof {
        lemma_pow2_pos(k as nat);
        if k < 11 {
            lemma_pow2_strictly_increases(k as nat, 11);
        }
        lemma_pow2_adds(k as nat, (64 - k) as nat);
        lemma_nearest_bound(n as nat, p as nat, pow2((64 - k) as nat));
    }
    let q = nearest_quotient(n as u128, p);
    proof {
        assert(q * p <= 0x1_0000_0000_0000_0000) by (nonlinear_arith)
            requires
                q <= pow2((64 - k) as nat),
                p == pow2(k as nat),
                pow2(k as nat) * pow2((64 - k) as nat) == 0x1_0000_0000_0000_0000,
        ;
    }
    q * p
}

/// The nearest quotient is no larger than a whole bound that the exact quotient keeps.
proof fn lemma_nearest_bound(a: nat, b: nat, c: nat)
    requires
        b > 0,
        a <= c * b,
    ensures
        nearest(a, b) <= c,
{
    lemma_fundamental_div_mod(a as int, b as int);
    let q = a / b;
    let r = a % b;
    assert(q <= c && (q == c ==> r == 0)) by (nonlinear_arith)
        requires
            a == b * q + r,
            a <= c * b,
            0 <= r < b,
    ;
}

/// Appends a size over two to the power of `shift`, with a number of decimals.
pub fn append_size(s: &mut String, bytes: u64, shift: u32, decimals: u32)
    requires
        shift < 64,
        decimals <= 2,
    ensures
        final(s)@ == old(s)@ + size_text(bytes as nat, shift as nat, decimals as nat),
{
    let x = rounded_to_double(bytes);
    let ten: u128 = if decimals == 0 {
        1
    } else if decimals == 1 {
        10
    } else {
        100
    };
    proof {
        reveal_with_fuel(tens, 3);
        lemma2_to64_rest();
        lemma_pow2_strictly_increases(shift as nat, 64);
        lemma_pow2_pos(shift as nat);
    }
    let p = power_of_two(shift);
    let n = nearest_quotient(x * ten, p);
    append_with_decimals(s, n, decimals);
}

// ---------------------------------------------------------------------------
// Laws
// ---------------------------------------------------------------------------

/// The nearest whole number is no further from the quotient than a half, and even where the
/// quotient lies half way between two.
pub proof fn law_nearest_is_nearest(a: nat, b: nat)
    requires
        b > 0,
    ensures
        2 * (nearest(a, b) * b) <= 2 * a + b,
        2 * a <= 2 * (nearest(a, b) * b) + b,
        2 * (nearest(a, b) * b) == 2 * a + b || 2 * a == 2 * (nearest(a, b) * b) + b ==> nearest(a, b) % 2 == 0,
{
    let q = a / b;
    let r = a % b;
    lemma_fundamental_div_mod(a as int, b as int);
    assert(q * b == b * q) by (nonlinear_arith);
    assert((q + 1) * b == b * q + b) by (nonlinear_arith);
}

proof fn lemma_padded(n: nat, width: nat)
    requires
        n < tens(width),
    ensures
        padded_digits(n, width).len() == width,
        all_digits(padded_digits(n, width)),
        digits_value(padded_digits(n, width)) == n,
    decreases width,
{
    if width > 0 {
        let w = (width - 1) as nat;
        assert(tens(width) == 10 * tens(w));
        lemma_padded(n / 10, w);
        let s = padded_digits(n, width);
        let front = padded_digits(n / 10, w);
        assert(s.drop_last() =~= front);
        law_digits(digit_char(n % 10));
        assert forall|i: int| 0 <= i < s.len() implies is_digit(#[trigger] s[i]) by {
            if i < front.len() {
                assert(s[i] == front[i]);
            }
        }
    }
}

proof fn lemma_tens_pos(d: nat)
    ensures
        tens(d) > 0,
    decreases d,
{
    if d > 0 {
        lemma_tens_pos((d - 1) as nat);
    }
}

/// A number with decimals is its whole part, a point and as many digits as were asked for; read
/// without the point they stand for the number.
pub proof fn law_decimals_read_back(n: nat, decimals: nat)
    requires
        decimals > 0,
    ensures
        ({
            let whole = decimal(n / tens(decimals));
            let rest = padded_digits(n % tens(decimals), decimals);
            &&& with_decimals(n, decimals) == whole + seq!['.'] + rest
            &&& rest.len() == decimals
            &&& all_digits(whole) && all_digits(rest)
            &&& digits_value(whole) * tens(decimals) + digits_value(rest) == n
        }),
        with_decimals(n, 0) == decimal(n),
        tens(0) == 1,
        tens(1) == 10,
        tens(2) == 100,
{
    reveal_with_fuel(tens, 3);
    lemma_tens_pos(decimals);
    let t = tens(decimals);
    lemma_fundamental_div_mod(n as int, t as int);
    lemma_decimal(n / t);
    lemma_padded(n % t, decimals);
    assert((n / t) * t == t * (n / t)) by (nonlinear_arith);
}

/// The text of a reading is the number with the asked decimals that lies nearest to the reading
/// over the power of two, with a minus before it where the reading has one.
pub proof fn law_fixed_is_nearest(r: Reading, shift: nat, decimals: nat)
    requires
        r.magnitude() < INFINITE,
    ensures
        exists|n: nat|
            {
                let unit = pow2(149 + shift);
                let exact = (r.units() * tens(decimals)) as nat;
                &&& fixed(r, shift, decimals) == (if r.bits >= 0x8000_0000 {
                    seq!['-'] + #[trigger] with_decimals(n, decimals)
                } else {
                    with_decimals(n, decimals)
                })
                &&& 2 * (n * unit) <= 2 * exact + unit
                &&& 2 * exact <= 2 * (n * unit) + unit
            },
{
    let unit = pow2(149 + shift);
    lemma_pow2_pos(149 + shift);
    let exact = (r.units() * tens(decimals)) as nat;
    let n = nearest(exact, unit);
    law_nearest_is_nearest(exact, unit);
    assert(Seq::<char>::empty() + with_decimals(n, decimals) =~= with_decimals(n, decimals));
}

/// What is no number, and what is not finite, is said so.
pub proof fn law_not_finite(r: Reading, shift: nat, decimals: nat)
    ensures
        r.is_nan() ==> fixed(r, shift, decimals) == "NaN"@,
        r.bits == 0x7F80_0000 ==> fixed(r, shift, decimals) == "inf"@,
        r.bits == 0xFF80_0000 ==> fixed(r, shift, decimals) == "-inf"@,
{
    reveal_strlit("inf");
    reveal_strlit("-inf");
    assert(Seq::<char>::empty() + "inf"@ =~= "inf"@);
    assert(seq!['-'] + "inf"@ =~= "-inf"@);
}

/// An aligned text keeps what it says, at its end or its beginning, and is filled with spaces up
/// to the width; one that is longer stays as it is.
pub proof fn law_alignment(text: Seq<char>, width: nat)
    ensures
        text.len() >= width ==> right_aligned(text, width) == text && left_aligned(text, width) == text,
        text.len() < width ==> {
            let pad = width - text.len();
            &&& right_aligned(text, width).len() == width
            &&& right_aligned(text, width).skip(pad) == text
            &&& forall|i: int| 0 <= i < pad ==> #[trigger] right_aligned(text, width)[i] == ' '
            &&& left_aligned(text, width).len() == width
            &&& left_aligned(text, width).take(text.len() as int) == text
            &&& forall|i: int| text.len() <= i < width ==> #[trigger] left_aligned(text, width)[i] == ' '
        },
{
    if text.len() < width {
        assert(right_aligned(text, width).skip(width - text.len()) =~= text);
        assert(left_aligned(text, width).take(text.len() as int) =~= text);
    }
}

/// A reading is aligned right, without a scale.
pub proof fn law_aligned_reading(r: Reading, decimals: nat, width: nat)
    ensures
        fixed(r, 0, decimals).len() >= width ==> aligned(r, decimals, width) == fixed(r, 0, decimals),
        fixed(r, 0, decimals).len() < width ==> aligned(r, decimals, width).len() == width && aligned(
            r,
            decimals,
            width,
        ).skip(width - fixed(r, 0, decimals).len()) == fixed(r, 0, decimals),
{
    law_alignment(fixed(r, 0, decimals), width);
}

proof fn lemma_excess(n: nat)
    ensures
        n < pow2(53 + excess(n)),
        excess(n) > 0 ==> pow2(52 + excess(n)) <= n,
    decreases n,
{
    lemma2_to64();
    lemma2_to64_rest();
    if n >= 0x20_0000_0000_0000 {
        let k = excess(n / 2);
        lemma_excess(n / 2);
        lemma_pow2_adds(53 + k, 1);
        lemma_pow2_adds(52 + k, 1);
        if k == 0 {
            assert(pow2(53) == 0x20_0000_0000_0000);
        }
    }
}

/// A number of up to 53 binary digits is kept; of a longer one the first 53 are, rounded to the
/// nearest.
pub proof fn law_double_is_nearest(n: nat)
    ensures
        n < 0x20_0000_0000_0000 ==> to_double(n) == n,
        2 * to_double(n) <= 2 * n + pow2(excess(n)),
        2 * n <= 2 * to_double(n) + pow2(excess(n)),
        n < pow2(53 + excess(n)),
        excess(n) > 0 ==> pow2(52 + excess(n)) <= n,
{
    lemma2_to64();
    lemma_pow2_pos(excess(n));
    lemma_excess(n);
    law_nearest_is_nearest(n, pow2(excess(n)));
    if n < 0x20_0000_0000_0000 {
        lemma_nearest_exact(n, 1);
    }
}

/// A size is the number with the asked decimals that lies nearest to the bytes over the power of
/// two, of which the first 53 binary digits count.
pub proof fn law_size_is_nearest(bytes: nat, shift: nat, decimals: nat)
    ensures
        exists|n: nat|
            {
                let unit = pow2(shift);
                let exact = to_double(bytes) * tens(decimals);
                &&& size_text(bytes, shift, decimals) == #[trigger] with_decimals(n, decimals)
                &&& 2 * (n * unit) <= 2 * exact + unit
                &&& 2 * exact <= 2 * (n * unit) + unit
            },
{
    lemma_pow2_pos(shift);
    law_nearest_is_nearest(to_double(bytes) * tens(decimals), pow2(shift));
    let n = nearest(to_double(bytes) * tens(decimals), pow2(shift));
    assert(size_text(bytes, shift, decimals) == with_decimals(n, decimals));
}

} // verus!
