//! Measured quantities: single-precision floating-point numbers held as their IEEE 754
//! bit patterns, compared without floating-point arithmetic.

use vstd::arithmetic::power2::{
    lemma2_to64, lemma_pow2_adds, lemma_pow2_pos, lemma_pow2_strictly_increases, lemma_pow2_unfold,
    pow2,
};
use vstd::prelude::*;

verus! {

/// The pattern of the number 0.
pub const ZERO: u32 = 0;

/// The pattern of the number 40.
pub const FORTY: u32 = 0x4220_0000;

/// The pattern of the number 70.
pub const SEVENTY: u32 = 0x428C_0000;

/// The pattern of the number 85.
pub const EIGHTY_FIVE: u32 = 0x42AA_0000;

/// The pattern of the number 90.
pub const NINETY: u32 = 0x42B4_0000;

/// The pattern of the number 100.
pub const HUNDRED: u32 = 0x42C8_0000;

/// The patterns from here on have their sign bit set.
pub const SIGN: u32 = 0x8000_0000;

/// The magnitude of the patterns that stand for an infinity.
pub const INFINITE: u32 = 0x7F80_0000;

/// A measured quantity.
#[derive(Debug, Clone, Copy, PartialEq, Eq, Structural)]
pub struct Reading {
    pub bits: u32,
}

impl Reading {
    /// The pattern without its sign bit.
    pub open spec fn magnitude(self) -> int {
        if self.bits >= SIGN {
            self.bits - SIGN
        } else {
            self.bits as int
        }
    }

    /// Whether the pattern stands for no number.
    pub open spec fn is_nan(self) -> bool {
        self.magnitude() > INFINITE
    }

    /// The place of the number in the order of all numbers; both zeros share one place.
    pub open spec fn rank(self) -> int {
        if self.bits >= SIGN {
            -self.magnitude()
        } else {
            self.magnitude()
        }
    }

    /// Whether both are numbers and this one is the smaller.
    pub open spec fn below(self, other: Reading) -> bool {
        !self.is_nan() && !other.is_nan() && self.rank() < other.rank()
    }

    /// Whether both are numbers and this one is not the larger.
    pub open spec fn at_most(self, other: Reading) -> bool {
        !self.is_nan() && !other.is_nan() && self.rank() <= other.rank()
    }

    /// The smaller of two numbers; where one is no number, the other.
    pub open spec fn min(self, other: Reading) -> Reading {
        if self.is_nan() || other.below(self) {
            other
        } else {
            self
        }
    }

    /// The number itself, moved to the nearer end where it lies outside 0 to 100.
    pub open spec fn to_percent(self) -> Reading {
        if self.below((Reading { bits: ZERO })) {
            Reading { bits: ZERO }
        } else if (Reading { bits: HUNDRED }).below(self) {
            Reading { bits: HUNDRED }
        } else {
            self
        }
    }

    /// Whether this is a number from 0 to 100.
    pub open spec fn is_share(self) -> bool {
        (Reading { bits: ZERO }).at_most(self) && self.at_most((Reading { bits: HUNDRED }))
    }

    /// The order of floating-point numbers as one integer each.
    fn signed(self) -> (r: i64)
        ensures
            r == self.rank(),
    {
        if self.bits >= SIGN {
            -((self.bits - SIGN) as i64)
        } else {
            self.bits as i64
        }
    }

    /// Whether the pattern stands for no number.
    pub fn not_a_number(self) -> (r: bool)
        ensures
            r == self.is_nan(),
    {
        if self.bits >= SIGN {
            self.bits - SIGN > INFINITE
        } else {
            self.bits > INFINITE
        }
    }

    /// Whether both are numbers and this one is the smaller.
    pub fn less(self, other: Reading) -> (r: bool)
        ensures
            r == self.below(other),
    {
        !self.not_a_number() && !other.not_a_number() && self.signed() < other.signed()
    }

    /// Whether both are numbers and this one is not the larger.
    pub fn no_more(self, other: Reading) -> (r: bool)
        ensures
            r == self.at_most(other),
    {
        !self.not_a_number() && !other.not_a_number() && self.signed() <= other.signed()
    }

    /// Whether this is a number and at least the number with the pattern `bits`.
    pub fn at_least(self, bits: u32) -> (r: bool)
        ensures
            r == (Reading { bits }).at_most(self),
    {
        (Reading { bits }).no_more(self)
    }

    /// The smaller of two numbers; where one is no number, the other.
    pub fn smaller(self, other: Reading) -> (r: Reading)
        ensures
            r == self.min(other),
    {
        if self.not_a_number() || other.less(self) {
            other
        } else {
            self
        }
    }

    /// The number itself, moved to the nearer end where it lies outside 0 to 100.
    pub fn clamped(self) -> (r: Reading)
        ensures
            r == self.to_percent(),
    {
        if self.less(Reading { bits: ZERO }) {
            Reading { bits: ZERO }
        } else if (Reading { bits: HUNDRED }).less(self) {
            Reading { bits: HUNDRED }
        } else {
            self
        }
    }

    /// The size of the number in units of two to the power of -149, of which every finite
    /// number is a whole multiple: an exponent in the upper bits scales the lower 23 bits,
    /// with a one in front of them unless the exponent is zero.
    pub open spec fn units(self) -> int {
        let exponent = self.magnitude() / 0x80_0000;
        let fraction = self.magnitude() % 0x80_0000;
        if exponent == 0 {
            fraction
        } else {
            (0x80_0000 + fraction) * pow2((exponent - 1) as nat)
        }
    }

    /// The number in the same units, with its sign.
    pub open spec fn value(self) -> int {
        if self.bits >= SIGN {
            -self.units()
        } else {
            self.units()
        }
    }
}

proof fn lemma_units_step(a: Reading, b: Reading)
    requires
        a.magnitude() < b.magnitude(),
    ensures
        a.units() < b.units(),
{
    let (ea, fa) = (a.magnitude() / 0x80_0000, a.magnitude() % 0x80_0000);
    let (eb, fb) = (b.magnitude() / 0x80_0000, b.magnitude() % 0x80_0000);
    assert(ea <= eb);
    if ea == eb {
        assert(fa < fb);
        if ea > 0 {
            lemma_pow2_pos((ea - 1) as nat);
            let p = pow2((ea - 1) as nat) as int;
            assert((0x80_0000 + fa) * p < (0x80_0000 + fb) * p) by (nonlinear_arith)
                requires
                    fa < fb,
                    p > 0,
            ;
        }
    } else {
        let q = pow2((eb - 1) as nat) as int;
        lemma_pow2_pos((eb - 1) as nat);
        assert((0x80_0000 + fb) * q >= 0x80_0000 * q) by (nonlinear_arith)
            requires
                fb >= 0,
                q > 0,
        ;
        if ea == 0 {
            assert(0x80_0000 * q >= 0x80_0000);
        } else {
            let p = pow2((ea - 1) as nat) as int;
            lemma_pow2_pos((ea - 1) as nat);
            assert(q >= 2 * p) by {
                lemma_pow2_unfold(ea as nat);
                if eb - 1 > ea {
                    lemma_pow2_strictly_increases(ea as nat, (eb - 1) as nat);
                }
            }
            assert((0x80_0000 + fa) * p < 0x100_0000 * p) by (nonlinear_arith)
                requires
                    fa < 0x80_0000,
                    p > 0,
            ;
        }
    }
}

/// Readings are ordered as the numbers that they stand for.
pub proof fn law_order_is_numeric(a: Reading, b: Reading)
    requires
        !a.is_nan(),
        !b.is_nan(),
    ensures
        a.below(b) <==> a.value() < b.value(),
        a.at_most(b) <==> a.value() <= b.value(),
{
    let zero = Reading { bits: ZERO };
    assert(zero.units() == 0);
    if a.magnitude() > 0 {
        lemma_units_step(zero, a);
    }
    if b.magnitude() > 0 {
        lemma_units_step(zero, b);
    }
    if a.magnitude() < b.magnitude() {
        lemma_units_step(a, b);
    }
    if b.magnitude() < a.magnitude() {
        lemma_units_step(b, a);
    }
}

/// A number moved to the nearer end of 0 to 100 lies between them, and one that lay between
/// them stays as it is.
pub proof fn law_percent_is_share(r: Reading)
    requires
        !r.is_nan(),
    ensures
        r.to_percent().is_share(),
        r.is_share() ==> r.to_percent() == r,
{
}

/// The thresholds stand for the numbers that their names say.
pub proof fn law_threshold_values()
    ensures
        (Reading { bits: ZERO }).value() == 0,
        (Reading { bits: FORTY }).value() == 40 * pow2(149),
        (Reading { bits: SEVENTY }).value() == 70 * pow2(149),
        (Reading { bits: EIGHTY_FIVE }).value() == 85 * pow2(149),
        (Reading { bits: NINETY }).value() == 90 * pow2(149),
        (Reading { bits: HUNDRED }).value() == 100 * pow2(149),
{
    lemma2_to64();
    lemma_pow2_adds(18, 131);
    lemma_pow2_adds(17, 132);
    let p = pow2(131) as int;
    let q = pow2(132) as int;
    assert(0x40_0000int / 0x80_0000 == 0);
    assert(0x4220_0000int / 0x80_0000 == 132 && 0x4220_0000int % 0x80_0000 == 0x20_0000);
    assert(0x428C_0000int / 0x80_0000 == 133 && 0x428C_0000int % 0x80_0000 == 0xC_0000);
    assert(0x42AA_0000int / 0x80_0000 == 133 && 0x42AA_0000int % 0x80_0000 == 0x2A_0000);
    assert(0x42B4_0000int / 0x80_0000 == 133 && 0x42B4_0000int % 0x80_0000 == 0x34_0000);
    assert(0x42C8_0000int / 0x80_0000 == 133 && 0x42C8_0000int % 0x80_0000 == 0x48_0000);
}

/// A number below 0 becomes 0, and one above 100 becomes 100.
pub proof fn law_percent_ends(r: Reading)
    requires
        !r.is_nan(),
    ensures
        r.value() < 0 ==> r.to_percent().value() == 0,
        r.value() > 100 * pow2(149) ==> r.to_percent().value() == 100 * pow2(149),
        0 <= r.value() <= 100 * pow2(149) ==> r.to_percent() == r,
{
    law_threshold_values();
    law_order_is_numeric(r, Reading { bits: ZERO });
    law_order_is_numeric(Reading { bits: ZERO }, r);
    law_order_is_numeric(r, Reading { bits: HUNDRED });
    law_order_is_numeric(Reading { bits: HUNDRED }, r);
}

/// The smaller of two numbers is one of them, and no larger than the other.
pub proof fn law_min_is_smaller(a: Reading, b: Reading)
    requires
        !a.is_nan(),
        !b.is_nan(),
    ensures
        a.min(b) == a || a.min(b) == b,
        a.min(b).value() <= a.value(),
        a.min(b).value() <= b.value(),
        a.value() <= b.value() ==> a.min(b) == a,
        b.value() < a.value() ==> a.min(b) == b,
{
    law_order_is_numeric(a, b);
    law_order_is_numeric(b, a);
}

/// What is no number is neither below nor above anything, is no share, is not moved, and is never
/// the smaller of two where the other is a number.
pub proof fn law_no_number_has_no_order(a: Reading, b: Reading)
    requires
        a.is_nan(),
    ensures
        !a.below(b) && !b.below(a) && !a.at_most(b) && !b.at_most(a),
        !a.is_share(),
        a.to_percent() == a,
        !b.is_nan() ==> a.min(b) == b && b.min(a) == b,
{
}

/// The smallest readings stand for their bits; from there on, one more in the exponent doubles
/// the number; the sign turns it round. Behind the largest comes what is infinite, and behind that
/// what is no number.
pub proof fn law_values_of_bits(r: Reading, twice: Reading, opposite: Reading)
    requires
        r.bits < 0x8000_0000,
        opposite.bits == r.bits + 0x8000_0000,
    ensures
        r.bits < 0x100_0000 ==> r.value() == r.bits,
        0x80_0000 <= r.bits < 0x7F00_0000 && twice.bits == r.bits + 0x80_0000 ==> twice.value() == 2 * r.value(),
        r.bits <= 0x7F80_0000 ==> opposite.value() == -r.value(),
        r.is_nan() <==> r.bits > 0x7F80_0000,
        opposite.is_nan() <==> r.is_nan(),
{
    lemma2_to64();
    let m = r.magnitude();
    if 0x80_0000 <= r.bits < 0x7F00_0000 && twice.bits == r.bits + 0x80_0000 {
        let e = m / 0x80_0000;
        assert(twice.magnitude() / 0x80_0000 == e + 1);
        assert(twice.magnitude() % 0x80_0000 == m % 0x80_0000);
        lemma_pow2_adds((e - 1) as nat, 1);
        let f = 0x80_0000 + m % 0x80_0000;
        let p = pow2((e - 1) as nat) as int;
        assert(f * (p * 2) == 2 * (f * p)) by (nonlinear_arith);
    }
    if 0x80_0000 <= r.bits < 0x100_0000 {
        assert(m / 0x80_0000 == 1);
        assert(m % 0x80_0000 == m - 0x80_0000);
        assert(pow2(0) == 1);
    }
}

} // verus!
