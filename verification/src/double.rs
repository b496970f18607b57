//! Double-precision numbers, carried as the 64 bits of their IEEE 754 encoding and ordered
//! by the numbers that they encode.

use vstd::prelude::*;

verus! {

/// The encoding of a double-precision number: a sign bit, 11 bits of exponent and 52 bits
/// of fraction.
#[derive(Clone, Copy, Debug, PartialEq, Eq, Structural)]
pub struct Double {
    pub bits: u64,
}

/// The smallest encoding with the sign bit set.
pub const SIGN: u64 = 0x8000_0000_0000_0000;

/// The encoding of positive infinity.
pub const INFINITY: u64 = 0x7FF0_0000_0000_0000;

/// The encoding of zero.
pub const ZERO: u64 = 0;

/// The encoding of one.
pub const ONE: u64 = 0x3FF0_0000_0000_0000;

/// The encoding of two.
pub const TWO: u64 = 0x4000_0000_0000_0000;

/// The encoding of three.
pub const THREE: u64 = 0x4008_0000_0000_0000;

/// The encoding of five.
pub const FIVE: u64 = 0x4014_0000_0000_0000;

/// The size of the number with the given exponent and fraction, counted in units of the
/// least positive double, two to the power of minus 1074.
pub open spec fn scaled(exponent: nat, fraction: nat) -> nat {
    if exponent == 0 {
        fraction
    } else {
        (0x10_0000_0000_0000 + fraction) * vstd::arithmetic::power2::pow2((exponent - 1) as nat)
    }
}

impl Double {
    /// The encoding without its sign bit.
    pub open spec fn magnitude(self) -> nat {
        self.bits as nat % 0x8000_0000_0000_0000
    }

    /// Whether this encodes no number.
    pub open spec fn is_nan(self) -> bool {
        self.magnitude() > INFINITY
    }

    /// Whether this encodes a finite number.
    pub open spec fn is_finite(self) -> bool {
        self.magnitude() < INFINITY
    }

    /// The number encoded, in units of the least positive double. The infinities stand
    /// where the next exponent would, beyond every finite number.
    pub open spec fn value(self) -> int {
        let size = scaled(
            self.magnitude() / 0x10_0000_0000_0000,
            self.magnitude() % 0x10_0000_0000_0000,
        );
        if self.bits >= SIGN {
            -(size as int)
        } else {
            size as int
        }
    }

    /// The encoding as a signed integer in the order of the numbers encoded.
    spec fn rank(self) -> int {
        if self.bits >= SIGN {
            -(self.magnitude() as int)
        } else {
            self.magnitude() as int
        }
    }

    /// Whether `self` is the smaller of two numbers.
    pub open spec fn is_below(self, other: Double) -> bool {
        !self.is_nan() && !other.is_nan() && self.value() < other.value()
    }
}

/// How many of the least positive double add up to one.
pub open spec fn unit() -> nat {
    vstd::arithmetic::power2::pow2(1074)
}

/// Larger encodings without sign encode larger numbers.
proof fn lemma_scaled_increases(a: nat, b: nat)
    requires
        a < b,
    ensures
        scaled(a / 0x10_0000_0000_0000, a % 0x10_0000_0000_0000) < scaled(
            b / 0x10_0000_0000_0000,
            b % 0x10_0000_0000_0000,
        ),
{
    let full: nat = 0x10_0000_0000_0000;
    let (ea, fa) = (a / full, a % full);
    let (eb, fb) = (b / full, b % full);
    assert(ea <= eb);
    if ea == eb {
        assert(fa < fb);
        if ea > 0 {
            vstd::arithmetic::power2::lemma_pow2_pos((ea - 1) as nat);
            let p = vstd::arithmetic::power2::pow2((ea - 1) as nat);
            assert((full + fa) * p < (full + fb) * p) by (nonlinear_arith)
                requires
                    fa < fb,
                    p > 0,
            ;
        }
    } else {
        let q = vstd::arithmetic::power2::pow2((eb - 1) as nat);
        vstd::arithmetic::power2::lemma_pow2_pos((eb - 1) as nat);
        assert(full * q <= (full + fb) * q) by (nonlinear_arith);
        if ea == 0 {
            assert(fa < full * q) by (nonlinear_arith)
                requires
                    fa < full,
                    q >= 1,
            ;
        } else {
            let p = vstd::arithmetic::power2::pow2((ea - 1) as nat);
            vstd::arithmetic::power2::lemma_pow2_pos((ea - 1) as nat);
            vstd::arithmetic::power2::lemma_pow2_unfold(ea);
            if ea < eb - 1 {
                vstd::arithmetic::power2::lemma_pow2_strictly_increases(ea, (eb - 1) as nat);
            }
            assert(2 * p <= q);
            assert((full + fa) * p < full * q) by (nonlinear_arith)
                requires
                    fa < full,
                    2 * p <= q,
                    p >= 1,
            ;
        }
    }
}

/// The order of ranks is the order of the numbers encoded.
proof fn lemma_rank_orders(a: Double, b: Double)
    ensures
        a.rank() < b.rank() <==> a.value() < b.value(),
        a.rank() == b.rank() <==> a.value() == b.value(),
{
    if a.magnitude() < b.magnitude() {
        lemma_scaled_increases(a.magnitude(), b.magnitude());
    }
    if b.magnitude() < a.magnitude() {
        lemma_scaled_increases(b.magnitude(), a.magnitude());
    }
    if a.magnitude() > 0 {
        lemma_scaled_increases(0, a.magnitude());
    }
    if b.magnitude() > 0 {
        lemma_scaled_increases(0, b.magnitude());
    }
}

/// What the named encodings encode.
pub proof fn lemma_named_values()
    ensures
        (Double { bits: ZERO }).value() == 0,
        (Double { bits: ONE }).value() == unit(),
        (Double { bits: TWO }).value() == 2 * unit(),
        (Double { bits: THREE }).value() == 3 * unit(),
        (Double { bits: FIVE }).value() == 5 * unit(),
        (Double { bits: ZERO }).is_finite(),
        (Double { bits: ONE }).is_finite(),
        (Double { bits: TWO }).is_finite(),
        (Double { bits: THREE }).is_finite(),
        (Double { bits: FIVE }).is_finite(),
{
    vstd::arithmetic::power2::lemma2_to64();
    vstd::arithmetic::power2::lemma2_to64_rest();
    vstd::arithmetic::power2::lemma_pow2_adds(52, 1022);
    let half = vstd::arithmetic::power2::pow2(1022);
    vstd::arithmetic::power2::lemma_pow2_unfold(1023);
    vstd::arithmetic::power2::lemma_pow2_unfold(1024);
    assert(unit() == 0x10_0000_0000_0000 * half);
    assert((Double { bits: ONE }).value() == 0x10_0000_0000_0000 * half);
    assert((Double { bits: TWO }).value() == 0x10_0000_0000_0000 * (2 * half));
    assert((Double { bits: THREE }).value() == 0x18_0000_0000_0000 * (2 * half));
    assert((Double { bits: FIVE }).value() == 0x14_0000_0000_0000 * (4 * half));
}

impl Double {
    /// The encoding as a signed integer in the order of the numbers encoded.
    fn key(self) -> (r: i64)
        ensures
            r == self.rank(),
    {
        if self.bits >= SIGN {
            -((self.bits - SIGN) as i64)
        } else {
            self.bits as i64
        }
    }

    /// Whether this encodes no number.
    pub fn nan(self) -> (r: bool)
        ensures
            r == self.is_nan(),
    {
        if self.bits >= SIGN {
            self.bits - SIGN > INFINITY
        } else {
            self.bits > INFINITY
        }
    }

    /// Whether both encode the same number.
    pub fn same(self, other: Double) -> (r: bool)
        ensures
            r == (!self.is_nan() && !other.is_nan() && self.value() == other.value()),
    {
        proof {
            lemma_rank_orders(self, other);
        }
        !self.nan() && !other.nan() && self.key() == other.key()
    }

    /// Whether this is the smaller number of the two.
    pub fn below(self, other: Double) -> (r: bool)
        ensures
            r == self.is_below(other),
    {
        proof {
            lemma_rank_orders(self, other);
        }
        !self.nan() && !other.nan() && self.key() < other.key()
    }
}

/// The order of the numbers follows from the bits: without the sign bit larger encodings are
/// larger numbers, with it smaller ones, and only the two zeros are encodings of one number.
pub proof fn lemma_order_of_bits(a: Double, b: Double)
    ensures
        a.bits < 0x8000_0000_0000_0000 && b.bits < 0x8000_0000_0000_0000 ==> (a.value()
            < b.value() <==> a.bits < b.bits),
        a.bits >= 0x8000_0000_0000_0000 && b.bits >= 0x8000_0000_0000_0000 ==> (a.value()
            < b.value() <==> a.bits > b.bits),
        a.bits >= 0x8000_0000_0000_0000 && b.bits < 0x8000_0000_0000_0000 ==> a.value() <= 0
            <= b.value(),
        a.value() == b.value() <==> a.bits == b.bits || (a.bits % 0x8000_0000_0000_0000 == 0
            && b.bits % 0x8000_0000_0000_0000 == 0),
{
    lemma_rank_orders(a, b);
    lemma_rank_orders(a, Double { bits: 0 });
    lemma_rank_orders(b, Double { bits: 0 });
    assert((Double { bits: 0 }).value() == 0);
}

/// A number is below another exactly where both are numbers and it is the smaller one. No
/// number is encoded by what lies beyond the infinities.
pub proof fn lemma_is_below(a: Double, b: Double)
    ensures
        a.is_nan() <==> 0x7FF0_0000_0000_0000 < a.bits < 0x8000_0000_0000_0000 || a.bits
            > 0xFFF0_0000_0000_0000,
        a.is_finite() <==> a.bits < 0x7FF0_0000_0000_0000 || 0x8000_0000_0000_0000 <= a.bits
            < 0xFFF0_0000_0000_0000,
        a.is_below(b) <==> !a.is_nan() && !b.is_nan() && a.value() < b.value(),
        a.is_below(b) ==> !b.is_below(a),
{
}

/// Comparing two encodings compares the numbers that they encode, and what encodes no number
/// is neither below nor the same as anything.
pub proof fn lemma_compared(a: Double, b: Double, below: bool, same: bool, nan: bool)
    requires
        call_ensures(Double::below, (a, b), below),
        call_ensures(Double::same, (a, b), same),
        call_ensures(Double::nan, (a,), nan),
    ensures
        nan ==> !below && !same,
        nan <==> a.is_nan(),
        !nan && !b.is_nan() ==> (below <==> a.value() < b.value()),
        !nan && !b.is_nan() ==> (same <==> a.value() == b.value()),
        b.is_nan() ==> !below && !same,
{
}

} // verus!
