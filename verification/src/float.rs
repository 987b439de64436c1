//! Single precision numbers, carried as their IEEE 754 bit patterns.
//!
//! The library never adds or multiplies a measured quantity: it only asks
//! whether a number is finite, which of two is larger, and whether two of them
//! lie apart by more than a tolerance. Each of these questions is answered here
//! on the bits, and stated over the number that the bits stand for.

use vstd::arithmetic::mul::*;
use vstd::arithmetic::power2::*;
use vstd::prelude::*;

verus! {

/// A binary32 number. `==` compares bit patterns, so a zero differs from a
/// negative zero and a NaN equals itself; [`Binary32::equals`] compares values.
#[derive(Clone, Copy, Debug, PartialEq, Eq, Structural)]
pub struct Binary32 {
    pub bits: u32,
}

/// The number that the lower 31 bits stand for, in units of 2^-149, the smallest
/// positive number of the format. Infinity comes out larger than every finite
/// number.
pub open spec fn magnitude_units(magnitude: nat) -> nat {
    if magnitude < 0x80_0000 {
        magnitude
    } else {
        (0x80_0000 + magnitude % 0x80_0000) * pow2((magnitude / 0x80_0000 - 1) as nat)
    }
}

/// The distance, in units of 2^-149, above which a difference rounds to a number
/// larger than the single precision 1e-5. That number has the significand
/// 0xa7c5ac and its last place counts 2^109 units. A difference that lies
/// half a place above it still rounds down to it, since the significand is even.
pub open spec fn tolerance_units() -> nat {
    (2 * 0xa7_c5ac + 1) * pow2(108)
}

impl Binary32 {
    pub open spec fn negative(self) -> bool {
        self.bits >= 0x8000_0000
    }

    pub open spec fn magnitude(self) -> nat {
        (self.bits % 0x8000_0000) as nat
    }

    pub open spec fn finite(self) -> bool {
        self.magnitude() < 0x7f80_0000
    }

    pub open spec fn infinite(self) -> bool {
        self.magnitude() == 0x7f80_0000
    }

    pub open spec fn nan(self) -> bool {
        self.magnitude() > 0x7f80_0000
    }

    /// The number itself, in units of 2^-149.
    pub open spec fn units(self) -> int {
        if self.negative() {
            -(magnitude_units(self.magnitude()) as int)
        } else {
            magnitude_units(self.magnitude()) as int
        }
    }

    /// Whether this number is larger than `other`. NaN is larger than nothing,
    /// and nothing is larger than NaN.
    pub open spec fn exceeds(self, other: Binary32) -> bool {
        !self.nan() && !other.nan() && self.units() > other.units()
    }

    /// Whether the two numbers are the same. NaN is the same as nothing, and the
    /// two zeros are the same.
    pub open spec fn same(self, other: Binary32) -> bool {
        !self.nan() && !other.nan() && self.units() == other.units()
    }

    /// The place of this bit pattern in the total order of the format: negative
    /// NaN, negative infinity, the negative numbers, negative zero, zero, the
    /// positive numbers, infinity, NaN.
    pub open spec fn rank(self) -> int {
        if self.negative() {
            -1 - self.magnitude()
        } else {
            self.magnitude() as int
        }
    }

    /// Whether the difference of the two numbers, rounded to single precision,
    /// is larger in absolute value than 1e-5. A difference that is NaN is not.
    pub open spec fn apart(self, other: Binary32) -> bool {
        if self.nan() || other.nan() {
            false
        } else if self.infinite() || other.infinite() {
            self.bits != other.bits
        } else {
            ||| self.units() - other.units() > tolerance_units()
            ||| other.units() - self.units() > tolerance_units()
        }
    }

    /// The number zero.
    pub fn zero() -> (r: Binary32)
        ensures
            r.bits == 0,
            r.units() == 0,
    {
        Binary32 { bits: 0 }
    }

    /// The quiet NaN whose sign bit is clear.
    pub fn quiet_nan() -> (r: Binary32)
        ensures
            r.bits == 0x7fc0_0000,
            r.nan(),
    {
        Binary32 { bits: 0x7fc0_0000 }
    }

    pub fn is_finite(self) -> (r: bool)
        ensures
            r == self.finite(),
    {
        self.bits % 0x8000_0000 < 0x7f80_0000
    }

    pub fn is_nan(self) -> (r: bool)
        ensures
            r == self.nan(),
    {
        self.bits % 0x8000_0000 > 0x7f80_0000
    }

    /// The magnitude with its sign. It orders the numbers as their values do.
    fn signed(self) -> (r: i64)
        ensures
            r == (if self.negative() {
                -(self.magnitude() as int)
            } else {
                self.magnitude() as int
            }),
    {
        let magnitude: i64 = (self.bits % 0x8000_0000) as i64;
        if self.bits >= 0x8000_0000 {
            -magnitude
        } else {
            magnitude
        }
    }

    /// The `>` of single precision numbers.
    pub fn is_greater_than(self, other: Binary32) -> (r: bool)
        ensures
            r == self.exceeds(other),
    {
        proof {
            lemma_signed_order(self, other);
        }
        !self.is_nan() && !other.is_nan() && self.signed() > other.signed()
    }

    /// The `==` of single precision numbers.
    pub fn equals(self, other: Binary32) -> (r: bool)
        ensures
            r == self.same(other),
    {
        proof {
            lemma_signed_order(self, other);
        }
        !self.is_nan() && !other.is_nan() && self.signed() == other.signed()
    }

    /// Whether this bit pattern comes before `other` in the total order.
    pub fn ranks_before(self, other: Binary32) -> (r: bool)
        ensures
            r == (self.rank() < other.rank()),
    {
        if self.bits >= 0x8000_0000 {
            other.bits < 0x8000_0000 || self.bits > other.bits
        } else {
            other.bits < 0x8000_0000 && self.bits < other.bits
        }
    }

    /// Whether the rounded difference of the two numbers exceeds 1e-5.
    pub fn is_apart_from(self, other: Binary32) -> (r: bool)
        ensures
            r == self.apart(other),
    {
        if self.is_nan() || other.is_nan() {
            return false;
        }
        if !self.is_finite() || !other.is_finite() {
            return self.bits != other.bits;
        }
        let a: u32 = self.bits % 0x8000_0000;
        let b: u32 = other.bits % 0x8000_0000;
        let same_sign: bool = (self.bits >= 0x8000_0000) == (other.bits >= 0x8000_0000);
        proof {
            lemma_magnitude_order(a as nat, b as nat);
            lemma_magnitude_order(b as nat, a as nat);
        }
        if same_sign {
            if a >= b {
                magnitudes_apart(a, b)
            } else {
                magnitudes_apart(b, a)
            }
        } else {
            magnitudes_sum_large(a, b)
        }
    }
}

/// A number of units as `high` blocks of 2^80 units and `low` single units.
pub open spec fn split_units(high: int, low: int) -> int {
    high * pow2(80) + low
}

proof fn lemma_powers()
    ensures
        pow2(23) == 0x80_0000,
        pow2(24) == 0x100_0000,
        pow2(25) == 0x200_0000,
        pow2(28) == 0x1000_0000,
        pow2(80) == 0x1_0000_0000_0000_0000_0000,
        pow2(104) == 0x100_0000_0000_0000_0000_0000_0000,
{
    lemma2_to64();
    lemma2_to64_rest();
    lemma_pow2_adds(64, 16);
    lemma_pow2_adds(64, 40);
}

/// The magnitudes order the numbers as the numbers themselves are ordered.
pub proof fn lemma_magnitude_order(a: nat, b: nat)
    ensures
        a < b ==> magnitude_units(a) < magnitude_units(b),
{
    if a < b {
        lemma_powers();
        let unit: nat = 0x80_0000;
        if b >= unit {
            let kb = (b / unit - 1) as nat;
            lemma_pow2_pos(kb);
            if a < unit {
                assert((unit + b % unit) * pow2(kb) >= unit * 1) by (nonlinear_arith)
                    requires
                        unit > 0,
                        b % unit >= 0,
                        pow2(kb) >= 1,
                ;
            } else {
                let ka = (a / unit - 1) as nat;
                lemma_pow2_pos(ka);
                if ka == kb {
                    assert(a % unit < b % unit);
                    lemma_mul_strict_inequality(
                        (unit + a % unit) as int,
                        (unit + b % unit) as int,
                        pow2(ka) as int,
                    );
                } else {
                    assert(ka < kb) by {
                        assert(a / unit <= b / unit);
                    }
                    if ka + 1 < kb {
                        lemma_pow2_strictly_increases(ka + 1, kb);
                    }
                    lemma_pow2_unfold(ka + 1);
                    assert((unit + a % unit) * pow2(ka) < (unit + b % unit) * pow2(kb))
                        by (nonlinear_arith)
                        requires
                            0 <= a % unit < unit,
                            b % unit >= 0,
                            pow2(ka) >= 1,
                            pow2(kb) >= 2 * pow2(ka),
                    ;
                }
            }
        }
    }
}

proof fn lemma_signed_order(x: Binary32, y: Binary32)
    ensures
        x.units() > y.units() <==> (if x.negative() {
            -(x.magnitude() as int)
        } else {
            x.magnitude() as int
        }) > (if y.negative() {
            -(y.magnitude() as int)
        } else {
            y.magnitude() as int
        }),
        x.units() == y.units() <==> (if x.negative() {
            -(x.magnitude() as int)
        } else {
            x.magnitude() as int
        }) == (if y.negative() {
            -(y.magnitude() as int)
        } else {
            y.magnitude() as int
        }),
{
    lemma_magnitude_order(x.magnitude(), y.magnitude());
    lemma_magnitude_order(y.magnitude(), x.magnitude());
    lemma_magnitude_order(0, x.magnitude());
    lemma_magnitude_order(0, y.magnitude());
}

/// Numbers of at least 2^8 lie further apart than the tolerance.
proof fn lemma_coarse(m: nat)
    requires
        m >= 135 * 0x80_0000,
    ensures
        magnitude_units(m) - magnitude_units((m - 1) as nat) > tolerance_units(),
        magnitude_units(m) > tolerance_units(),
{
    lemma_powers();
    let unit: nat = 0x80_0000;
    let k = (m / unit - 1) as nat;
    assert(k >= 134);
    lemma_pow2_adds(25, 108);
    lemma_pow2_pos(108);
    assert(tolerance_units() < pow2(133)) by {
        assert((2 * 0xa7_c5ac + 1) * pow2(108) < 0x200_0000 * pow2(108)) by (nonlinear_arith)
            requires
                pow2(108) > 0,
        ;
    }
    if k > 134 {
        lemma_pow2_strictly_increases(134, k);
    }
    lemma_pow2_unfold(134);
    lemma_pow2_unfold(k);
    lemma_pow2_pos((k - 1) as nat);
    assert((unit + m % unit) * pow2(k) >= pow2(k)) by (nonlinear_arith)
        requires
            unit >= 1,
            m % unit >= 0,
    ;
    if m % unit == 0 {
        assert((m - 1) as nat / unit == k);
        assert((m - 1) as nat % unit == unit - 1);
        assert(unit * pow2(k) - (unit + (unit - 1)) * pow2((k - 1) as nat) == pow2((k - 1) as nat))
            by (nonlinear_arith)
            requires
                pow2(k) == 2 * pow2((k - 1) as nat),
        ;
        assert(magnitude_units(m) - magnitude_units((m - 1) as nat) == pow2((k - 1) as nat));
    } else {
        assert((m - 1) as nat / unit == k + 1);
        assert((m - 1) as nat % unit == m % unit - 1);
        lemma_mul_is_distributive_sub_other_way(
            pow2(k) as int,
            (unit + m % unit) as int,
            unit + (m % unit - 1),
        );
        assert(magnitude_units((m - 1) as nat) == (unit + (m % unit - 1)) * pow2(k));
        assert(magnitude_units(m) - magnitude_units((m - 1) as nat) == 1 * pow2(k));
    }
}

/// `significand` doubled `places` times.
fn doubled(significand: u128, places: u32) -> (r: u128)
    requires
        significand < 0x100_0000,
        places <= 80,
    ensures
        r == significand * pow2(places as nat),
{
    let mut value: u128 = significand;
    let mut done: u32 = 0;
    proof {
        lemma_powers();
        lemma2_to64();
        assert(significand * pow2(0) == significand) by (nonlinear_arith)
            requires
                pow2(0) == 1,
        ;
    }
    while done < places
        invariant
            done <= places <= 80,
            significand < 0x100_0000,
            value == significand * pow2(done as nat),
        decreases places - done,
    {
        proof {
            lemma_powers();
            let now = pow2(done as nat);
            if done < 80 {
                lemma_pow2_strictly_increases(done as nat, 80);
            }
            lemma_pow2_unfold((done + 1) as nat);
            assert(significand * now <= 0x100_0000 * pow2(80)) by (nonlinear_arith)
                requires
                    significand < 0x100_0000,
                    now <= pow2(80),
            ;
            assert(significand * (2 * now) == 2 * (significand * now)) by (nonlinear_arith);
        }
        value = value * 2;
        done = done + 1;
    }
    value
}

/// A magnitude below 2^8 as blocks of 2^80 units and single units.
fn blocks(magnitude: u32) -> (r: (u128, u128))
    requires
        magnitude < 135 * 0x80_0000,
    ensures
        split_units(r.0 as int, r.1 as int) == magnitude_units(magnitude as nat),
        r.1 < pow2(80),
        r.0 < pow2(80),
{
    proof {
        lemma_powers();
    }
    let block: u128 = 0x1_0000_0000_0000_0000_0000;
    if magnitude < 0x80_0000 {
        (0, magnitude as u128)
    } else {
        let significand: u128 = (0x80_0000 + magnitude % 0x80_0000) as u128;
        let places: u32 = magnitude / 0x80_0000 - 1;
        if places >= 80 {
            let high: u128 = doubled(significand, places - 80);
            proof {
                lemma_pow2_adds((places - 80) as nat, 80);
                let p = pow2((places - 80) as nat);
                assert((significand * p) * pow2(80) == significand * (p * pow2(80)))
                    by (nonlinear_arith);
                lemma2_to64();
                lemma2_to64_rest();
                if places - 80 < 54 {
                    lemma_pow2_strictly_increases(
                        (places - 80) as nat,
                        54,
                    );
                }
                assert(significand * p <= 0x100_0000 * pow2(54)) by (nonlinear_arith)
                    requires
                        significand < 0x100_0000,
                        p <= pow2(54),
                ;
            }
            (high, 0)
        } else {
            let all: u128 = doubled(significand, places);
            proof {
                assert(all == block * (all / block) + all % block);
                assert(all / block <= all);
                let p = pow2(places as nat);
                lemma_pow2_strictly_increases(places as nat, 80);
                assert(significand * p <= 0x100_0000 * pow2(80)) by (nonlinear_arith)
                    requires
                        significand < 0x100_0000,
                        p <= pow2(80),
                ;
                assert(all / block < pow2(80)) by {
                    assert(all <= 0x100_0000 * block);
                }
            }
            (all / block, all % block)
        }
    }
}

proof fn lemma_tolerance_blocks()
    ensures
        tolerance_units() == split_units(0x14f_8b59int * 0x1000_0000, 0),
{
    lemma_powers();
    lemma_pow2_adds(28, 80);
    assert((2 * 0xa7_c5ac + 1) * (pow2(28) * pow2(80)) == ((2 * 0xa7_c5ac + 1) * pow2(28)) * pow2(80))
        by (nonlinear_arith);
}

/// Whether the larger magnitude exceeds the smaller by more than the tolerance.
fn magnitudes_apart(larger: u32, smaller: u32) -> (r: bool)
    requires
        smaller <= larger < 0x7f80_0000,
    ensures
        r == (magnitude_units(larger as nat) - magnitude_units(smaller as nat)
            > tolerance_units()),
{
    proof {
        lemma_powers();
        lemma_tolerance_blocks();
        lemma_magnitude_order(smaller as nat, larger as nat);
        lemma_pow2_pos(108);
    }
    if larger >= 135 * 0x80_0000 {
        proof {
            lemma_coarse(larger as nat);
            lemma_magnitude_order(smaller as nat, (larger - 1) as nat);
        }
        larger != smaller
    } else {
        let (high_a, low_a) = blocks(larger);
        let (high_b, low_b) = blocks(smaller);
        let limit: u128 = 0x14f_8b59 * 0x1000_0000;
        high_a > high_b + limit || (high_a == high_b + limit && low_a > low_b)
    }
}

/// Whether the sum of the two magnitudes is larger than the tolerance.
fn magnitudes_sum_large(a: u32, b: u32) -> (r: bool)
    requires
        a < 0x7f80_0000,
        b < 0x7f80_0000,
    ensures
        r == (magnitude_units(a as nat) + magnitude_units(b as nat) > tolerance_units()),
{
    proof {
        lemma_powers();
        lemma_tolerance_blocks();
    }
    if a >= 135 * 0x80_0000 || b >= 135 * 0x80_0000 {
        proof {
            if a >= 135 * 0x80_0000 {
                lemma_coarse(a as nat);
            } else {
                lemma_coarse(b as nat);
            }
        }
        true
    } else {
        let (high_a, low_a) = blocks(a);
        let (high_b, low_b) = blocks(b);
        let limit: u128 = 0x14f_8b59 * 0x1000_0000;
        let block: u128 = 0x1_0000_0000_0000_0000_0000;
        let high: u128 = high_a + high_b + (low_a + low_b) / block;
        let low: u128 = (low_a + low_b) % block;
        high > limit || (high == limit && low > 0)
    }
}

/// A number is never apart from itself, and two numbers that are apart are so
/// either way round.
pub proof fn law_apart_is_symmetric(x: Binary32, y: Binary32)
    ensures
        !x.apart(x),
        x.apart(y) == y.apart(x),
{
}

/// Of two numbers neither of which is NaN, exactly one of three things holds: the
/// first is larger, the second is larger, or they are the same.
pub proof fn law_order_is_total(x: Binary32, y: Binary32)
    requires
        !x.nan(),
        !y.nan(),
    ensures
        x.exceeds(y) || y.exceeds(x) || x.same(y),
        !(x.exceeds(y) && y.exceeds(x)),
        x.same(y) ==> !x.exceeds(y) && !y.exceeds(x),
{
}

/// The total order agrees with the order of the numbers, and only equal bit
/// patterns share a place in it.
pub proof fn law_rank_refines_order(x: Binary32, y: Binary32)
    ensures
        x.exceeds(y) ==> y.rank() < x.rank(),
        x.rank() == y.rank() ==> x == y,
{
    lemma_signed_order(x, y);
}

} // verus!
