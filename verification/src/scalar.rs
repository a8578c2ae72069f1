//! Real numbers as the library carries them.
//!
//! Coordinates, angles and ray parameters are single-precision numbers. The
//! library stores each by its IEEE-754 bit pattern and hands it on unchanged.
//! It never does arithmetic on them. What it reads from a pattern is the sign
//! and the order of two numbers, which the patterns show without arithmetic:
//! a single is a sign bit over a magnitude, and of two magnitudes the greater
//! has the greater pattern. What it writes is the pattern of a whole number,
//! for the middle of a grid cell.

use vstd::arithmetic::power2::{
    lemma2_to64, lemma2_to64_rest, lemma_pow2_adds, lemma_pow2_pos, lemma_pow2_strictly_increases,
    lemma_pow2_unfold, pow2,
};
use vstd::prelude::*;

verus! {

/// The bit that holds the sign.
pub const SIGN_BIT: u32 = 0x8000_0000;

/// The bit pattern of positive infinity: the greatest magnitude that is a
/// number. Every greater magnitude is a NaN.
pub const POSITIVE_INFINITY_BITS: u32 = 0x7f80_0000;

/// The number of bits of a pattern that hold the fraction.
pub const FRACTION_BITS: u32 = 23;

/// The exponent field of the numbers from one up to, and without, two.
pub const EXPONENT_BIAS: u32 = 127;

/// The value of the lowest bit of the exponent field: two to the power of
/// `FRACTION_BITS`.
pub const EXPONENT_UNIT: u32 = 0x80_0000;

/// A single-precision number, held by its bit pattern.
#[derive(Clone, Copy, Debug, PartialEq, Eq, Structural)]
pub struct Scalar {
    pub bits: u32,
}

/// A point of the floor plane.
#[derive(Clone, Copy, Debug, PartialEq, Eq, Structural)]
pub struct Position {
    pub x: Scalar,
    pub z: Scalar,
}

/// A point, or a direction, of space.
#[derive(Clone, Copy, Debug, PartialEq, Eq, Structural)]
pub struct Point3 {
    pub x: Scalar,
    pub y: Scalar,
    pub z: Scalar,
}

impl Scalar {
    /// The sign bit is set.
    pub open spec fn sign(self) -> bool {
        self.bits >= SIGN_BIT
    }

    /// The pattern without its sign bit.
    pub open spec fn magnitude(self) -> int {
        if self.sign() {
            self.bits - SIGN_BIT
        } else {
            self.bits as int
        }
    }

    /// The pattern stands for no number.
    pub open spec fn nan(self) -> bool {
        self.magnitude() > POSITIVE_INFINITY_BITS
    }

    /// The place of the number among all numbers: the magnitude, counted
    /// downwards from zero where the sign bit is set. Both zeros have the
    /// place zero.
    pub open spec fn rank(self) -> int {
        if self.sign() {
            -self.magnitude()
        } else {
            self.magnitude()
        }
    }

    /// `self < other` as numbers. A NaN is neither less nor greater than
    /// anything.
    pub open spec fn less_than(self, other: Scalar) -> bool {
        !self.nan() && !other.nan() && self.rank() < other.rank()
    }

    /// `|self| < bound` as numbers.
    pub open spec fn within(self, bound: Scalar) -> bool {
        !self.nan() && !bound.nan() && self.magnitude() < bound.rank()
    }

    /// The number is greater than zero.
    pub open spec fn positive(self) -> bool {
        0 < self.bits <= POSITIVE_INFINITY_BITS
    }

    /// The number with the given bit pattern.
    pub fn from_bits(bits: u32) -> (s: Scalar)
        ensures
            s.bits == bits,
    {
        Scalar { bits }
    }

    /// The number zero.
    pub fn zero() -> (s: Scalar)
        ensures
            s.bits == 0,
    {
        Scalar { bits: 0 }
    }

    /// Tells whether the pattern stands for no number.
    pub fn is_nan(&self) -> (nan: bool)
        ensures
            nan == self.nan(),
    {
        let magnitude: u32 = if self.bits >= SIGN_BIT {
            self.bits - SIGN_BIT
        } else {
            self.bits
        };
        magnitude > POSITIVE_INFINITY_BITS
    }

    /// The place of the number among all numbers.
    fn place(&self) -> (rank: i64)
        ensures
            rank == self.rank(),
    {
        if self.bits >= SIGN_BIT {
            let magnitude: u32 = self.bits - SIGN_BIT;
            -(magnitude as i64)
        } else {
            self.bits as i64
        }
    }

    /// Tells whether `self < other` as numbers.
    pub fn lt(&self, other: &Scalar) -> (less: bool)
        ensures
            less == self.less_than(*other),
    {
        if self.is_nan() || other.is_nan() {
            return false;
        }
        self.place() < other.place()
    }

    /// Tells whether `|self| < bound` as numbers.
    pub fn abs_lt(&self, bound: &Scalar) -> (less: bool)
        ensures
            less == self.within(*bound),
    {
        if self.is_nan() || bound.is_nan() {
            return false;
        }
        let magnitude: u32 = if self.bits >= SIGN_BIT {
            self.bits - SIGN_BIT
        } else {
            self.bits
        };
        (magnitude as i64) < bound.place()
    }

    /// Tells whether the number is greater than zero.
    pub fn is_positive(&self) -> (ok: bool)
        ensures
            ok == self.positive(),
    {
        0 < self.bits && self.bits <= POSITIVE_INFINITY_BITS
    }
}

/// The place of the highest bit of `n`: the greatest `e` with two to the
/// power of `e` not above `n`.
pub open spec fn top_bit(n: nat) -> nat
    decreases n,
{
    if n <= 1 {
        0
    } else {
        1 + top_bit(n / 2)
    }
}

/// The single that stands for the whole number `n`: `n` itself where it has
/// at most 24 bits, else the nearest single, and of two equally near the one
/// whose last bit is clear.
///
/// A single holds the place `e` of the highest bit, and the 23 bits below
/// it. A shorter number is padded with zeros. A longer one is cut, and
/// rounded by what was cut off: up if that is more than half of the last bit
/// kept, or just half with the last bit kept set.
pub open spec fn single_of(n: nat) -> Scalar {
    if n == 0 {
        Scalar { bits: 0 }
    } else {
        let e = top_bit(n);
        if e <= FRACTION_BITS {
            let fraction = n * pow2((FRACTION_BITS - e) as nat) - EXPONENT_UNIT;
            Scalar { bits: ((EXPONENT_BIAS + e) * EXPONENT_UNIT + fraction) as u32 }
        } else {
            let cut = pow2((e - FRACTION_BITS) as nat);
            let kept = n / cut;
            let rest = n % cut;
            let up: int = if 2 * rest > cut || (2 * rest == cut && kept % 2 == 1) {
                1
            } else {
                0
            };
            Scalar {
                bits: ((EXPONENT_BIAS + e) * EXPONENT_UNIT + (kept - EXPONENT_UNIT) + up) as u32,
            }
        }
    }
}

/// A number between two neighbouring powers of two has its highest bit at
/// the place of the lower one.
pub proof fn lemma_top_bit(n: nat, e: nat)
    requires
        pow2(e) <= n < pow2(e + 1),
    ensures
        top_bit(n) == e,
    decreases e,
{
    lemma2_to64();
    if e == 0 {
        lemma_pow2_unfold(1);
    } else {
        lemma_pow2_unfold(e);
        lemma_pow2_unfold(e + 1);
        lemma_pow2_pos((e - 1) as nat);
        assert(n >= 2);
        lemma_top_bit(n / 2, (e - 1) as nat);
    }
}

/// The highest bit of a number lies between the number's two neighbouring
/// powers of two.
pub proof fn lemma_top_bit_bounds(n: nat)
    requires
        n >= 1,
    ensures
        pow2(top_bit(n)) <= n < pow2(top_bit(n) + 1),
    decreases n,
{
    lemma2_to64();
    if n == 1 {
    } else {
        lemma_top_bit_bounds(n / 2);
        let t = top_bit(n / 2);
        lemma_pow2_unfold(t + 1);
        lemma_pow2_unfold(t + 2);
    }
}

/// The single of a whole number of at most 24 bits: a number, not below
/// zero, whose pattern lies in the range of the place of its highest bit.
pub proof fn lemma_single_of_short(n: nat)
    requires
        1 <= n < 0x100_0000,
    ensures
        top_bit(n) <= FRACTION_BITS,
        (EXPONENT_BIAS + top_bit(n)) * EXPONENT_UNIT <= single_of(n).bits < (EXPONENT_BIAS
            + top_bit(n) + 1) * EXPONENT_UNIT,
        single_of(n).bits == (EXPONENT_BIAS + top_bit(n) - 1) * EXPONENT_UNIT + n * pow2(
            (FRACTION_BITS - top_bit(n)) as nat,
        ),
        single_of(n).positive(),
{
    let e = top_bit(n);
    lemma_top_bit_bounds(n);
    lemma2_to64();
    if e > FRACTION_BITS {
        if e > 24 {
            lemma_pow2_strictly_increases(24, e);
        }
    }
    let scale = pow2((FRACTION_BITS - e) as nat);
    lemma_pow2_adds(e, (FRACTION_BITS - e) as nat);
    lemma_pow2_unfold(e + 1);
    lemma_pow2_pos((FRACTION_BITS - e) as nat);
    assert(n * scale >= EXPONENT_UNIT) by (nonlinear_arith)
        requires
            n >= pow2(e),
            pow2(e) * scale == EXPONENT_UNIT,
            scale > 0,
    ;
    assert(n * scale < 2 * EXPONENT_UNIT) by (nonlinear_arith)
        requires
            n < 2 * pow2(e),
            pow2(e) * scale == EXPONENT_UNIT,
            scale > 0,
    ;
    assert((EXPONENT_BIAS + e) * EXPONENT_UNIT + EXPONENT_UNIT == (EXPONENT_BIAS + e + 1)
        * EXPONENT_UNIT) by (nonlinear_arith);
    assert((EXPONENT_BIAS + e) * EXPONENT_UNIT - EXPONENT_UNIT == (EXPONENT_BIAS + e - 1)
        * EXPONENT_UNIT) by (nonlinear_arith);
    assert((EXPONENT_BIAS + e + 1) * EXPONENT_UNIT <= 151 * EXPONENT_UNIT) by (nonlinear_arith)
        requires
            e <= 23,
    ;
    assert((EXPONENT_BIAS + e) * EXPONENT_UNIT >= 127 * EXPONENT_UNIT) by (nonlinear_arith);
}

/// Whole numbers of at most 24 bits keep their order as singles: the lesser
/// number has the lesser single. So no two cells of a column, or of a row,
/// share their middle.
pub proof fn lemma_single_of_order(m: nat, n: nat)
    requires
        m < n < 0x100_0000,
    ensures
        single_of(m).less_than(single_of(n)),
{
    lemma_single_of_short(n);
    if m > 0 {
        lemma_single_of_short(m);
        let a = top_bit(m);
        let b = top_bit(n);
        lemma_top_bit_bounds(m);
        lemma_top_bit_bounds(n);
        if a > b {
            if a > b + 1 {
                lemma_pow2_strictly_increases(b + 1, a);
            }
        } else if a == b {
            let scale = pow2((FRACTION_BITS - a) as nat);
            lemma_pow2_pos((FRACTION_BITS - a) as nat);
            assert(m * scale < n * scale) by (nonlinear_arith)
                requires
                    m < n,
                    scale > 0,
            ;
        } else {
            assert((EXPONENT_BIAS + a + 1) * EXPONENT_UNIT <= (EXPONENT_BIAS + b) * EXPONENT_UNIT)
                by (nonlinear_arith)
                requires
                    a + 1 <= b,
            ;
        }
    }
}

impl Scalar {
    /// Gives the single that stands for the whole number `n`.
    pub fn from_whole(n: usize) -> (s: Scalar)
        ensures
            s == single_of(n as nat),
    {
        if n == 0 {
            return Scalar { bits: 0 };
        }
        let whole: u128 = n as u128;
        let mut e: u32 = 0;
        let mut top: u128 = 1;
        proof {
            lemma2_to64();
        }
        while top * 2 <= whole
            invariant
                whole == n,
                top == pow2(e as nat),
                1 <= top <= whole,
                e <= 63,
                whole <= u64::MAX,
            decreases whole - top,
        {
            proof {
                lemma_pow2_unfold((e + 1) as nat);
                lemma2_to64();
            }
            top = top * 2;
            e = e + 1;
        }
        proof {
            lemma_pow2_unfold((e + 1) as nat);
            lemma_top_bit(n as nat, e as nat);
        }
        if e <= FRACTION_BITS {
            let mut scale: u128 = 1;
            let mut k: u32 = 0;
            while k < FRACTION_BITS - e
                invariant
                    e <= FRACTION_BITS,
                    k <= FRACTION_BITS - e,
                    scale == pow2(k as nat),
                    scale <= EXPONENT_UNIT,
                decreases FRACTION_BITS - e - k,
            {
                proof {
                    lemma_pow2_unfold((k + 1) as nat);
                    lemma_pow2_strictly_increases((k + 1) as nat, 24);
                    lemma2_to64();
                }
                scale = scale * 2;
                k = k + 1;
            }
            proof {
                lemma_pow2_adds(e as nat, (FRACTION_BITS - e) as nat);
                lemma2_to64();
                assert(top * scale == EXPONENT_UNIT);
                assert(whole * scale < 2 * EXPONENT_UNIT) by (nonlinear_arith)
                    requires
                        whole < 2 * top,
                        top * scale == EXPONENT_UNIT,
                        scale > 0,
                ;
                assert(whole * scale >= EXPONENT_UNIT) by (nonlinear_arith)
                    requires
                        whole >= top,
                        top * scale == EXPONENT_UNIT,
                        scale > 0,
                ;
            }
            let fraction: u128 = whole * scale - (EXPONENT_UNIT as u128);
            let bits: u128 = ((EXPONENT_BIAS + e) as u128) * (EXPONENT_UNIT as u128) + fraction;
            Scalar { bits: bits as u32 }
        } else {
            let mut cut: u128 = 1;
            let mut k: u32 = 0;
            while k < e - FRACTION_BITS
                invariant
                    FRACTION_BITS < e <= 63,
                    k <= e - FRACTION_BITS,
                    cut == pow2(k as nat),
                    cut < 0x200_0000_0000u128,
                decreases e - FRACTION_BITS - k,
            {
                proof {
                    lemma_pow2_unfold((k + 1) as nat);
                    lemma_pow2_strictly_increases((k + 1) as nat, 41);
                    lemma2_to64_rest();
                }
                cut = cut * 2;
                k = k + 1;
            }
            proof {
                lemma_pow2_adds(FRACTION_BITS as nat, (e - FRACTION_BITS) as nat);
                lemma2_to64();
                assert(cut * EXPONENT_UNIT == top);
                lemma_pow2_pos((e - FRACTION_BITS) as nat);
            }
            let kept: u128 = whole / cut;
            let rest: u128 = whole % cut;
            proof {
                assert(kept >= EXPONENT_UNIT) by (nonlinear_arith)
                    requires
                        whole >= top,
                        cut * EXPONENT_UNIT == top,
                        cut > 0,
                        kept == whole / cut,
                ;
                assert(kept < 2 * EXPONENT_UNIT) by (nonlinear_arith)
                    requires
                        whole < 2 * top,
                        cut * EXPONENT_UNIT == top,
                        cut > 0,
                        kept == whole / cut,
                ;
            }
            let up: u128 = if 2 * rest > cut || (2 * rest == cut && kept % 2 == 1) {
                1
            } else {
                0
            };
            let bits: u128 = ((EXPONENT_BIAS + e) as u128) * (EXPONENT_UNIT as u128) + (kept - (
            EXPONENT_UNIT as u128)) + up;
            Scalar { bits: bits as u32 }
        }
    }
}

/// To be greater than zero is to have zero below: the two ways of saying
/// it agree.
pub proof fn lemma_positive_is_above_zero(s: Scalar)
    ensures
        s.positive() <==> (Scalar { bits: 0 }).less_than(s),
{
}

/// The order of numbers is strict: nothing is below itself, and of two
/// numbers at most one is below the other.
pub proof fn lemma_less_than_is_strict(a: Scalar, b: Scalar, c: Scalar)
    ensures
        !a.less_than(a),
        a.less_than(b) ==> !b.less_than(a),
        a.less_than(b) && b.less_than(c) ==> a.less_than(c),
{
}

/// Among numbers greater than zero the patterns order as the numbers do.
pub proof fn lemma_positive_order(a: Scalar, b: Scalar)
    requires
        a.positive(),
        b.positive(),
    ensures
        a.less_than(b) <==> a.bits < b.bits,
{
}

impl Position {
    /// The origin of the floor plane.
    pub fn new() -> (p: Position)
        ensures
            p.x.bits == 0,
            p.z.bits == 0,
    {
        Position { x: Scalar::zero(), z: Scalar::zero() }
    }

    /// The point with the given coordinates.
    pub fn build(x: Scalar, z: Scalar) -> (p: Position)
        ensures
            p.x == x,
            p.z == z,
    {
        let mut pos = Position::new();
        pos.x = x;
        pos.z = z;
        pos
    }
}

} // verus!
