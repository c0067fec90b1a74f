//! Fixed-point real numbers.
//!
//! A [`Real`] is a signed 64-bit integer counting units of `2^-32`. Every
//! operation rounds the exact result to the nearest unit, halves away from
//! zero, and saturates at the ends of the range, so no operation fails.
use vstd::prelude::*;

verus! {

/// The number of units in one.
pub const ONE_BITS: i64 = 0x1_0000_0000;

/// A fixed-point number: `bits` units of `2^-32`.
#[derive(Clone, Copy, Debug, PartialEq, Eq, Structural)]
pub struct Real {
    pub bits: i64,
}

/// The `i64` nearest to `v`.
pub open spec fn saturate(v: int) -> i64 {
    if v > i64::MAX {
        i64::MAX
    } else if v < i64::MIN {
        i64::MIN
    } else {
        v as i64
    }
}

/// The integer nearest to `n / d`, halves away from zero.
pub open spec fn round_div(n: int, d: int) -> int
    recommends
        d > 0,
{
    if n >= 0 {
        (n + d / 2) / d
    } else {
        -((-n + d / 2) / d)
    }
}

/// The absolute value of an integer.
pub open spec fn magnitude(v: int) -> int {
    if v < 0 {
        -v
    } else {
        v
    }
}

/// The integer part of the square root of `n`.
pub open spec fn floor_sqrt(n: nat) -> nat {
    choose|r: nat| #[trigger] is_floor_sqrt(n, r)
}

/// Whether `r` is the integer part of the square root of `n`.
pub open spec fn is_floor_sqrt(n: nat, r: nat) -> bool {
    r * r <= n < (r + 1) * (r + 1)
}

/// The integer part of a square root is unique.
pub proof fn lemma_floor_sqrt_unique(n: nat, r: nat)
    requires
        is_floor_sqrt(n, r),
    ensures
        floor_sqrt(n) == r,
{
    let s = floor_sqrt(n);
    assert(is_floor_sqrt(n, s));
    assert(s == r) by (nonlinear_arith)
        requires
            r * r <= n < (r + 1) * (r + 1),
            s * s <= n < (s + 1) * (s + 1),
    ;
}

/// Every natural number has an integer part of its square root.
pub proof fn lemma_floor_sqrt_exists(n: nat)
    ensures
        is_floor_sqrt(n, floor_sqrt(n)),
    decreases n,
{
    if n == 0 {
        assert(0nat * 0nat <= 0nat < (0nat + 1) * (0nat + 1)) by (nonlinear_arith);
        assert(is_floor_sqrt(0, 0));
    } else {
        let m = (n - 1) as nat;
        lemma_floor_sqrt_exists(m);
        let r = floor_sqrt(m);
        assert((r + 2) * (r + 2) > (r + 1) * (r + 1)) by (nonlinear_arith);
        if (r + 1) * (r + 1) <= n {
            assert(is_floor_sqrt(n, r + 1));
        } else {
            assert(is_floor_sqrt(n, r));
        }
    }
}

fn clamp_to_i64(v: i128) -> (r: i64)
    ensures
        r == saturate(v as int),
{
    if v > i64::MAX as i128 {
        i64::MAX
    } else if v < i64::MIN as i128 {
        i64::MIN
    } else {
        v as i64
    }
}

fn abs_u128(v: i64) -> (r: u128)
    ensures
        r == magnitude(v as int),
        r <= 0x8000_0000_0000_0000,
{
    if v < 0 {
        (-(v as i128)) as u128
    } else {
        v as u128
    }
}

/// Saturates `m` with the given sign.
fn signed_clamp(negative: bool, m: u128) -> (r: i64)
    ensures
        r == saturate(if negative { -(m as int) } else { m as int }),
{
    if m > 0x8000_0000_0000_0000 {
        if negative {
            i64::MIN
        } else {
            i64::MAX
        }
    } else if negative {
        clamp_to_i64(-(m as i128))
    } else {
        clamp_to_i64(m as i128)
    }
}

fn isqrt(n: u128) -> (r: u128)
    ensures
        is_floor_sqrt(n as nat, r as nat),
        r <= u64::MAX,
{
    let mut lo: u128 = 0;
    let mut hi: u128 = 0x1_0000_0000_0000_0000;
    while hi - lo > 1
        invariant
            lo < hi <= 0x1_0000_0000_0000_0000,
            lo * lo <= n,
            n < hi * hi,
        decreases hi - lo,
    {
        let mid: u128 = lo + (hi - lo) / 2;
        assert(mid * mid <= 0xffff_ffff_ffff_ffff * 0xffff_ffff_ffff_ffff) by (nonlinear_arith)
            requires
                mid <= 0xffff_ffff_ffff_ffff,
        ;
        if mid * mid <= n {
            lo = mid;
        } else {
            hi = mid;
        }
    }
    assert(hi == lo + 1);
    lo
}

impl Real {
    /// The number of the given units.
    pub open spec fn of(bits: int) -> Real {
        Real { bits: saturate(bits) }
    }

    pub open spec fn spec_from_bits(bits: i64) -> Real {
        Real { bits }
    }

    /// The number that counts `bits` units.
    #[verifier::when_used_as_spec(spec_from_bits)]
    pub fn from_bits(bits: i64) -> (r: Real)
        ensures
            r == Real::spec_from_bits(bits),
    {
        Real { bits }
    }

    pub open spec fn spec_zero() -> Real {
        Real { bits: 0 }
    }

    /// Zero.
    #[verifier::when_used_as_spec(spec_zero)]
    pub fn zero() -> (r: Real)
        ensures
            r == Real::spec_zero(),
    {
        Real { bits: 0 }
    }

    pub open spec fn spec_one() -> Real {
        Real { bits: ONE_BITS }
    }

    /// One.
    #[verifier::when_used_as_spec(spec_one)]
    pub fn one() -> (r: Real)
        ensures
            r == Real::spec_one(),
    {
        Real { bits: ONE_BITS }
    }

    pub open spec fn spec_ratio(num: i64, den: i64) -> Real {
        Real::of(round_div(num * ONE_BITS, den as int))
    }

    /// The number nearest to `num / den`.
    #[verifier::when_used_as_spec(spec_ratio)]
    pub fn ratio(num: i64, den: i64) -> (r: Real)
        requires
            den > 0,
        ensures
            r == Real::spec_ratio(num, den),
    {
        let n = abs_u128(num) * 0x1_0000_0000;
        let m = (n + den as u128 / 2) / den as u128;
        Real { bits: signed_clamp(num < 0, m) }
    }

    pub open spec fn spec_from_count(n: usize) -> Real {
        Real::of(n * ONE_BITS)
    }

    /// The number equal to the integer `n`.
    #[verifier::when_used_as_spec(spec_from_count)]
    pub fn from_count(n: usize) -> (r: Real)
        ensures
            r == Real::spec_from_count(n),
    {
        Real { bits: signed_clamp(false, n as u128 * 0x1_0000_0000) }
    }

    pub open spec fn spec_add(self, rhs: Real) -> Real {
        Real::of(self.bits + rhs.bits)
    }

    /// The sum.
    #[verifier::when_used_as_spec(spec_add)]
    pub fn add(self, rhs: Real) -> (r: Real)
        ensures
            r == self.spec_add(rhs),
    {
        Real { bits: clamp_to_i64(self.bits as i128 + rhs.bits as i128) }
    }

    pub open spec fn spec_sub(self, rhs: Real) -> Real {
        Real::of(self.bits - rhs.bits)
    }

    /// The difference.
    #[verifier::when_used_as_spec(spec_sub)]
    pub fn sub(self, rhs: Real) -> (r: Real)
        ensures
            r == self.spec_sub(rhs),
    {
        Real { bits: clamp_to_i64(self.bits as i128 - rhs.bits as i128) }
    }

    pub open spec fn spec_neg(self) -> Real {
        Real::of(-self.bits)
    }

    /// The opposite.
    #[verifier::when_used_as_spec(spec_neg)]
    pub fn neg(self) -> (r: Real)
        ensures
            r == self.spec_neg(),
    {
        Real { bits: clamp_to_i64(-(self.bits as i128)) }
    }

    pub open spec fn spec_mul(self, rhs: Real) -> Real {
        Real::of(round_div(self.bits * rhs.bits, ONE_BITS as int))
    }

    /// The product.
    #[verifier::when_used_as_spec(spec_mul)]
    pub fn mul(self, rhs: Real) -> (r: Real)
        ensures
            r == self.spec_mul(rhs),
    {
        let a = abs_u128(self.bits);
        let b = abs_u128(rhs.bits);
        proof {
            lemma_magnitude_product(self.bits as int, rhs.bits as int);
            assert(a * b <= 0x8000_0000_0000_0000 * 0x8000_0000_0000_0000) by (nonlinear_arith)
                requires
                    a <= 0x8000_0000_0000_0000,
                    b <= 0x8000_0000_0000_0000,
            ;
        }
        let m = (a * b + 0x8000_0000) / 0x1_0000_0000;
        Real { bits: signed_clamp((self.bits < 0) != (rhs.bits < 0), m) }
    }

    pub open spec fn spec_div(self, rhs: Real) -> Real {
        if rhs.bits == 0 {
            if self.bits > 0 {
                Real { bits: i64::MAX }
            } else if self.bits < 0 {
                Real { bits: i64::MIN }
            } else {
                Real::zero()
            }
        } else if rhs.bits > 0 {
            Real::of(round_div(self.bits * ONE_BITS, rhs.bits as int))
        } else {
            Real::of(round_div(-self.bits * ONE_BITS, -(rhs.bits as int)))
        }
    }

    /// The quotient. Dividing by zero gives the end of the range on the side
    /// of the dividend's sign, and zero for a zero dividend.
    #[verifier::when_used_as_spec(spec_div)]
    pub fn div(self, rhs: Real) -> (r: Real)
        ensures
            r == self.spec_div(rhs),
    {
        if rhs.bits == 0 {
            if self.bits > 0 {
                return Real { bits: i64::MAX };
            }
            if self.bits < 0 {
                return Real { bits: i64::MIN };
            }
            return Real::zero();
        }
        let a = abs_u128(self.bits) * 0x1_0000_0000;
        let b = abs_u128(rhs.bits);
        let m = (a + b / 2) / b;
        assert((b / 2) / b == 0) by (nonlinear_arith)
            requires
                b > 0,
        ;
        Real { bits: signed_clamp((self.bits < 0) != (rhs.bits < 0), m) }
    }

    pub open spec fn spec_inv(self) -> Real {
        if self.bits == 0 {
            Real::zero()
        } else {
            Real::one().div(self)
        }
    }

    /// The inverse, and zero for zero.
    #[verifier::when_used_as_spec(spec_inv)]
    pub fn inv(self) -> (r: Real)
        ensures
            r == self.spec_inv(),
    {
        if self.bits == 0 {
            Real::zero()
        } else {
            Real::one().div(self)
        }
    }

    pub open spec fn spec_lt(self, rhs: Real) -> bool {
        self.bits < rhs.bits
    }

    /// Whether `self < rhs`.
    #[verifier::when_used_as_spec(spec_lt)]
    pub fn lt(self, rhs: Real) -> (r: bool)
        ensures
            r == self.spec_lt(rhs),
    {
        self.bits < rhs.bits
    }

    pub open spec fn spec_le(self, rhs: Real) -> bool {
        self.bits <= rhs.bits
    }

    /// Whether `self <= rhs`.
    #[verifier::when_used_as_spec(spec_le)]
    pub fn le(self, rhs: Real) -> (r: bool)
        ensures
            r == self.spec_le(rhs),
    {
        self.bits <= rhs.bits
    }

    pub open spec fn spec_max(self, rhs: Real) -> Real {
        if self.bits < rhs.bits {
            rhs
        } else {
            self
        }
    }

    /// The larger of two numbers.
    #[verifier::when_used_as_spec(spec_max)]
    pub fn max(self, rhs: Real) -> (r: Real)
        ensures
            r == self.spec_max(rhs),
    {
        if self.bits < rhs.bits {
            rhs
        } else {
            self
        }
    }

    pub open spec fn spec_min(self, rhs: Real) -> Real {
        if rhs.bits < self.bits {
            rhs
        } else {
            self
        }
    }

    /// The smaller of two numbers.
    #[verifier::when_used_as_spec(spec_min)]
    pub fn min(self, rhs: Real) -> (r: Real)
        ensures
            r == self.spec_min(rhs),
    {
        if rhs.bits < self.bits {
            rhs
        } else {
            self
        }
    }

    pub open spec fn spec_clamp(self, lo: Real, hi: Real) -> Real {
        if self.bits < lo.bits {
            lo
        } else if self.bits > hi.bits {
            hi
        } else {
            self
        }
    }

    /// The number of `[lo, hi]` nearest to `self`.
    #[verifier::when_used_as_spec(spec_clamp)]
    pub fn clamp(self, lo: Real, hi: Real) -> (r: Real)
        requires
            lo.le(hi),
        ensures
            r == self.spec_clamp(lo, hi),
    {
        if self.bits < lo.bits {
            lo
        } else if self.bits > hi.bits {
            hi
        } else {
            self
        }
    }

    pub open spec fn spec_abs(self) -> Real {
        Real::of(magnitude(self.bits as int))
    }

    /// The absolute value.
    #[verifier::when_used_as_spec(spec_abs)]
    pub fn abs(self) -> (r: Real)
        ensures
            r == self.spec_abs(),
    {
        Real { bits: signed_clamp(false, abs_u128(self.bits)) }
    }
}

/// The length of the vector of the given coordinates, in units, rounded down.
pub(crate) fn length_of(x: i64, y: i64, z: i64) -> (r: Real)
    ensures
        r == Real::of(floor_sqrt((x * x + y * y + z * z) as nat) as int),
{
    let a = abs_u128(x);
    let b = abs_u128(y);
    let c = abs_u128(z);
    proof {
        lemma_magnitude_product(x as int, x as int);
        lemma_magnitude_product(y as int, y as int);
        lemma_magnitude_product(z as int, z as int);
        lemma_square_bound(a as int);
        lemma_square_bound(b as int);
        lemma_square_bound(c as int);
    }
    let n = a * a + b * b + c * c;
    let r = isqrt(n);
    proof {
        lemma_floor_sqrt_unique(n as nat, r as nat);
    }
    Real { bits: signed_clamp(false, r) }
}

/// Whether the vector of the given coordinates is longer than `len`, whatever
/// the sign of that, all in units.
pub(crate) fn is_longer(x: i64, y: i64, z: i64, len: i64) -> (r: bool)
    ensures
        r == (len * len < x * x + y * y + z * z),
{
    let a = abs_u128(x);
    let b = abs_u128(y);
    let c = abs_u128(z);
    let d = abs_u128(len);
    proof {
        lemma_magnitude_product(x as int, x as int);
        lemma_magnitude_product(y as int, y as int);
        lemma_magnitude_product(z as int, z as int);
        lemma_magnitude_product(len as int, len as int);
        lemma_square_bound(a as int);
        lemma_square_bound(b as int);
        lemma_square_bound(c as int);
        lemma_square_bound(d as int);
    }
    d * d < a * a + b * b + c * c
}

proof fn lemma_square_bound(a: int)
    requires
        0 <= a <= 0x8000_0000_0000_0000,
    ensures
        0 <= a * a <= 0x4000_0000_0000_0000_0000_0000_0000_0000,
{
    assert(0 <= a * a <= 0x8000_0000_0000_0000 * 0x8000_0000_0000_0000) by (nonlinear_arith)
        requires
            0 <= a <= 0x8000_0000_0000_0000,
    ;
}

proof fn lemma_magnitude_product(a: int, b: int)
    ensures
        magnitude(a) * magnitude(b) == magnitude(a * b),
        a * b < 0 ==> (a < 0) != (b < 0),
        a * b > 0 ==> (a < 0) == (b < 0),
{
    assert(a * b == magnitude(a) * magnitude(b) || a * b == -(magnitude(a) * magnitude(b)))
        by (nonlinear_arith);
    assert(0 <= magnitude(a) * magnitude(b)) by (nonlinear_arith);
    assert(a * b < 0 ==> (a < 0) != (b < 0)) by (nonlinear_arith);
    assert(a * b > 0 ==> (a < 0) == (b < 0)) by (nonlinear_arith);
}

} // verus!
