use vstd::prelude::*;

verus! {

/// Number of raw units per 1.0: all scalar signals (rewards, discount
/// factors, exploration rates, Q-values) are stored as multiples of
/// 1/1_000_000 in a 64-bit integer.
pub const FX_SCALE: i64 = 1_000_000;

/// A fixed-point scalar with six decimal digits of precision.
///
/// `v` is the raw value: the number represented is `v / 1_000_000`.
/// Arithmetic saturates at the i64 range instead of wrapping, and
/// division truncates toward zero; both behaviours are stated exactly
/// in the contracts below.
#[derive(Clone, Copy, Debug, PartialEq, Eq, Structural)]
pub struct Fixed {
    pub v: i64,
}

impl vstd::view::DeepView for Fixed {
    type V = Fixed;

    open spec fn deep_view(&self) -> Fixed {
        *self
    }
}

pub open spec fn sp_abs(x: int) -> int {
    if x < 0 { -x } else { x }
}

/// Saturation to the i64 range.
pub open spec fn fx_clamp(x: int) -> int {
    if x > i64::MAX as int {
        i64::MAX as int
    } else if x < i64::MIN as int {
        i64::MIN as int
    } else {
        x
    }
}

/// Division truncating toward zero (the rounding used throughout).
pub open spec fn fx_tdiv(x: int, y: int) -> int
    recommends
        y != 0,
{
    let q = sp_abs(x) / sp_abs(y);
    if (x < 0) != (y < 0) {
        -q
    } else {
        q
    }
}

pub open spec fn fx_add_sp(a: int, b: int) -> int {
    fx_clamp(a + b)
}

pub open spec fn fx_sub_sp(a: int, b: int) -> int {
    fx_clamp(a - b)
}

pub open spec fn fx_mul_sp(a: int, b: int) -> int {
    fx_clamp(fx_tdiv(a * b, FX_SCALE as int))
}

pub open spec fn fx_div_sp(a: int, b: int) -> int
    recommends
        b != 0,
{
    fx_clamp(fx_tdiv(a * (FX_SCALE as int), b))
}

/// `r` is the integer square root of `n`.
pub open spec fn is_isqrt(n: int, r: int) -> bool {
    0 <= r && r * r <= n && (r + 1) * (r + 1) > n
}

fn clamp_i128(x: i128) -> (r: i64)
    ensures
        r as int == fx_clamp(x as int),
{
    if x > i64::MAX as i128 {
        i64::MAX
    } else if x < i64::MIN as i128 {
        i64::MIN
    } else {
        x as i64
    }
}

fn tdiv_i128(x: i128, y: i128) -> (r: i128)
    requires
        y != 0,
        x != i128::MIN,
        y != i128::MIN,
    ensures
        r as int == fx_tdiv(x as int, y as int),
{
    let neg: bool = (x < 0) != (y < 0);
    let ax: i128 = if x < 0 { -x } else { x };
    let ay: i128 = if y < 0 { -y } else { y };
    let q: u128 = (ax as u128) / (ay as u128);
    assert(q <= ax as u128) by (nonlinear_arith)
        requires ay >= 1 && ax >= 0 && q == (ax as u128) / (ay as u128);
    let qi: i128 = q as i128;
    if neg {
        -qi
    } else {
        qi
    }
}

impl Fixed {
    /// The scalar 0.
    pub fn zero() -> (r: Fixed)
        ensures
            r.v == 0,
    {
        Fixed { v: 0 }
    }

    /// The scalar 1.
    pub fn one() -> (r: Fixed)
        ensures
            r.v == FX_SCALE,
    {
        Fixed { v: FX_SCALE }
    }

    /// Builds a scalar from its raw (already scaled) representation.
    pub fn from_raw(v: i64) -> (r: Fixed)
        ensures
            r.v == v,
    {
        Fixed { v }
    }

    /// Builds the scalar standing for the integer `i`.
    pub fn from_int(i: i64) -> (r: Fixed)
        requires
            -9_000_000_000_000 <= i <= 9_000_000_000_000,
        ensures
            r.v == i * FX_SCALE,
    {
        Fixed { v: i * FX_SCALE }
    }

    pub fn add(self, other: Fixed) -> (r: Fixed)
        ensures
            r.v as int == fx_add_sp(self.v as int, other.v as int),
    {
        Fixed { v: clamp_i128(self.v as i128 + other.v as i128) }
    }

    pub fn sub(self, other: Fixed) -> (r: Fixed)
        ensures
            r.v as int == fx_sub_sp(self.v as int, other.v as int),
    {
        Fixed { v: clamp_i128(self.v as i128 - other.v as i128) }
    }

    pub fn mul(self, other: Fixed) -> (r: Fixed)
        ensures
            r.v as int == fx_mul_sp(self.v as int, other.v as int),
    {
        proof {
            assert((self.v as int) * (other.v as int) <= 0x4000_0000_0000_0000_0000_0000_0000_0000
                && (self.v as int) * (other.v as int) >= -0x4000_0000_0000_0000_0000_0000_0000_0000)
                by (nonlinear_arith)
                requires
                    i64::MIN <= self.v <= i64::MAX,
                    i64::MIN <= other.v <= i64::MAX;
        }
        let p: i128 = (self.v as i128) * (other.v as i128);
        Fixed { v: clamp_i128(tdiv_i128(p, FX_SCALE as i128)) }
    }

    pub fn div(self, other: Fixed) -> (r: Fixed)
        requires
            other.v != 0,
        ensures
            r.v as int == fx_div_sp(self.v as int, other.v as int),
    {
        let p: i128 = (self.v as i128) * (FX_SCALE as i128);
        assert(p != i128::MIN) by (nonlinear_arith)
            requires p == (self.v as i128) * 1_000_000i128
                && i64::MIN <= self.v <= i64::MAX;
        Fixed { v: clamp_i128(tdiv_i128(p, other.v as i128)) }
    }

    /// Division by a positive integer count (used for arithmetic means).
    pub fn div_count(self, n: u64) -> (r: Fixed)
        requires
            n > 0,
        ensures
            r.v as int == fx_tdiv(self.v as int, n as int),
    {
        let q: i128 = tdiv_i128(self.v as i128, n as i128);
        assert(sp_abs(q as int) <= sp_abs(self.v as int));
        Fixed { v: q as i64 }
    }

    pub fn neg(self) -> (r: Fixed)
        ensures
            r.v as int == fx_clamp(-(self.v as int)),
    {
        Fixed { v: clamp_i128(-(self.v as i128)) }
    }

    pub fn max(self, other: Fixed) -> (r: Fixed)
        ensures
            r.v == if self.v >= other.v { self.v } else { other.v },
    {
        if self.v >= other.v {
            self
        } else {
            other
        }
    }

    pub fn min(self, other: Fixed) -> (r: Fixed)
        ensures
            r.v == if self.v <= other.v { self.v } else { other.v },
    {
        if self.v <= other.v {
            self
        } else {
            other
        }
    }

    pub fn lt(self, other: Fixed) -> (r: bool)
        ensures
            r == (self.v < other.v),
    {
        self.v < other.v
    }

    pub fn le(self, other: Fixed) -> (r: bool)
        ensures
            r == (self.v <= other.v),
    {
        self.v <= other.v
    }

    /// Absolute value (saturated, so `abs(i64::MIN)` is `i64::MAX`).
    pub fn abs(self) -> (r: Fixed)
        ensures
            r.v as int == fx_clamp(sp_abs(self.v as int)),
    {
        if self.v < 0 {
            self.neg()
        } else {
            self
        }
    }
}

fn isqrt_u128(n: u128) -> (r: u128)
    ensures
        is_isqrt(n as int, r as int),
{
    if n == 0 {
        return 0;
    }
    let mut lo: u128 = 0;
    let mut hi: u128 = 0x1_0000_0000_0000_0000;
    assert((hi * hi) > n as int) by (nonlinear_arith)
        requires hi == 0x1_0000_0000_0000_0000u128 && n <= u128::MAX;
    while lo + 1 < hi
        invariant
            lo < hi,
            hi <= 0x1_0000_0000_0000_0000u128,
            lo * lo <= n as int,
            hi * hi > n as int,
        decreases hi - lo,
    {
        let mid: u128 = lo + (hi - lo) / 2;
        assert(mid * mid < 0x1_0000_0000_0000_0000_0000_0000_0000_0000) by (nonlinear_arith)
            requires mid < 0x1_0000_0000_0000_0000u128;
        if mid * mid <= n {
            lo = mid;
        } else {
            hi = mid;
        }
    }
    lo
}

/// The square root of a non-negative fixed-point raw value: the raw
/// result is the integer square root of `x * FX_SCALE`.
pub fn fx_sqrt_raw(x: i64) -> (r: Fixed)
    requires
        x >= 0,
    ensures
        r.v >= 0,
        is_isqrt(x as int * FX_SCALE as int, r.v as int),
{
    proof {
        assert(x as int * 1_000_000 < 0x1_0000_0000_0000_0000_0000_0000_0000_0000)
            by (nonlinear_arith)
            requires 0 <= x <= 0x7FFF_FFFF_FFFF_FFFF;
    }
    let big: u128 = (x as u128) * (FX_SCALE as u128);
    let s: u128 = isqrt_u128(big);
    assert(s as int * s as int <= big as int);
    assert(s < 0x8000_0000_0000_0000u128) by (nonlinear_arith)
        requires s as int * s as int <= big as int
            && big == x as int * 1_000_000 && 0 <= x <= 0x7FFF_FFFF_FFFF_FFFF;
    Fixed { v: s as i64 }
}

/// The fixed-point square root of a bare (unscaled) non-negative count:
/// the result's raw value is the integer square root of `tau * FX_SCALE^2`.
pub fn fx_sqrt_count(tau: u64) -> (r: Fixed)
    ensures
        r.v >= 0,
        is_isqrt(tau as int * FX_SCALE as int * FX_SCALE as int, r.v as int),
{
    assert((tau as u128 as int) * 1_000_000 * 1_000_000 < 0x1_0000_0000_0000_0000_0000_0000_0000_0000)
        by (nonlinear_arith)
        requires tau <= 0xFFFF_FFFF_FFFF_FFFFu64;
    let big: u128 = (tau as u128) * (FX_SCALE as u128) * (FX_SCALE as u128);
    let s: u128 = isqrt_u128(big);
    assert(s as int * s as int <= big as int);
    assert(s < 0x8000_0000_0000_0000u128) by (nonlinear_arith)
        requires s as int * s as int <= big as int
            && big <= 0xFFFF_FFFF_FFFF_FFFFu128 as int * 1_000_000_000_000;
    Fixed { v: s as i64 }
}

/// Truncating division by a positive divisor preserves order on
/// non-negative numerators, before and after saturation.
pub proof fn lemma_tdiv_ordered(x: int, y: int, d: int)
    requires
        0 <= x <= y,
        d > 0,
    ensures
        0 <= fx_tdiv(x, d) <= fx_tdiv(y, d),
        0 <= fx_clamp(fx_tdiv(x, d)) <= fx_clamp(fx_tdiv(y, d)),
{
    vstd::arithmetic::div_mod::lemma_div_is_ordered(x, y, d);
    assert(x / d >= 0) by (nonlinear_arith)
        requires x >= 0 && d > 0;
}

/// Integer square roots are monotone.
pub proof fn lemma_isqrt_monotone(n1: int, r1: int, n2: int, r2: int)
    requires
        0 <= n1 <= n2,
        is_isqrt(n1, r1),
        is_isqrt(n2, r2),
    ensures
        r1 <= r2,
{
    if r1 > r2 {
        assert(r1 >= r2 + 1);
        assert(r1 * r1 >= (r2 + 1) * (r2 + 1)) by (nonlinear_arith)
            requires r1 >= r2 + 1 && r2 >= 0;
        assert(false);
    }
}

} // verus!
