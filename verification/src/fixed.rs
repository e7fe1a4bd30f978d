//! Fixed-point scalar arithmetic.
//!
//! Every quantity of the simulation (coordinates, masses, forces, the opening
//! angle) is a `Scalar`: an `i64` count of millionths of a world unit.  All
//! operations are total: results are clamped symmetrically into
//! `[-MAX_RAW, MAX_RAW]`, so no operation panics and negation is always exact.
use vstd::prelude::*;

verus! {

/// Raw units per world unit (six decimal fractional digits).
pub const SCALE: i64 = 1_000_000;

/// Largest raw magnitude a scalar can hold; operations clamp here.
pub const MAX_RAW: i64 = 0x7fff_ffff_ffff_ffff;

/// Mathematical absolute value.
pub open spec fn iabs(x: int) -> int {
    if x < 0 {
        -x
    } else {
        x
    }
}

/// Symmetric saturation into the representable raw range.
pub open spec fn sat64(x: int) -> int {
    if x > MAX_RAW as int {
        MAX_RAW as int
    } else if x < -(MAX_RAW as int) {
        -(MAX_RAW as int)
    } else {
        x
    }
}

/// Quotient truncated toward zero; meaningful for `d > 0`.
pub open spec fn tdiv(n: int, d: int) -> int {
    if n >= 0 {
        n / d
    } else {
        -((-n) / d)
    }
}

/// Quotient rounded to the nearest integer, ties away from zero; for `d > 0`.
pub open spec fn rdiv(n: int, d: int) -> int {
    if n >= 0 {
        (n + d / 2) / d
    } else {
        -(((-n) + d / 2) / d)
    }
}

/// Rounding signed division computed over unsigned magnitudes, clamped into
/// the raw scalar range.
pub(crate) fn rdiv_sat_i64(n: i128, d: i128) -> (r: i64)
    requires
        0 < d <= 0x1_0000_0000_0000_0000,
        -0x7fff_ffff_ffff_ffff_ffff_ffff_ffff_ffff <= n,
    ensures
        r as int == sat64(rdiv(n as int, d as int)),
{
    let du: u128 = d as u128;
    if n >= 0 {
        let q: u128 = ((n as u128) + du / 2) / du;
        if q > MAX_RAW as u128 {
            MAX_RAW
        } else {
            q as i64
        }
    } else {
        let q: u128 = (((-n) as u128) + du / 2) / du;
        if q > MAX_RAW as u128 {
            -MAX_RAW
        } else {
            -(q as i64)
        }
    }
}

/// The product of two `i64`-range factors stays within `i128`.
pub proof fn lemma_mul_i64_fits(a: int, b: int)
    requires
        -0x8000_0000_0000_0000 <= a <= 0x7fff_ffff_ffff_ffff,
        -0x8000_0000_0000_0000 <= b <= 0x7fff_ffff_ffff_ffff,
    ensures
        -0x4000_0000_0000_0000_0000_0000_0000_0000 <= a * b
            <= 0x4000_0000_0000_0000_0000_0000_0000_0000,
{
    assert(-0x4000_0000_0000_0000_0000_0000_0000_0000 <= a * b
        <= 0x4000_0000_0000_0000_0000_0000_0000_0000) by (nonlinear_arith)
        requires
            -0x8000_0000_0000_0000 <= a <= 0x7fff_ffff_ffff_ffff,
            -0x8000_0000_0000_0000 <= b <= 0x7fff_ffff_ffff_ffff,
    ;
}

/// A fixed-point number: `raw` millionths of a world unit.
#[derive(Clone, Copy, PartialEq, Eq, Structural, Debug)]
pub struct Scalar {
    pub raw: i64,
}

/// Magnitude of an `i64` as a `u128` (total, also at `i64::MIN`).
pub(crate) fn abs_u128(x: i64) -> (m: u128)
    ensures
        m as int == iabs(x as int),
{
    if x >= 0 {
        x as u128
    } else {
        (-(x as i128)) as u128
    }
}

/// Clamp an `i128` into the raw scalar range.
pub(crate) fn sat_i64(x: i128) -> (r: i64)
    ensures
        r as int == sat64(x as int),
{
    if x > MAX_RAW as i128 {
        MAX_RAW
    } else if x < -(MAX_RAW as i128) {
        -MAX_RAW
    } else {
        x as i64
    }
}

/// Truncating signed division computed over unsigned magnitudes.
pub(crate) fn tdiv_i128(n: i128, d: i128) -> (r: i128)
    requires
        d > 0,
        -0x7fff_ffff_ffff_ffff_ffff_ffff_ffff_ffff <= n,
    ensures
        r as int == tdiv(n as int, d as int),
{
    if n >= 0 {
        let q: u128 = (n as u128) / (d as u128);
        q as i128
    } else {
        let q: u128 = ((-n) as u128) / (d as u128);
        -(q as i128)
    }
}

impl Scalar {
    /// The value as a count of raw units (millionths of a world unit).
    pub open spec fn v(self) -> int {
        self.raw as int
    }

    /// The scalar holding exactly `raw` millionths.
    pub fn from_raw(raw: i64) -> (r: Scalar)
        ensures
            r.v() == raw as int,
    {
        Scalar { raw }
    }

    /// The scalar for a whole number of world units.
    pub fn from_int(units: i64) -> (r: Scalar)
        requires
            -9_000_000_000_000 <= units <= 9_000_000_000_000,
        ensures
            r.v() == units * SCALE,
    {
        Scalar { raw: units * SCALE }
    }

    /// The zero scalar.
    pub fn zero() -> (r: Scalar)
        ensures
            r.v() == 0,
    {
        Scalar { raw: 0 }
    }

    /// Saturating addition.
    pub fn add(self, other: Scalar) -> (r: Scalar)
        ensures
            r.v() == sat64(self.v() + other.v()),
    {
        Scalar { raw: sat_i64(self.raw as i128 + other.raw as i128) }
    }

    /// Saturating subtraction.
    pub fn sub(self, other: Scalar) -> (r: Scalar)
        ensures
            r.v() == sat64(self.v() - other.v()),
    {
        Scalar { raw: sat_i64(self.raw as i128 - other.raw as i128) }
    }

    /// Fixed-point multiplication, truncated toward zero, then clamped.
    pub fn mul(self, other: Scalar) -> (r: Scalar)
        ensures
            r.v() == sat64(tdiv(self.v() * other.v(), SCALE as int)),
    {
        proof {
            lemma_mul_i64_fits(self.raw as int, other.raw as int);
        }
        let p: i128 = (self.raw as i128) * (other.raw as i128);
        Scalar { raw: sat_i64(tdiv_i128(p, SCALE as i128)) }
    }

    /// Fixed-point division by a positive scalar, truncated toward zero.
    pub fn div(self, other: Scalar) -> (r: Scalar)
        requires
            other.v() > 0,
        ensures
            r.v() == sat64(tdiv(self.v() * SCALE, other.v())),
    {
        proof {
            lemma_mul_i64_fits(self.raw as int, SCALE as int);
        }
        let n: i128 = (self.raw as i128) * (SCALE as i128);
        Scalar { raw: sat_i64(tdiv_i128(n, other.raw as i128)) }
    }

    /// Half of the value, truncated toward zero.
    pub fn half(self) -> (r: Scalar)
        ensures
            r.v() == tdiv(self.v(), 2),
    {
        let h: i128 = tdiv_i128(self.raw as i128, 2);
        Scalar { raw: h as i64 }
    }

    /// Whether this value is at most `other`.
    pub fn le(self, other: Scalar) -> (r: bool)
        ensures
            r == (self.v() <= other.v()),
    {
        self.raw <= other.raw
    }
}

} // verus!
