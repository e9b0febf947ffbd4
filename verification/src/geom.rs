//! Fixed-point lengths.
//!
//! All quantities are 64-bit integers counting 1/65536 of their unit, and all
//! arithmetic saturates at the ends of the 64-bit range: a result that would
//! leave the range is the nearest end of it. The spec functions of this module
//! state that arithmetic exactly; contracts elsewhere are written over them.

use vstd::prelude::*;

verus! {

/// How many raw steps make one whole unit.
pub const UNIT: i64 = 65536;

/// The nearest value to `x` within the 64-bit range.
pub open spec fn clamp(x: int) -> int {
    if x > i64::MAX {
        i64::MAX as int
    } else if x < i64::MIN {
        i64::MIN as int
    } else {
        x
    }
}

/// The quotient of `x` by `d`, rounded toward zero.
pub open spec fn trunc_div(x: int, d: int) -> int
    recommends
        d > 0,
{
    if x >= 0 {
        x / d
    } else {
        -((-x) / d)
    }
}

/// The quotient of `x` by a divisor of either sign, rounded toward zero.
pub open spec fn signed_div(x: int, d: int) -> int
    recommends
        d != 0,
{
    if d > 0 {
        trunc_div(x, d)
    } else {
        trunc_div(-x, -d)
    }
}

fn saturate(x: i128) -> (r: i64)
    ensures
        r == clamp(x as int),
{
    if x > i64::MAX as i128 {
        i64::MAX
    } else if x < i64::MIN as i128 {
        i64::MIN
    } else {
        x as i64
    }
}

/// `a * b / d` rounded toward zero and saturated, for `d` of either sign.
fn mul_div(a: i64, b: i64, d: i64) -> (r: i64)
    requires
        d != 0,
    ensures
        r == clamp(signed_div(a * b, d as int)),
{
    assert(-0x4000_0000_0000_0000_0000_0000_0000_0000 <= a * b
        <= 0x4000_0000_0000_0000_0000_0000_0000_0000) by (nonlinear_arith)
        requires
            -0x8000_0000_0000_0000 <= a <= 0x7fff_ffff_ffff_ffff,
            -0x8000_0000_0000_0000 <= b <= 0x7fff_ffff_ffff_ffff,
    ;
    let p: i128 = (a as i128) * (b as i128);
    let q: i128 = if d > 0 {
        p / (d as i128)
    } else {
        (-p) / (-(d as i128))
    };
    saturate(q)
}

/// An absolute length, in 1/65536 of a point.
#[derive(Clone, Copy, Debug, PartialEq, Eq, Structural)]
pub struct Length {
    pub raw: i64,
}

impl Length {
    pub open spec fn spec_plus(self, other: Length) -> Length {
        Length { raw: clamp(self.raw + other.raw) as i64 }
    }

    pub open spec fn spec_neg(self) -> Length {
        Length { raw: clamp(-self.raw) as i64 }
    }

    pub open spec fn spec_max(self, other: Length) -> Length {
        if self.raw >= other.raw {
            self
        } else {
            other
        }
    }

    /// The length of no extent.
    pub fn zero() -> (r: Length)
        ensures
            r.raw == 0,
    {
        Length { raw: 0 }
    }

    /// The length of `raw` steps of 1/65536 point.
    pub fn from_raw(raw: i64) -> (r: Length)
        ensures
            r.raw == raw,
    {
        Length { raw }
    }

    /// The length of `points` whole points.
    pub fn pt(points: i32) -> (r: Length)
        ensures
            r.raw == points * UNIT,
    {
        Length { raw: (points as i64) * UNIT }
    }

    /// Whether this is the length of no extent.
    pub fn is_zero(self) -> (r: bool)
        ensures
            r == (self.raw == 0),
    {
        self.raw == 0
    }

    /// The saturated sum of two lengths.
    pub fn plus(self, other: Length) -> (r: Length)
        ensures
            r == self.spec_plus(other),
    {
        Length { raw: saturate(self.raw as i128 + other.raw as i128) }
    }

    /// The saturated negation of a length.
    pub fn neg(self) -> (r: Length)
        ensures
            r == self.spec_neg(),
    {
        Length { raw: saturate(-(self.raw as i128)) }
    }

    /// The larger of two lengths.
    pub fn max(self, other: Length) -> (r: Length)
        ensures
            r == self.spec_max(other),
    {
        if self.raw >= other.raw {
            self
        } else {
            other
        }
    }
}

/// A factor, in 1/65536: a raw value of 65536 leaves what it scales unchanged.
#[derive(Clone, Copy, Debug, PartialEq, Eq, Structural)]
pub struct Ratio {
    pub raw: i64,
}

impl Ratio {
    /// The factor that changes nothing.
    pub fn one() -> (r: Ratio)
        ensures
            r.raw == UNIT,
    {
        Ratio { raw: UNIT }
    }

    /// The factor of `raw` steps of 1/65536.
    pub fn from_raw(raw: i64) -> (r: Ratio)
        ensures
            r.raw == raw,
    {
        Ratio { raw }
    }

    /// Whether this factor changes nothing.
    pub fn is_one(self) -> (r: bool)
        ensures
            r == (self.raw == UNIT),
    {
        self.raw == UNIT
    }
}

/// A length relative to the font size, in 1/65536 of an em.
#[derive(Clone, Copy, Debug, PartialEq, Eq, Structural)]
pub struct Em {
    pub raw: i64,
}

impl Em {
    pub open spec fn spec_from_units(units: int, units_per_em: int) -> Em {
        if units_per_em <= 0 {
            Em { raw: 0 }
        } else {
            Em { raw: trunc_div(units * UNIT, units_per_em) as i64 }
        }
    }

    pub open spec fn spec_from_length(length: Length, size: Length) -> Em {
        if size.raw == 0 {
            Em { raw: 0 }
        } else {
            Em { raw: clamp(signed_div(length.raw * UNIT, size.raw as int)) as i64 }
        }
    }

    pub open spec fn spec_resolve(self, size: Length) -> Length {
        Length { raw: clamp(trunc_div(self.raw * size.raw, UNIT as int)) as i64 }
    }

    pub open spec fn spec_plus(self, other: Em) -> Em {
        Em { raw: clamp(self.raw + other.raw) as i64 }
    }

    pub open spec fn spec_scale(self, factor: Ratio) -> Em {
        Em { raw: clamp(trunc_div(self.raw * factor.raw, UNIT as int)) as i64 }
    }

    /// The em length of no extent.
    pub fn zero() -> (r: Em)
        ensures
            r.raw == 0,
    {
        Em { raw: 0 }
    }

    /// The em length of `raw` steps of 1/65536 em.
    pub fn from_raw(raw: i64) -> (r: Em)
        ensures
            r.raw == raw,
    {
        Em { raw }
    }

    /// The em length of `units` font design units in a font of
    /// `units_per_em` design units to the em, rounded toward zero; zero in
    /// a font of zero units to the em.
    pub fn from_units(units: i32, units_per_em: u16) -> (r: Em)
        ensures
            r == Em::spec_from_units(units as int, units_per_em as int),
    {
        if units_per_em == 0 {
            return Em { raw: 0 };
        }
        let r = mul_div(units as i64, UNIT, units_per_em as i64);
        assert(-0x8000_0000_0000 <= trunc_div(units * UNIT, units_per_em as int) <= 0x8000_0000_0000)
            by (nonlinear_arith)
            requires
                -0x8000_0000 <= units <= 0x7fff_ffff,
                UNIT == 65536,
                units_per_em >= 1,
        ;
        Em { raw: r }
    }

    /// The em length that resolves to `length` at font size `size`; zero
    /// where the size is zero.
    pub fn from_length(length: Length, size: Length) -> (r: Em)
        ensures
            r == Em::spec_from_length(length, size),
    {
        if size.raw == 0 {
            Em { raw: 0 }
        } else {
            Em { raw: mul_div(length.raw, UNIT, size.raw) }
        }
    }

    /// Whether this is the em length of no extent.
    pub fn is_zero(self) -> (r: bool)
        ensures
            r == (self.raw == 0),
    {
        self.raw == 0
    }

    /// The absolute length of this em length at font size `size`.
    pub fn resolve(self, size: Length) -> (r: Length)
        ensures
            r == self.spec_resolve(size),
    {
        Length { raw: mul_div(self.raw, size.raw, UNIT) }
    }

    /// The saturated sum of two em lengths.
    pub fn plus(self, other: Em) -> (r: Em)
        ensures
            r == self.spec_plus(other),
    {
        Em { raw: saturate(self.raw as i128 + other.raw as i128) }
    }

    /// This em length scaled by `factor`.
    pub fn scale(self, factor: Ratio) -> (r: Em)
        ensures
            r == self.spec_scale(factor),
    {
        Em { raw: mul_div(self.raw, factor.raw, UNIT) }
    }
}

/// A width and a height.
#[derive(Clone, Copy, Debug, PartialEq, Eq, Structural)]
pub struct Size {
    pub x: Length,
    pub y: Length,
}

impl Size {
    /// The size of the given width and height.
    pub fn new(x: Length, y: Length) -> (r: Size)
        ensures
            r.x == x,
            r.y == y,
    {
        Size { x, y }
    }
}

/// A position: a distance from the left and from the top.
#[derive(Clone, Copy, Debug, PartialEq, Eq, Structural)]
pub struct Point {
    pub x: Length,
    pub y: Length,
}

impl Point {
    /// The position at the given distances.
    pub fn new(x: Length, y: Length) -> (r: Point)
        ensures
            r.x == x,
            r.y == y,
    {
        Point { x, y }
    }
}

} // verus!
