//! Computed value types: unit-resolved pixel lengths, percentages, and the
//! computation context.
//!
//! CSS numeric magnitudes are fixed-point integers scaled by [`NUM_SCALE`]
//! (one unit as written in CSS equals `NUM_SCALE`). A computed pixel length is
//! a fixed-point integer scaled by [`PX_SUBUNITS`] (one pixel equals
//! `PX_SUBUNITS` subunits). `PX_SUBUNITS` is `381 * NUM_SCALE`: 381 is the
//! smallest factor that makes every absolute-unit ratio of CSS (96 px/in,
//! 4800/127 px/cm, 480/127 px/mm, 120/127 px/q, 4/3 px/pt, 16 px/pc) an exact
//! integer count of subunits per scaled magnitude unit, so unit conversion is
//! exact for every magnitude.

use vstd::prelude::*;

verus! {

/// Fixed-point scale of CSS numeric magnitudes: the CSS value `1` is stored
/// as `NUM_SCALE`.
pub const NUM_SCALE: i64 = 1_000_000;

/// Fixed-point scale of computed pixel lengths: `1px` is stored as
/// `PX_SUBUNITS` subunits (`381 * NUM_SCALE`).
pub const PX_SUBUNITS: i128 = 381_000_000;

/// The computed `<length>` value: a pixel count in subunits of `1/PX_SUBUNITS`
/// of a pixel.
#[derive(Clone, Copy, Debug, PartialEq, Eq, Structural)]
pub struct CSSPixelLength(pub i128);

impl View for CSSPixelLength {
    type V = int;

    open spec fn view(&self) -> int {
        self.0 as int
    }
}

/// The zero-pixel length wrapped as a length-percentage-or-auto, the initial
/// value of every margin property.
pub open spec fn zero_px_length() -> LengthPercentageOrAuto {
    LengthPercentageOrAuto::LengthPercentage(LengthPercentage::Length(CSSPixelLength(0)))
}

impl CSSPixelLength {
    /// Return a new `CSSPixelLength` of `px` subunits.
    pub fn new(px: i128) -> (r: Self)
        ensures
            r@ == px as int,
    {
        CSSPixelLength(px)
    }

    /// Return the contained pixel value, in subunits.
    pub fn px(self) -> (r: i128)
        ensures
            r as int == self@,
    {
        self.0
    }

    /// Return the absolute value of this length.
    pub fn abs(self) -> (r: Self)
        requires
            self@ != i128::MIN,
        ensures
            r@ == if self@ >= 0 { self@ } else { -self@ },
    {
        if self.0 < 0 {
            CSSPixelLength(-self.0)
        } else {
            self
        }
    }

    /// Return the clamped-to-non-negative value of this length.
    pub fn clamp_to_non_negative(self) -> (r: Self)
        ensures
            r@ == if self@ >= 0 { self@ } else { 0 },
    {
        if self.0 < 0 {
            CSSPixelLength(0)
        } else {
            self
        }
    }

    /// Returns the minimum of `self` and `other`.
    pub fn min(self, other: Self) -> (r: Self)
        ensures
            r@ == if self@ <= other@ { self@ } else { other@ },
    {
        if self.0 <= other.0 {
            self
        } else {
            other
        }
    }

    /// Returns the maximum of `self` and `other`.
    pub fn max(self, other: Self) -> (r: Self)
        ensures
            r@ == if self@ >= other@ { self@ } else { other@ },
    {
        if self.0 >= other.0 {
            self
        } else {
            other
        }
    }

    /// Sets `self` to the maximum of `self` and `other`.
    pub fn max_assign(&mut self, other: Self)
        ensures
            final(self)@ == if old(self)@ >= other@ { old(self)@ } else { other@ },
    {
        let m = self.max(other);
        *self = m;
    }

    /// Return the length as a whole count of layout app units (1/60 of a
    /// pixel), rounding half away from zero. One app unit is 6_350_000
    /// subunits (`PX_SUBUNITS / 60`).
    pub fn to_i32_au(self) -> (r: i32)
        requires
            -2_000_000_000 * 6_350_000 <= self@ <= 2_000_000_000 * 6_350_000,
        ensures
            r as int == round_div(self@, 6_350_000),
    {
        let q = self.0 / 6_350_000;
        let rem = self.0 % 6_350_000;
        if rem >= 3_175_000 {
            (q + 1) as i32
        } else if rem <= -3_175_000 {
            (q - 1) as i32
        } else {
            q as i32
        }
    }
}

/// `n / d` rounded to the nearest integer, halves away from zero; `d` must be
/// positive and even.
pub open spec fn round_div(n: int, d: int) -> int {
    let t = if n >= 0 {
        n / d
    } else {
        -((-n) / d)
    };
    let rem = n - t * d;
    if rem >= d / 2 {
        t + 1
    } else if rem <= -(d / 2) {
        t - 1
    } else {
        t
    }
}

/// A computed percentage, as a fraction scaled by [`NUM_SCALE`]: `100%` is
/// stored as `NUM_SCALE`.
#[derive(Clone, Copy, Debug, PartialEq, Eq, Structural)]
pub struct Percentage(pub i64);

impl Percentage {
    /// 100%
    pub fn hundred() -> (r: Self)
        ensures
            r.0 == NUM_SCALE,
    {
        Percentage(NUM_SCALE)
    }

    /// Returns the absolute value of this percentage.
    pub fn abs(&self) -> (r: Self)
        requires
            self.0 != i64::MIN,
        ensures
            r.0 as int == if self.0 >= 0 { self.0 as int } else { -(self.0 as int) },
    {
        if self.0 < 0 {
            Percentage(-self.0)
        } else {
            *self
        }
    }

    /// Clamps this percentage to a non-negative percentage.
    pub fn clamp_to_non_negative(self) -> (r: Self)
        ensures
            r.0 == if self.0 >= 0 { self.0 as int } else { 0 },
    {
        if self.0 < 0 {
            Percentage(0)
        } else {
            self
        }
    }
}

/// A computed `<length>` value or a computed `<percentage>` value.
#[derive(Clone, Copy, Debug, PartialEq, Eq, Structural)]
pub enum LengthPercentage {
    Length(CSSPixelLength),
    Percentage(Percentage),
}

/// A computed `<length>` value, a computed `<percentage>` value, or the `auto`
/// keyword.
#[derive(Clone, Copy, Debug, PartialEq, Eq, Structural)]
pub enum LengthPercentageOrAuto {
    LengthPercentage(LengthPercentage),
    Auto,
}

/// Ambient state a property computation may consult. Absolute units need
/// nothing; the struct is the extension point for context-dependent units.
#[derive(Clone, Copy, Debug)]
pub struct ComputeContext {}

} // verus!
