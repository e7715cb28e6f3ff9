//! Specified value types: property values as written in CSS, before unit
//! resolution.
//!
//! Numeric magnitudes are fixed-point integers scaled by
//! [`crate::computed::NUM_SCALE`]: the CSS value `1.5` is stored as
//! `1_500_000`.

use vstd::prelude::*;
use crate::computed::CSSPixelLength;

verus! {

/// ASCII letter codes used by the unit table.
pub const LC_C: u8 = 99;

pub const LC_I: u8 = 105;

pub const LC_M: u8 = 109;

pub const LC_N: u8 = 110;

pub const LC_P: u8 = 112;

pub const LC_Q: u8 = 113;

pub const LC_T: u8 = 116;

pub const LC_X: u8 = 120;


/// Represents an absolute length with its unit.
///
/// The payload is the magnitude as written in CSS, scaled by
/// [`crate::computed::NUM_SCALE`].
#[derive(Clone, Copy, Debug, PartialEq, Eq, Structural)]
pub enum AbsoluteLength {
    /// An absolute length in pixels (px)
    Px(i64),
    /// An absolute length in inches (in)
    In(i64),
    /// An absolute length in centimeters (cm)
    Cm(i64),
    /// An absolute length in millimeters (mm)
    Mm(i64),
    /// An absolute length in quarter-millimeters (q)
    Q(i64),
    /// An absolute length in points (pt)
    Pt(i64),
    /// An absolute length in pica (pc)
    Pc(i64),
}

/// The exact pixel value of an absolute length, in subunits of
/// [`crate::computed::PX_SUBUNITS`] per pixel.
///
/// Each factor is the unit's pixel ratio times 381, the subunits carried by
/// one scaled magnitude unit: 96 px/in gives 36576, 4800/127 px/cm gives
/// 14400, 480/127 px/mm gives 1440, 120/127 px/q gives 360, 4/3 px/pt gives
/// 508, 16 px/pc gives 6096, and 1 px/px gives 381.
pub open spec fn abs_length_px(l: AbsoluteLength) -> int {
    match l {
        AbsoluteLength::Px(m) => m * 381,
        AbsoluteLength::In(m) => m * 36576,
        AbsoluteLength::Cm(m) => m * 14400,
        AbsoluteLength::Mm(m) => m * 1440,
        AbsoluteLength::Q(m) => m * 360,
        AbsoluteLength::Pt(m) => m * 508,
        AbsoluteLength::Pc(m) => m * 6096,
    }
}

/// Unit conversion is exact for every magnitude `m`: an inch is exactly 96
/// pixels, a point exactly 96/72 of a pixel, a pica exactly 16 pixels, a
/// centimeter exactly 96/2.54 (9600/254) of a pixel, a millimeter exactly
/// 960/254 of a pixel, and a quarter-millimeter exactly 240/254 of a pixel —
/// each stated against the pixel value of `Px(m)`, with denominators cleared.
pub proof fn lemma_unit_conversion_exact(m: i64)
    ensures
        abs_length_px(AbsoluteLength::In(m)) == 96 * abs_length_px(AbsoluteLength::Px(m)),
        72 * abs_length_px(AbsoluteLength::Pt(m)) == 96 * abs_length_px(AbsoluteLength::Px(m)),
        abs_length_px(AbsoluteLength::Pc(m)) == 16 * abs_length_px(AbsoluteLength::Px(m)),
        254 * abs_length_px(AbsoluteLength::Cm(m)) == 9600 * abs_length_px(AbsoluteLength::Px(m)),
        254 * abs_length_px(AbsoluteLength::Mm(m)) == 960 * abs_length_px(AbsoluteLength::Px(m)),
        254 * abs_length_px(AbsoluteLength::Q(m)) == 240 * abs_length_px(AbsoluteLength::Px(m)),
{
    assert(abs_length_px(AbsoluteLength::In(m)) == 96 * abs_length_px(AbsoluteLength::Px(m)))
        by (nonlinear_arith);
    assert(72 * abs_length_px(AbsoluteLength::Pt(m)) == 96 * abs_length_px(AbsoluteLength::Px(m)))
        by (nonlinear_arith);
    assert(abs_length_px(AbsoluteLength::Pc(m)) == 16 * abs_length_px(AbsoluteLength::Px(m)))
        by (nonlinear_arith);
    assert(254 * abs_length_px(AbsoluteLength::Cm(m)) == 9600 * abs_length_px(
        AbsoluteLength::Px(m),
    )) by (nonlinear_arith);
    assert(254 * abs_length_px(AbsoluteLength::Mm(m)) == 960 * abs_length_px(
        AbsoluteLength::Px(m),
    )) by (nonlinear_arith);
    assert(254 * abs_length_px(AbsoluteLength::Q(m)) == 240 * abs_length_px(AbsoluteLength::Px(m)))
        by (nonlinear_arith);
}

impl AbsoluteLength {
    /// Convert to pixels by the fixed multiplicative unit table; exact for
    /// every magnitude.
    pub fn to_px(&self) -> (r: CSSPixelLength)
        ensures
            r@ == abs_length_px(*self),
    {
        match *self {
            AbsoluteLength::Px(m) => CSSPixelLength::new(m as i128 * 381),
            AbsoluteLength::In(m) => CSSPixelLength::new(m as i128 * 36576),
            AbsoluteLength::Cm(m) => CSSPixelLength::new(m as i128 * 14400),
            AbsoluteLength::Mm(m) => CSSPixelLength::new(m as i128 * 1440),
            AbsoluteLength::Q(m) => CSSPixelLength::new(m as i128 * 360),
            AbsoluteLength::Pt(m) => CSSPixelLength::new(m as i128 * 508),
            AbsoluteLength::Pc(m) => CSSPixelLength::new(m as i128 * 6096),
        }
    }

    /// Convert to the computed value: the exact pixel length.
    pub fn to_computed_value(&self, _context: &crate::computed::ComputeContext) -> (r:
        CSSPixelLength)
        ensures
            r@ == abs_length_px(*self),
    {
        self.to_px()
    }
}

/// A `<length>` without taking `calc` expressions into account.
#[derive(Clone, Copy, Debug, PartialEq, Eq, Structural)]
pub enum NoCalcLength {
    /// An absolute length.
    Absolute(AbsoluteLength),
}

/// The exact pixel value of a `NoCalcLength`, in subunits.
pub open spec fn no_calc_length_px(l: NoCalcLength) -> int {
    match l {
        NoCalcLength::Absolute(a) => abs_length_px(a),
    }
}

/// Lower-cases one ASCII byte.
pub open spec fn ascii_lower(b: u8) -> u8 {
    if 65 <= b <= 90 {
        (b + 32) as u8
    } else {
        b
    }
}

/// The unit table of [`NoCalcLength::parse_dimension`]: the length denoted by
/// a scaled magnitude and an ASCII-case-insensitive unit name, or `Err` for an
/// unknown unit.
pub open spec fn parse_dimension_spec(value: i64, unit: Seq<u8>) -> Result<NoCalcLength, ()> {
    if unit.len() == 1 && ascii_lower(unit[0]) == LC_Q {
        Ok(NoCalcLength::Absolute(AbsoluteLength::Q(value)))
    } else if unit.len() == 2 {
        let a = ascii_lower(unit[0]);
        let b = ascii_lower(unit[1]);
        if a == LC_P && b == LC_X {
            Ok(NoCalcLength::Absolute(AbsoluteLength::Px(value)))
        } else if a == LC_I && b == LC_N {
            Ok(NoCalcLength::Absolute(AbsoluteLength::In(value)))
        } else if a == LC_C && b == LC_M {
            Ok(NoCalcLength::Absolute(AbsoluteLength::Cm(value)))
        } else if a == LC_M && b == LC_M {
            Ok(NoCalcLength::Absolute(AbsoluteLength::Mm(value)))
        } else if a == LC_P && b == LC_T {
            Ok(NoCalcLength::Absolute(AbsoluteLength::Pt(value)))
        } else if a == LC_P && b == LC_C {
            Ok(NoCalcLength::Absolute(AbsoluteLength::Pc(value)))
        } else {
            Err(())
        }
    } else {
        Err(())
    }
}

/// Lower-cases one ASCII byte.
pub fn ascii_lower_byte(b: u8) -> (r: u8)
    ensures
        r == ascii_lower(b),
{
    if 65 <= b && b <= 90 {
        b + 32
    } else {
        b
    }
}

impl NoCalcLength {
    /// Parse a dimension: a scaled magnitude plus an ASCII-case-insensitive
    /// absolute-unit name (px, in, cm, mm, q, pt, pc).
    pub fn parse_dimension(value: i64, unit: &[u8]) -> (r: Result<Self, ()>)
        ensures
            r == parse_dimension_spec(value, unit@),
    {
        if unit.len() == 1 {
            if ascii_lower_byte(unit[0]) == LC_Q {
                Ok(NoCalcLength::Absolute(AbsoluteLength::Q(value)))
            } else {
                Err(())
            }
        } else if unit.len() == 2 {
            let a = ascii_lower_byte(unit[0]);
            let b = ascii_lower_byte(unit[1]);
            if a == LC_P && b == LC_X {
                Ok(NoCalcLength::Absolute(AbsoluteLength::Px(value)))
            } else if a == LC_I && b == LC_N {
                Ok(NoCalcLength::Absolute(AbsoluteLength::In(value)))
            } else if a == LC_C && b == LC_M {
                Ok(NoCalcLength::Absolute(AbsoluteLength::Cm(value)))
            } else if a == LC_M && b == LC_M {
                Ok(NoCalcLength::Absolute(AbsoluteLength::Mm(value)))
            } else if a == LC_P && b == LC_T {
                Ok(NoCalcLength::Absolute(AbsoluteLength::Pt(value)))
            } else if a == LC_P && b == LC_C {
                Ok(NoCalcLength::Absolute(AbsoluteLength::Pc(value)))
            } else {
                Err(())
            }
        } else {
            Err(())
        }
    }

    /// Convert to the computed value: the exact pixel length.
    pub fn to_computed_value(&self, context: &crate::computed::ComputeContext) -> (r:
        CSSPixelLength)
        ensures
            r@ == no_calc_length_px(*self),
    {
        match self {
            NoCalcLength::Absolute(abs_len) => abs_len.to_computed_value(context),
        }
    }
}

/// A specified `<length-percentage>` value. Only lengths are supported for
/// now; percentages would be a further variant.
#[derive(Clone, Copy, Debug, PartialEq, Eq, Structural)]
pub enum LengthPercentage {
    Length(NoCalcLength),
}

/// A specified `<length-percentage>` value or the `auto` keyword.
#[derive(Clone, Copy, Debug, PartialEq, Eq, Structural)]
pub enum LengthPercentageOrAuto {
    LengthPercentage(LengthPercentage),
    Auto,
}

/// The specified value of a `margin-bottom`.
#[derive(Clone, Copy, Debug, PartialEq, Eq, Structural)]
pub struct MarginBottom {
    pub lp_or_auto: LengthPercentageOrAuto,
}

/// The specified value of a `margin-left`.
#[derive(Clone, Copy, Debug, PartialEq, Eq, Structural)]
pub struct MarginLeft {
    pub lp_or_auto: LengthPercentageOrAuto,
}

/// The specified value of a `margin-right`.
#[derive(Clone, Copy, Debug, PartialEq, Eq, Structural)]
pub struct MarginRight {
    pub lp_or_auto: LengthPercentageOrAuto,
}

/// The specified value of a `margin-top`.
#[derive(Clone, Copy, Debug, PartialEq, Eq, Structural)]
pub struct MarginTop {
    pub lp_or_auto: LengthPercentageOrAuto,
}

} // verus!
