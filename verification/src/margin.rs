//! Computed values of the four margin properties, and the specified-to-
//! computed conversion for them.
//!
//! The conversion is pure and total over the specified domain: every
//! specified variant maps to exactly one computed variant, so computing the
//! same specified value under the same context twice yields identical
//! results.

use vstd::prelude::*;
use crate::computed;
use crate::computed::{ComputeContext, CSSPixelLength};
use crate::specified;
use crate::specified::no_calc_length_px;

verus! {

/// The computed value of a margin side: `auto` stays `auto`, a length is
/// resolved to exact pixels, a percentage would stay a percentage (its
/// resolution against a containing block is deferred to layout).
pub open spec fn computed_margin_size_spec(lp_auto: specified::LengthPercentageOrAuto)
    -> computed::LengthPercentageOrAuto {
    match lp_auto {
        specified::LengthPercentageOrAuto::Auto => computed::LengthPercentageOrAuto::Auto,
        specified::LengthPercentageOrAuto::LengthPercentage(lp) => match lp {
            specified::LengthPercentage::Length(ncl) => computed::LengthPercentageOrAuto::LengthPercentage(
                computed::LengthPercentage::Length(CSSPixelLength(no_calc_length_px(ncl) as i128)),
            ),
        },
    }
}

/// Resolve one margin side from its specified value.
pub fn computed_margin_size(lp_auto: &specified::LengthPercentageOrAuto) -> (r:
    computed::LengthPercentageOrAuto)
    ensures
        r == computed_margin_size_spec(*lp_auto),
{
    match lp_auto {
        specified::LengthPercentageOrAuto::Auto => computed::LengthPercentageOrAuto::Auto,
        specified::LengthPercentageOrAuto::LengthPercentage(lp) => match lp {
            specified::LengthPercentage::Length(ncl) => {
                let ctx = ComputeContext {};
                let px = ncl.to_computed_value(&ctx);
                computed::LengthPercentageOrAuto::LengthPercentage(
                    computed::LengthPercentage::Length(px),
                )
            },
        },
    }
}

/// Computing a margin is deterministic: any two results of resolving the same
/// specified value are identical, bit for bit.
pub proof fn lemma_margin_computation_deterministic(
    x: specified::LengthPercentageOrAuto,
    r1: computed::LengthPercentageOrAuto,
    r2: computed::LengthPercentageOrAuto,
)
    requires
        r1 == computed_margin_size_spec(x),
        r2 == computed_margin_size_spec(x),
    ensures
        r1 == r2,
{
}

/// Computed value of a `margin-bottom`.
#[derive(Clone, Copy, Debug, PartialEq, Eq, Structural)]
pub struct MarginBottom {
    pub size: computed::LengthPercentageOrAuto,
}

impl MarginBottom {
    /// The initial value: a zero-pixel length.
    pub fn initial_value() -> (r: MarginBottom)
        ensures
            r.size == computed::zero_px_length(),
    {
        MarginBottom { size: computed::LengthPercentageOrAuto::LengthPercentage(
            computed::LengthPercentage::Length(CSSPixelLength::new(0)),
        ) }
    }
}

impl specified::MarginBottom {
    /// Compute the final value from this specified value.
    pub fn compute_value_with_context(&self, _context: &ComputeContext) -> (r: MarginBottom)
        ensures
            r.size == computed_margin_size_spec(self.lp_or_auto),
    {
        MarginBottom { size: computed_margin_size(&self.lp_or_auto) }
    }

    /// The fallback when no `margin-bottom` is declared: the initial value.
    pub fn value_default(_context: &ComputeContext) -> (r: MarginBottom)
        ensures
            r.size == computed::zero_px_length(),
    {
        MarginBottom::initial_value()
    }
}

/// Computed value of a `margin-left`.
#[derive(Clone, Copy, Debug, PartialEq, Eq, Structural)]
pub struct MarginLeft {
    pub size: computed::LengthPercentageOrAuto,
}

impl MarginLeft {
    /// The initial value: a zero-pixel length.
    pub fn initial_value() -> (r: MarginLeft)
        ensures
            r.size == computed::zero_px_length(),
    {
        MarginLeft { size: computed::LengthPercentageOrAuto::LengthPercentage(
            computed::LengthPercentage::Length(CSSPixelLength::new(0)),
        ) }
    }
}

impl specified::MarginLeft {
    /// Compute the final value from this specified value.
    pub fn compute_value_with_context(&self, _context: &ComputeContext) -> (r: MarginLeft)
        ensures
            r.size == computed_margin_size_spec(self.lp_or_auto),
    {
        MarginLeft { size: computed_margin_size(&self.lp_or_auto) }
    }

    /// The fallback when no `margin-left` is declared: the initial value.
    pub fn value_default(_context: &ComputeContext) -> (r: MarginLeft)
        ensures
            r.size == computed::zero_px_length(),
    {
        MarginLeft::initial_value()
    }
}

/// Computed value of a `margin-right`.
#[derive(Clone, Copy, Debug, PartialEq, Eq, Structural)]
pub struct MarginRight {
    pub size: computed::LengthPercentageOrAuto,
}

impl MarginRight {
    /// The initial value: a zero-pixel length.
    pub fn initial_value() -> (r: MarginRight)
        ensures
            r.size == computed::zero_px_length(),
    {
        MarginRight { size: computed::LengthPercentageOrAuto::LengthPercentage(
            computed::LengthPercentage::Length(CSSPixelLength::new(0)),
        ) }
    }
}

impl specified::MarginRight {
    /// Compute the final value from this specified value.
    pub fn compute_value_with_context(&self, _context: &ComputeContext) -> (r: MarginRight)
        ensures
            r.size == computed_margin_size_spec(self.lp_or_auto),
    {
        MarginRight { size: computed_margin_size(&self.lp_or_auto) }
    }

    /// The fallback when no `margin-right` is declared: the initial value.
    pub fn value_default(_context: &ComputeContext) -> (r: MarginRight)
        ensures
            r.size == computed::zero_px_length(),
    {
        MarginRight::initial_value()
    }
}

/// Computed value of a `margin-top`.
#[derive(Clone, Copy, Debug, PartialEq, Eq, Structural)]
pub struct MarginTop {
    pub size: computed::LengthPercentageOrAuto,
}

impl MarginTop {
    /// The initial value: a zero-pixel length.
    pub fn initial_value() -> (r: MarginTop)
        ensures
            r.size == computed::zero_px_length(),
    {
        MarginTop { size: computed::LengthPercentageOrAuto::LengthPercentage(
            computed::LengthPercentage::Length(CSSPixelLength::new(0)),
        ) }
    }
}

impl specified::MarginTop {
    /// Compute the final value from this specified value.
    pub fn compute_value_with_context(&self, _context: &ComputeContext) -> (r: MarginTop)
        ensures
            r.size == computed_margin_size_spec(self.lp_or_auto),
    {
        MarginTop { size: computed_margin_size(&self.lp_or_auto) }
    }

    /// The fallback when no `margin-top` is declared: the initial value.
    pub fn value_default(_context: &ComputeContext) -> (r: MarginTop)
        ensures
            r.size == computed::zero_px_length(),
    {
        MarginTop::initial_value()
    }
}

} // verus!
