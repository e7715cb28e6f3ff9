//! Style-resolution core of a small browser engine.
//!
//! The crate turns CSS text into a structured rule set ([`stylesheet::Stylesheet`]),
//! resolves conflicting declarations for identical selectors (a simplified,
//! document-order cascade), and converts author-specified property values into
//! concrete, unit-resolved computed values for a layout stage.
//!
//! All numeric CSS values are fixed-point integers; see [`computed`] for the
//! scales and the exact per-unit pixel ratios.

pub mod apply;
pub mod computed;
pub mod dedup;
pub mod margin;
pub mod parse;
pub mod properties;
pub mod specified;
pub mod stylesheet;
