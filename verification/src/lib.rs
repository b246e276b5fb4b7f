//! A signed 16.16 fixed-point numeric type with deterministic, bit-reproducible
//! arithmetic: wrapping, overflow-detecting and saturating policies for the four
//! basic operations, a restoring-division engine, a digit-extraction square root,
//! table-free quarter-wave trigonometry, and textual parsers.
//!
//! The rounding-mode configuration is resolved once, at build time, and this
//! build pins the default: every conversion and arithmetic routine rounds to
//! nearest with ties away from zero.  The truncating ("no-rounding") mode has
//! no build here, so `no_rounding` answers `false` and the truncating branches
//! it guards are never taken.

use vstd::prelude::*;

pub mod arith;
pub mod div;
pub mod fix16;
pub mod laws;
pub mod mul;
pub mod parse;
pub mod sqrt;
pub mod trig;

verus! {

/// The process-wide rounding-mode switch. `true` would select truncating
/// semantics everywhere; this build fixes the default: round to nearest,
/// ties away from zero.
pub fn no_rounding() -> (b: bool)
    ensures
        b == false,
{
    false
}

} // verus!
