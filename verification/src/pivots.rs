//! The kinds of swing point that an ABCD pattern is built from.
use vstd::prelude::*;

verus! {

/// Which extreme a pivot candle marks: a swing high or a swing low.
#[derive(Clone, Copy, Debug, PartialEq, Eq, Structural)]
pub enum PivotType {
    High,
    Low,
}

/// The ABCD pattern detector. It holds no state; the scans that use it
/// work on candles with floating-point prices and run outside the
/// verified library.
pub struct ABCD;

} // verus!
