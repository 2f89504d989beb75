//! Length units in fixed point.
//!
//! All lengths are carried in thousandths of a device-independent pixel (or of
//! a percent, or of a stretch factor), so that the style engine stays in
//! integer arithmetic.  A percentage stays unresolved in the store; it is
//! resolved against a reference length only on demand, by [`Units::value_or`].

use vstd::prelude::*;

verus! {

/// One unit, in thousandths.
pub const UNIT_SCALE: i64 = 1000;

/// Largest magnitude a pixel or stretch value may carry, in thousandths.
pub const UNIT_MAX: i64 = 1000000000000;

/// Largest magnitude a percentage may carry, in thousandths of a percent.
pub const PCT_MAX: i64 = 100000000;

/// A length: fixed pixels, a percentage of some reference length, a stretch
/// factor, or automatic.
#[derive(Debug, Clone, Copy, PartialEq, Eq, Structural)]
pub enum Units {
    /// Pixels, in thousandths.
    Pixels(i64),
    /// Percentage of a reference length, in thousandths of a percent.
    Percentage(i64),
    /// Stretch factor, in thousandths.
    Stretch(i64),
    /// Decided by the layout pass.
    Auto,
}

impl Units {
    /// Magnitudes are bounded so that resolving a percentage against a
    /// bounded reference length cannot overflow.
    pub open spec fn wf(self) -> bool {
        match self {
            Units::Pixels(v) => -UNIT_MAX <= v <= UNIT_MAX,
            Units::Percentage(p) => -PCT_MAX <= p <= PCT_MAX,
            Units::Stretch(v) => -UNIT_MAX <= v <= UNIT_MAX,
            Units::Auto => true,
        }
    }

    /// A nonnegative percentage scaled against a nonnegative reference
    /// length: `reference * p` percent, truncated.
    pub open spec fn spec_scale_percent(reference: int, p: int) -> int {
        (reference * p) / (100 * UNIT_SCALE)
    }

    /// What this length resolves to in thousandths of a pixel: pixels resolve
    /// to themselves, percentages against `reference`, anything else to
    /// `default`.
    pub open spec fn spec_value_or(self, reference: int, default: int) -> int {
        match self {
            Units::Pixels(v) => v as int,
            Units::Percentage(p) => if p >= 0 {
                Units::spec_scale_percent(reference, p as int)
            } else {
                -Units::spec_scale_percent(reference, -p as int)
            },
            _ => default,
        }
    }

    /// Resolves this length against a reference length (both in thousandths).
    /// A pixel value resolves to itself regardless of the reference.
    pub fn value_or(&self, reference: i64, default: i64) -> (r: i64)
        requires
            self.wf(),
            0 <= reference <= UNIT_MAX,
        ensures
            r == self.spec_value_or(reference as int, default as int),
    {
        match self {
            Units::Pixels(v) => *v,
            Units::Percentage(p) => {
                proof {
                    assert(-PCT_MAX <= *p <= PCT_MAX);
                }
                let (neg, pm) = if *p < 0 {
                    (true, -*p)
                } else {
                    (false, *p)
                };
                proof {
                    assert(0 <= (reference as int) * (pm as int) <= (UNIT_MAX as int) * (
                    PCT_MAX as int)) by (nonlinear_arith)
                        requires
                            0 <= reference as int <= UNIT_MAX as int,
                            0 <= pm as int <= PCT_MAX as int,
                    ;
                }
                let wide: i128 = (reference as i128) * (pm as i128);
                let q: i128 = wide / (100 * UNIT_SCALE as i128);
                proof {
                    assert(0 <= q as int <= (UNIT_MAX as int) * (PCT_MAX as int) / (100 * (
                    UNIT_SCALE as int))) by (nonlinear_arith)
                        requires
                            0 <= wide as int <= (UNIT_MAX as int) * (PCT_MAX as int),
                            q as int == (wide as int) / (100 * (UNIT_SCALE as int)),
                    ;
                }
                if neg {
                    -(q as i64)
                } else {
                    q as i64
                }
            },
            Units::Stretch(_) => default,
            Units::Auto => default,
        }
    }

    /// Is this a pixel length?
    pub fn is_pixels(&self) -> (r: bool)
        ensures
            r == (self is Pixels),
    {
        match self {
            Units::Pixels(_) => true,
            _ => false,
        }
    }
}

} // verus!
