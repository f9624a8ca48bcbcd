//! Monitor geometry as plain values.
//!
//! A monitor is read from the windowing framework once and copied into
//! `MonitorInfo`: origin and size in physical pixels, and the scale factor in
//! thousandths (so a factor of 2.0 is stored as 2000). Keeping the scale as an
//! integer lets every coordinate computation be exact and verified; the shell
//! that talks to the windowing framework converts its floating-point factor to
//! thousandths at the boundary.

use vstd::prelude::*;

verus! {

/// Geometry of one monitor: physical-pixel origin `(x, y)`, physical-pixel
/// size `(width, height)`, and scale factor in thousandths of a unit
/// (`scale_millis == 1500` means a factor of 1.5).
#[derive(Clone, Copy, Debug, PartialEq, Eq, Structural)]
pub struct MonitorInfo {
    pub x: i32,
    pub y: i32,
    pub width: u32,
    pub height: u32,
    pub scale_millis: u32,
}

impl MonitorInfo {
    /// A usable monitor reports a positive scale factor.
    pub open spec fn wf(self) -> bool {
        self.scale_millis >= 1
    }

    /// Two monitors share an origin exactly when both physical coordinates agree.
    pub open spec fn same_origin(self, other: MonitorInfo) -> bool {
        self.x == other.x && self.y == other.y
    }
}

/// Quotient `num / den` rounded to the nearest integer, ties away from zero.
/// This is how a physical coordinate becomes a logical one: divide by the
/// scale factor and round as the platform's floating-point rounding would.
pub open spec fn round_div(num: int, den: int) -> int
    recommends
        den >= 1,
{
    if num >= 0 {
        (2 * num + den) / (2 * den)
    } else {
        -((2 * -num + den) / (2 * den))
    }
}

/// A physical coordinate `p` in logical units under a scale factor of
/// `scale_millis` thousandths: `round(p * 1000 / scale)`.
pub open spec fn logical_coord(p: int, scale_millis: int) -> int
    recommends
        scale_millis >= 1,
{
    round_div(p * 1000, scale_millis)
}

/// Rounded division on machine integers, matching `round_div`.
fn round_div_i64(num: i64, den: i64) -> (r: i64)
    requires
        den >= 1,
        -0x2000_0000_0000_0000 < num < 0x2000_0000_0000_0000,
        den < 0x2000_0000_0000_0000,
    ensures
        r == round_div(num as int, den as int),
{
    if num >= 0 {
        (2 * num + den) / (2 * den)
    } else {
        let q: i64 = (2 * -num + den) / (2 * den);
        -q
    }
}

/// The logical coordinate corresponding to physical coordinate `p` under the
/// given scale factor, exactly as `logical_coord` states it.
pub fn to_logical(p: i32, scale_millis: u32) -> (r: i64)
    requires
        scale_millis >= 1,
    ensures
        r == logical_coord(p as int, scale_millis as int),
{
    round_div_i64((p as i64) * 1000, scale_millis as i64)
}

} // verus!
