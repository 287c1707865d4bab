//! Fixed-point geometry.
//!
//! Every length and coordinate handled by this crate is an integer number of
//! sub-pixel units; `UNITS_PER_PIXEL` of them make one document pixel. Working
//! in integers keeps comparisons exact: two half-way points are compared by
//! doubling both sides instead of dividing.

use vstd::prelude::*;

verus! {

/// Number of sub-pixel units in one document pixel.
pub const UNITS_PER_PIXEL: i64 = 64;

/// Largest magnitude a coordinate or an extent of a placement may have
/// (2^60 units), so that a measured width can always be added to it.
pub const COORD_LIMIT: i64 = 0x1000_0000_0000_0000;

/// `true` iff `v` lies within `[-COORD_LIMIT, COORD_LIMIT]`.
pub open spec fn coord_in_bounds(v: int) -> bool {
    -COORD_LIMIT <= v <= COORD_LIMIT
}

/// A rectangle in document space, in sub-pixel units.
#[derive(Clone, Copy, Debug, Default, PartialEq, Eq, Structural)]
pub struct Position {
    pub x: i64,
    pub y: i64,
    pub width: i64,
    pub height: i64,
}

impl Position {
    /// All four fields lie within the coordinate limit.
    pub open spec fn in_bounds(self) -> bool {
        &&& coord_in_bounds(self.x as int)
        &&& coord_in_bounds(self.y as int)
        &&& coord_in_bounds(self.width as int)
        &&& coord_in_bounds(self.height as int)
    }

    /// Executable form of [`Position::in_bounds`].
    pub fn is_in_bounds(&self) -> (r: bool)
        ensures
            r == self.in_bounds(),
    {
        -COORD_LIMIT <= self.x && self.x <= COORD_LIMIT && -COORD_LIMIT <= self.y && self.y
            <= COORD_LIMIT && -COORD_LIMIT <= self.width && self.width <= COORD_LIMIT
            && -COORD_LIMIT <= self.height && self.height <= COORD_LIMIT
    }
}

/// Twice the distance from `target` to the band `[start, start + extent)`.
///
/// The distance is zero when `target` falls inside the band; otherwise it is
/// measured to the band's centre `start + extent / 2`. Doubling keeps the
/// centre an integer.
pub open spec fn band_distance_doubled(target: int, start: int, extent: int) -> int {
    if start <= target < start + extent {
        0
    } else {
        let d = 2 * target - (2 * start + extent);
        if d < 0 {
            -d
        } else {
            d
        }
    }
}

/// Computes [`band_distance_doubled`].
pub fn band_distance(target: i64, start: i64, extent: i64) -> (d: i128)
    ensures
        d == band_distance_doubled(target as int, start as int, extent as int),
        d >= 0,
{
    let t: i128 = target as i128;
    let s: i128 = start as i128;
    let e: i128 = extent as i128;
    if t >= s && t < s + e {
        0
    } else {
        let d: i128 = 2 * t - (2 * s + e);
        if d < 0 {
            -d
        } else {
            d
        }
    }
}

} // verus!
