//! Board coordinates: signed 32-bit counts of 1/10000 mil.

use vstd::prelude::*;

verus! {

/// A board coordinate in raw units (1/10000 mil).
#[derive(Debug, Clone, Copy, PartialEq, Eq, Default, Structural)]
pub struct Coord {
    pub raw: i32,
}

/// Raw units per mil.
pub const RAW_PER_MIL: i32 = 10000;

impl Coord {
    pub fn from_raw(raw: i32) -> (c: Coord)
        ensures
            c.raw == raw,
    {
        Coord { raw }
    }

    pub fn to_raw(self) -> (r: i32)
        ensures
            r == self.raw,
    {
        self.raw
    }

    /// A whole number of mils.
    pub fn from_mils(mils: i32) -> (c: Coord)
        requires
            -214748 <= mils <= 214748,
        ensures
            c.raw == mils * 10000,
    {
        Coord { raw: mils * 10000 }
    }

    pub fn zero() -> (c: Coord)
        ensures
            c.raw == 0,
    {
        Coord { raw: 0 }
    }
}

/// A point on the board.
#[derive(Debug, Clone, Copy, PartialEq, Eq, Default, Structural)]
pub struct CoordPoint {
    pub x: Coord,
    pub y: Coord,
}

impl CoordPoint {
    pub fn new(x: Coord, y: Coord) -> (p: CoordPoint)
        ensures
            p.x == x && p.y == y,
    {
        CoordPoint { x, y }
    }
}

/// An axis-aligned rectangle, corners in raw units held wide enough that no
/// bounding computation overflows.
#[derive(Debug, Clone, Copy, PartialEq, Eq, Default, Structural)]
pub struct CoordRect {
    pub x1: i64,
    pub y1: i64,
    pub x2: i64,
    pub y2: i64,
}

/// Half of `v`, rounded toward zero as integer division does.
pub open spec fn half_toward_zero(v: int) -> int {
    if v >= 0 {
        v / 2
    } else {
        -((-v) / 2)
    }
}

impl CoordRect {
    /// The rectangle with the given corners.
    pub fn from_xyxy(x1: i64, y1: i64, x2: i64, y2: i64) -> (r: CoordRect)
        ensures
            r == (CoordRect { x1, y1, x2, y2 }),
    {
        CoordRect { x1, y1, x2, y2 }
    }

    /// The rectangle of width `w` and height `h` centred on `c`; odd sizes
    /// lose their half unit on both sides.
    pub fn from_center(c: CoordPoint, w: Coord, h: Coord) -> (r: CoordRect)
        ensures
            r.x1 == c.x.raw - half_toward_zero(w.raw as int),
            r.x2 == c.x.raw + half_toward_zero(w.raw as int),
            r.y1 == c.y.raw - half_toward_zero(h.raw as int),
            r.y2 == c.y.raw + half_toward_zero(h.raw as int),
    {
        let hw: i64 = (w.raw / 2) as i64;
        let hh: i64 = (h.raw / 2) as i64;
        CoordRect {
            x1: c.x.raw as i64 - hw,
            y1: c.y.raw as i64 - hh,
            x2: c.x.raw as i64 + hw,
            y2: c.y.raw as i64 + hh,
        }
    }
}

} // verus!
