//! Fluent builders for pads, tracks, vias and arcs.

use vstd::prelude::*;

use crate::coord::{Coord, CoordPoint};
use crate::pad::{is_default_pad, Pad};
use crate::primitives::{is_default_arc, is_default_track, is_default_via, Arc, Track, Via};
use crate::text::owned;

verus! {

/// Fluent builder for [`Track`]. Defaults: top layer, 10 mil wide.
pub struct TrackBuilder {
    track: Track,
}

impl View for TrackBuilder {
    type V = Track;

    closed spec fn view(&self) -> Track {
        self.track
    }
}

/// The track a fresh builder holds: the default track on the top layer,
/// 10 mil wide.
pub open spec fn is_builder_default_track(t: Track) -> bool {
    is_default_track(Track { layer: 0, width: Coord { raw: 0 }, ..t }) && t.layer == 1 && t.width.raw
        == 100000
}

impl Default for TrackBuilder {
    fn default() -> (b: TrackBuilder)
        ensures
            is_builder_default_track(b@),
    {
        let mut track = Track::default();
        track.layer = 1;
        track.width = Coord::from_mils(10);
        TrackBuilder { track }
    }
}

impl TrackBuilder {
    pub fn new() -> (b: TrackBuilder)
        ensures
            is_builder_default_track(b@),
    {
        Self::default()
    }

    /// Sets the start point.
    pub fn from(self, x: Coord, y: Coord) -> (b: TrackBuilder)
        ensures
            b@ == (Track { start: CoordPoint { x, y }, ..self@ }),
    {
        let mut track = self.track;
        track.start = CoordPoint::new(x, y);
        TrackBuilder { track }
    }

    /// Sets the end point.
    pub fn to(self, x: Coord, y: Coord) -> (b: TrackBuilder)
        ensures
            b@ == (Track { end: CoordPoint { x, y }, ..self@ }),
    {
        let mut track = self.track;
        track.end = CoordPoint::new(x, y);
        TrackBuilder { track }
    }

    pub fn width(self, w: Coord) -> (b: TrackBuilder)
        ensures
            b@ == (Track { width: w, ..self@ }),
    {
        let mut track = self.track;
        track.width = w;
        TrackBuilder { track }
    }

    pub fn layer(self, layer: i32) -> (b: TrackBuilder)
        ensures
            b@ == (Track { layer, ..self@ }),
    {
        let mut track = self.track;
        track.layer = layer;
        TrackBuilder { track }
    }

    pub fn build(self) -> (t: Track)
        ensures
            t == self@,
    {
        self.track
    }
}

/// Fluent builder for [`Via`]. Defaults: a plated through-via from layer 1
/// to layer 32 on the multi-layer.
pub struct ViaBuilder {
    via: Via,
}

impl View for ViaBuilder {
    type V = Via;

    closed spec fn view(&self) -> Via {
        self.via
    }
}

impl Default for ViaBuilder {
    fn default() -> (b: ViaBuilder)
        ensures
            is_default_via(b@),
    {
        let mut via = Via::default();
        via.start_layer = 1;
        via.end_layer = 32;
        via.layer = 74;
        via.is_plated = true;
        ViaBuilder { via }
    }
}

impl ViaBuilder {
    pub fn new() -> (b: ViaBuilder)
        ensures
            is_default_via(b@),
    {
        Self::default()
    }

    pub fn at(self, x: Coord, y: Coord) -> (b: ViaBuilder)
        ensures
            b@ == (Via { location: CoordPoint { x, y }, ..self@ }),
    {
        let mut via = self.via;
        via.location = CoordPoint::new(x, y);
        ViaBuilder { via }
    }

    pub fn diameter(self, d: Coord) -> (b: ViaBuilder)
        ensures
            b@ == (Via { diameter: d, ..self@ }),
    {
        let mut via = self.via;
        via.diameter = d;
        ViaBuilder { via }
    }

    pub fn hole_size(self, h: Coord) -> (b: ViaBuilder)
        ensures
            b@ == (Via { hole_size: h, ..self@ }),
    {
        let mut via = self.via;
        via.hole_size = h;
        ViaBuilder { via }
    }

    /// Sets the first and last layer the via spans.
    pub fn layers(self, from: i32, to: i32) -> (b: ViaBuilder)
        ensures
            b@ == (Via { start_layer: from, end_layer: to, ..self@ }),
    {
        let mut via = self.via;
        via.start_layer = from;
        via.end_layer = to;
        ViaBuilder { via }
    }

    pub fn build(self) -> (v: Via)
        ensures
            v == self@,
    {
        self.via
    }
}

/// Fluent builder for [`Pad`]. Defaults: round, top layer, plated,
/// unrotated.
pub struct PadBuilder {
    pad: Pad,
}

impl View for PadBuilder {
    type V = Pad;

    closed spec fn view(&self) -> Pad {
        self.pad
    }
}

/// The pad a fresh builder holds: the default pad, on the top layer.
pub open spec fn is_builder_default_pad(p: Pad) -> bool {
    is_default_pad(Pad { layer: 0, ..p }) && p.layer == 1
}

impl Default for PadBuilder {
    fn default() -> (b: PadBuilder)
        ensures
            is_builder_default_pad(b@),
    {
        let mut pad = Pad::default();
        pad.shape_top = crate::pad::PAD_SHAPE_ROUND;
        pad.shape_middle = crate::pad::PAD_SHAPE_ROUND;
        pad.shape_bottom = crate::pad::PAD_SHAPE_ROUND;
        pad.layer = 1;
        pad.is_plated = true;
        PadBuilder { pad }
    }
}

impl PadBuilder {
    pub fn new() -> (b: PadBuilder)
        ensures
            is_builder_default_pad(b@),
    {
        Self::default()
    }

    pub fn at(self, x: Coord, y: Coord) -> (b: PadBuilder)
        ensures
            b@ == (Pad { location: CoordPoint { x, y }, ..self@ }),
    {
        let mut pad = self.pad;
        pad.location = CoordPoint::new(x, y);
        PadBuilder { pad }
    }

    /// Sets the size of the top, middle and bottom lands.
    pub fn size(self, w: Coord, h: Coord) -> (b: PadBuilder)
        ensures
            b@ == (Pad {
                size_top: CoordPoint { x: w, y: h },
                size_middle: CoordPoint { x: w, y: h },
                size_bottom: CoordPoint { x: w, y: h },
                ..self@
            }),
    {
        let mut pad = self.pad;
        let p = CoordPoint::new(w, h);
        pad.size_top = p;
        pad.size_middle = p;
        pad.size_bottom = p;
        PadBuilder { pad }
    }

    /// Sets the shape code of every layer.
    pub fn shape(self, shape: i32) -> (b: PadBuilder)
        ensures
            b@ == (Pad { shape_top: shape, shape_middle: shape, shape_bottom: shape, ..self@ }),
    {
        let mut pad = self.pad;
        pad.shape_top = shape;
        pad.shape_middle = shape;
        pad.shape_bottom = shape;
        PadBuilder { pad }
    }

    pub fn hole_size(self, hole: Coord) -> (b: PadBuilder)
        ensures
            b@ == (Pad { hole_size: hole, ..self@ }),
    {
        let mut pad = self.pad;
        pad.hole_size = hole;
        PadBuilder { pad }
    }

    /// Sets the rotation, given as the bit pattern of an IEEE-754 double
    /// (degrees).
    pub fn rotation(self, degrees_bits: u64) -> (b: PadBuilder)
        ensures
            b@ == (Pad { rotation_bits: degrees_bits, ..self@ }),
    {
        let mut pad = self.pad;
        pad.rotation_bits = degrees_bits;
        PadBuilder { pad }
    }

    pub fn designator(self, designator: &str) -> (b: PadBuilder)
        ensures
            b@.designator matches Some(d) && d@ == designator@,
            b@ == (Pad { designator: b@.designator, ..self@ }),
    {
        let mut pad = self.pad;
        pad.designator = Some(owned(designator));
        PadBuilder { pad }
    }

    pub fn layer(self, layer: i32) -> (b: PadBuilder)
        ensures
            b@ == (Pad { layer, ..self@ }),
    {
        let mut pad = self.pad;
        pad.layer = layer;
        PadBuilder { pad }
    }

    pub fn plated(self, plated: bool) -> (b: PadBuilder)
        ensures
            b@ == (Pad { is_plated: plated, ..self@ }),
    {
        let mut pad = self.pad;
        pad.is_plated = plated;
        PadBuilder { pad }
    }

    pub fn build(self) -> (p: Pad)
        ensures
            p == self@,
    {
        self.pad
    }
}

/// Bit pattern of the double 360, the end angle of a full circle.
pub const FULL_CIRCLE_BITS: u64 = 0x4076_8000_0000_0000;

/// Fluent builder for [`Arc`]. Defaults: a full circle on the top layer,
/// 10 mil wide.
pub struct ArcBuilder {
    arc: Arc,
}

impl View for ArcBuilder {
    type V = Arc;

    closed spec fn view(&self) -> Arc {
        self.arc
    }
}

/// The arc a fresh builder holds: the default arc on the top layer, 10 mil
/// wide, running from 0 to 360 degrees.
pub open spec fn is_builder_default_arc(a: Arc) -> bool {
    &&& is_default_arc(Arc { layer: 0, width: Coord { raw: 0 }, end_angle_bits: 0, ..a })
    &&& a.layer == 1 && a.width.raw == 100000
    &&& a.start_angle_bits == 0 && a.end_angle_bits == FULL_CIRCLE_BITS
}

impl Default for ArcBuilder {
    fn default() -> (b: ArcBuilder)
        ensures
            is_builder_default_arc(b@),
    {
        let mut arc = Arc::default();
        arc.layer = 1;
        arc.start_angle_bits = 0;
        arc.end_angle_bits = FULL_CIRCLE_BITS;
        arc.width = Coord::from_mils(10);
        ArcBuilder { arc }
    }
}

impl ArcBuilder {
    pub fn new() -> (b: ArcBuilder)
        ensures
            is_builder_default_arc(b@),
    {
        Self::default()
    }

    pub fn at(self, x: Coord, y: Coord) -> (b: ArcBuilder)
        ensures
            b@ == (Arc { center: CoordPoint { x, y }, ..self@ }),
    {
        let mut arc = self.arc;
        arc.center = CoordPoint::new(x, y);
        ArcBuilder { arc }
    }

    pub fn radius(self, r: Coord) -> (b: ArcBuilder)
        ensures
            b@ == (Arc { radius: r, ..self@ }),
    {
        let mut arc = self.arc;
        arc.radius = r;
        ArcBuilder { arc }
    }

    /// Sets both angles, given as bit patterns of IEEE-754 doubles (degrees).
    pub fn angles(self, start_bits: u64, end_bits: u64) -> (b: ArcBuilder)
        ensures
            b@ == (Arc { start_angle_bits: start_bits, end_angle_bits: end_bits, ..self@ }),
    {
        let mut arc = self.arc;
        arc.start_angle_bits = start_bits;
        arc.end_angle_bits = end_bits;
        ArcBuilder { arc }
    }

    pub fn width(self, w: Coord) -> (b: ArcBuilder)
        ensures
            b@ == (Arc { width: w, ..self@ }),
    {
        let mut arc = self.arc;
        arc.width = w;
        ArcBuilder { arc }
    }

    pub fn layer(self, layer: i32) -> (b: ArcBuilder)
        ensures
            b@ == (Arc { layer, ..self@ }),
    {
        let mut arc = self.arc;
        arc.layer = layer;
        ArcBuilder { arc }
    }

    pub fn build(self) -> (a: Arc)
        ensures
            a == self@,
    {
        self.arc
    }
}

} // verus!
