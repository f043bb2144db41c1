//! The geometry of a region record: an outline and its holes, each a
//! `u32` count followed by that many vertices stored as pairs of doubles.

use vstd::prelude::*;

use crate::bytes::{le32, le64, lemma_le32_round_trip, lemma_le64_round_trip, push_u32, push_u64, read_u32, read_u64, u32_le, u64_le};
use crate::coord::{Coord, CoordPoint};
use crate::ieee754::{f64_bits_as_i32, f64_bits_to_i32, i32_as_f64_bits, i32_to_f64_bits, lemma_i32_f64_round_trip};
use crate::primitive_io::ReadError;

verus! {

/// The vertex whose two doubles start at `p`, each converted as Rust's
/// `as i32` does.
pub open spec fn vertex_at(b: Seq<u8>, p: int) -> CoordPoint {
    CoordPoint {
        x: Coord { raw: f64_bits_as_i32(u64_le(b, p) as u64) },
        y: Coord { raw: f64_bits_as_i32(u64_le(b, p + 8) as u64) },
    }
}

/// The `n` vertices stored from `p` on.
pub open spec fn vertices_at(b: Seq<u8>, p: int, n: nat) -> Seq<CoordPoint> {
    Seq::new(n, |i: int| vertex_at(b, p + 16 * i))
}

/// The holes read from `p` on, at most `count` of them: reading stops when
/// fewer than four bytes remain or a hole's vertices do not fit.
pub open spec fn holes_at(b: Seq<u8>, p: int, count: nat) -> Seq<Seq<CoordPoint>>
    decreases count,
{
    if count == 0 || p < 0 || b.len() - p < 4 {
        seq![]
    } else {
        let n = u32_le(b, p);
        if n * 16 > b.len() - (p + 4) {
            seq![]
        } else {
            seq![vertices_at(b, p + 4, n as nat)] + holes_at(b, p + 4 + 16 * n, (count - 1) as nat)
        }
    }
}

/// An outline and its holes.
#[derive(Debug, Clone, PartialEq)]
pub struct RegionGeometry {
    pub outline: Vec<CoordPoint>,
    pub holes: Vec<Vec<CoordPoint>>,
}

/// The holes as sequences.
pub open spec fn holes_view(h: Seq<Vec<CoordPoint>>) -> Seq<Seq<CoordPoint>> {
    Seq::new(h.len(), |i: int| h[i]@)
}

pub(crate) fn read_vertex_at(b: &[u8], p: usize) -> (v: CoordPoint)
    requires
        p + 16 <= b@.len(),
    ensures
        v == vertex_at(b@, p as int),
{
    assert(b@.len() == b.len());
    let x = read_u64(b, p).unwrap();
    let y = read_u64(b, p + 8).unwrap();
    CoordPoint { x: Coord { raw: f64_bits_to_i32(x) }, y: Coord { raw: f64_bits_to_i32(y) } }
}

/// The `n` vertices from `p` on; they must fit.
fn read_vertices(b: &[u8], p: usize, n: usize) -> (r: Vec<CoordPoint>)
    requires
        p + 16 * n <= b@.len(),
    ensures
        r@ == vertices_at(b@, p as int, n as nat),
{
    let mut r: Vec<CoordPoint> = Vec::new();
    let mut i: usize = 0;
    let mut q: usize = p;
    while i < n
        invariant
            i <= n,
            q == p + 16 * i,
            p + 16 * n <= b@.len(),
            r@ == vertices_at(b@, p as int, i as nat),
        decreases n - i,
    {
        assert(q + 16 <= b@.len()) by (nonlinear_arith)
            requires
                q == p + 16 * i,
                i < n,
                p + 16 * n <= b@.len(),
        ;
        assert(b@.len() == b.len());
        let v = read_vertex_at(b, q);
        let ghost before = r@;
        r.push(v);
        i += 1;
        q = q + 16;
        assert(r@ =~= vertices_at(b@, p as int, i as nat)) by {
            assert forall|j: int| 0 <= j < i implies r@[j] == vertex_at(b@, p + 16 * j) by {
                if j < i - 1 {
                    assert(r@[j] == before[j]);
                }
            }
        }
    }
    r
}

/// The geometry stored from `p` on: the outline must be complete, the
/// holes (at most `hole_count`, none when it is negative) are read while
/// they fit.
pub open spec fn spec_geometry_at(b: Seq<u8>, p: int, hole_count: i32) -> Option<(Seq<CoordPoint>, Seq<Seq<CoordPoint>>)> {
    if p + 4 > b.len() {
        None
    } else {
        let n = u32_le(b, p);
        if p + 4 + 16 * n > b.len() {
            None
        } else {
            Some(
                (
                    vertices_at(b, p + 4, n as nat),
                    holes_at(b, p + 4 + 16 * n, (if hole_count < 0 {
                        0
                    } else {
                        hole_count as int
                    }) as nat),
                ),
            )
        }
    }
}

/// Reads the outline and the holes stored from `p` on; an error when the
/// outline does not fit in `b`.
pub fn parse_region_geometry(b: &[u8], p: usize, hole_count: i32) -> (r: Result<RegionGeometry, ReadError>)
    ensures
        spec_geometry_at(b@, p as int, hole_count) is None ==> r is Err,
        spec_geometry_at(b@, p as int, hole_count) matches Some((o, h)) ==> (r matches Ok(g) && g.outline@ == o
            && holes_view(g.holes@) == h),
{
    let n = match read_u32(b, p) {
        Some(n) => n,
        None => return Err(ReadError::Truncated),
    };
    if (b.len() - p - 4) / 16 < n as usize {
        return Err(ReadError::Truncated);
    }
    let outline = read_vertices(b, p + 4, n as usize);
    let mut holes: Vec<Vec<CoordPoint>> = Vec::new();
    let mut pos: usize = p + 4 + 16 * (n as usize);
    let total: i32 = if hole_count < 0 {
        0
    } else {
        hole_count
    };
    let mut left: i32 = total;
    let ghost start = pos as int;
    while left > 0
        invariant_except_break
            0 <= left <= total,
            pos <= b@.len(),
            holes_view(holes@) + holes_at(b@, pos as int, left as nat) == holes_at(b@, start, total as nat),
        ensures
            holes_view(holes@) == holes_at(b@, start, total as nat),
        decreases left,
    {
        if b.len() - pos < 4 {
            assert(holes_at(b@, pos as int, left as nat) =~= seq![]);
            assert(holes_view(holes@) + seq![] =~= holes_view(holes@));
            break;
        }
        let k = read_u32(b, pos).unwrap();
        if (b.len() - pos - 4) / 16 < k as usize {
            assert(holes_at(b@, pos as int, left as nat) =~= seq![]);
            assert(holes_view(holes@) + seq![] =~= holes_view(holes@));
            break;
        }
        let hole = read_vertices(b, pos + 4, k as usize);
        let ghost before = holes_view(holes@);
        holes.push(hole);
        assert(holes_view(holes@) =~= before.push(vertices_at(b@, pos + 4, k as nat)));
        assert(holes_at(b@, pos as int, left as nat) == seq![vertices_at(b@, pos + 4, k as nat)] + holes_at(
            b@,
            pos + 4 + 16 * k,
            (left - 1) as nat,
        ));
        assert(before + holes_at(b@, pos as int, left as nat) =~= holes_view(holes@) + holes_at(
            b@,
            pos + 4 + 16 * k,
            (left - 1) as nat,
        ));
        pos = pos + 4 + 16 * (k as usize);
        left = left - 1;
    }
    Ok(RegionGeometry { outline, holes })
}


/// The bytes stored for one vertex: its coordinates as doubles.
pub open spec fn vertex_bytes(v: CoordPoint) -> Seq<u8> {
    le64(i32_as_f64_bits(v.x.raw) as int) + le64(i32_as_f64_bits(v.y.raw) as int)
}

/// The bytes stored for a run of vertices.
pub open spec fn points_bytes(vs: Seq<CoordPoint>) -> Seq<u8>
    decreases vs.len(),
{
    if vs.len() == 0 {
        seq![]
    } else {
        points_bytes(vs.drop_last()) + vertex_bytes(vs.last())
    }
}

/// The bytes stored for a vertex list: its count (as a `u32`, wrapping)
/// and its vertices.
pub open spec fn vertex_list_bytes(vs: Seq<CoordPoint>) -> Seq<u8> {
    le32(vs.len() as int % 0x1_0000_0000) + points_bytes(vs)
}

/// The bytes stored for a list of holes, one vertex list each.
pub open spec fn holes_bytes(hs: Seq<Seq<CoordPoint>>) -> Seq<u8>
    decreases hs.len(),
{
    if hs.len() == 0 {
        seq![]
    } else {
        vertex_list_bytes(hs[0]) + holes_bytes(hs.skip(1))
    }
}

/// The bytes stored for an outline and its holes.
pub open spec fn geometry_bytes(outline: Seq<CoordPoint>, holes: Seq<Seq<CoordPoint>>) -> Seq<u8> {
    vertex_list_bytes(outline) + holes_bytes(holes)
}

/// Appends a vertex list: its count, then each vertex as two doubles.
pub fn push_vertex_list(out: &mut Vec<u8>, vs: &[CoordPoint])
    ensures
        final(out)@ == old(out)@ + vertex_list_bytes(vs@),
{
    push_u32(out, (vs.len() as u64 % 0x1_0000_0000u64) as u32);
    let ghost head = out@;
    let mut i: usize = 0;
    while i < vs.len()
        invariant
            i <= vs@.len(),
            out@ == head + points_bytes(vs@.take(i as int)),
        decreases vs@.len() - i,
    {
        let v = vs[i];
        push_u64(out, i32_to_f64_bits(v.x.raw));
        push_u64(out, i32_to_f64_bits(v.y.raw));
        assert(vs@.take(i as int + 1).drop_last() =~= vs@.take(i as int));
        i += 1;
        assert(out@ =~= head + points_bytes(vs@.take(i as int)));
    }
    assert(vs@.take(vs@.len() as int) =~= vs@);
    assert(final(out)@ =~= old(out)@ + vertex_list_bytes(vs@));
}

proof fn lemma_holes_bytes_push(hs: Seq<Seq<CoordPoint>>, h: Seq<CoordPoint>)
    ensures
        holes_bytes(hs.push(h)) == holes_bytes(hs) + vertex_list_bytes(h),
    decreases hs.len(),
{
    if hs.len() == 0 {
        assert(hs.push(h).skip(1) =~= seq![]);
        assert(holes_bytes(hs.push(h)) =~= vertex_list_bytes(h) + holes_bytes(seq![]));
    } else {
        lemma_holes_bytes_push(hs.skip(1), h);
        assert(hs.push(h).skip(1) =~= hs.skip(1).push(h));
        assert(hs.push(h)[0] == hs[0]);
        assert(holes_bytes(hs.push(h)) =~= holes_bytes(hs) + vertex_list_bytes(h));
    }
}

/// Appends an outline and its holes.
pub fn push_region_geometry(out: &mut Vec<u8>, outline: &[CoordPoint], holes: &[Vec<CoordPoint>])
    ensures
        final(out)@ == old(out)@ + geometry_bytes(outline@, holes_view(holes@)),
{
    push_vertex_list(out, outline);
    let ghost head = out@;
    let mut i: usize = 0;
    while i < holes.len()
        invariant
            i <= holes@.len(),
            out@ == head + holes_bytes(holes_view(holes@).take(i as int)),
        decreases holes@.len() - i,
    {
        push_vertex_list(out, holes[i].as_slice());
        proof {
            lemma_holes_bytes_push(holes_view(holes@).take(i as int), holes@[i as int]@);
            assert(holes_view(holes@).take(i as int).push(holes@[i as int]@) =~= holes_view(holes@).take(i as int + 1));
        }
        i += 1;
        assert(out@ =~= head + holes_bytes(holes_view(holes@).take(i as int)));
    }
    assert(holes_view(holes@).take(holes@.len() as int) =~= holes_view(holes@));
    assert(final(out)@ =~= old(out)@ + geometry_bytes(outline@, holes_view(holes@)));
}

/// A vertex written and read back is the same vertex.
proof fn lemma_vertex_round_trip(b: Seq<u8>, p: int, v: CoordPoint)
    requires
        0 <= p,
        p + 16 <= b.len(),
        b.subrange(p, p + 16) == vertex_bytes(v),
    ensures
        vertex_at(b, p) == v,
{
    let xs = le64(i32_as_f64_bits(v.x.raw) as int);
    let ys = le64(i32_as_f64_bits(v.y.raw) as int);
    lemma_le64_round_trip(i32_as_f64_bits(v.x.raw) as int);
    lemma_le64_round_trip(i32_as_f64_bits(v.y.raw) as int);
    lemma_i32_f64_round_trip(v.x.raw);
    lemma_i32_f64_round_trip(v.y.raw);
    assert forall|k: int| 0 <= k < 8 implies b[p + k] == xs[k] && b[p + 8 + k] == ys[k] by {
        assert(b.subrange(p, p + 16)[k] == b[p + k]);
        assert(b.subrange(p, p + 16)[8 + k] == b[p + 8 + k]);
    }
    assert(u64_le(b, p) == u64_le(xs, 0));
    assert(u64_le(b, p + 8) == u64_le(ys, 0));
}

/// Where each vertex sits in the bytes of a run.
proof fn lemma_points_bytes(vs: Seq<CoordPoint>)
    ensures
        points_bytes(vs).len() == 16 * vs.len(),
        forall|i: int| 0 <= i < vs.len() ==> #[trigger] points_bytes(vs).subrange(16 * i, 16 * i + 16) == vertex_bytes(vs[i]),
    decreases vs.len(),
{
    if vs.len() > 0 {
        let init = vs.drop_last();
        lemma_points_bytes(init);
        let pb = points_bytes(vs);
        let vb = vertex_bytes(vs.last());
        lemma_le64_round_trip(i32_as_f64_bits(vs.last().x.raw) as int);
        lemma_le64_round_trip(i32_as_f64_bits(vs.last().y.raw) as int);
        assert(pb == points_bytes(init) + vb);
        assert forall|i: int| 0 <= i < vs.len() implies #[trigger] pb.subrange(16 * i, 16 * i + 16) == vertex_bytes(vs[i]) by {
            if i < vs.len() - 1 {
                assert(pb.subrange(16 * i, 16 * i + 16) =~= points_bytes(init).subrange(16 * i, 16 * i + 16));
                assert(init[i] == vs[i]);
            } else {
                assert(pb.subrange(16 * i, 16 * i + 16) =~= vb);
            }
        }
    }
}

/// A piece of `s` lies at the matching place of `b` when `s` lies at `p`.
proof fn lemma_slice_within(b: Seq<u8>, p: int, s: Seq<u8>, off: int, len: int)
    requires
        0 <= p,
        0 <= off,
        0 <= len,
        off + len <= s.len(),
        p + s.len() <= b.len(),
        b.subrange(p, p + s.len()) == s,
    ensures
        b.subrange(p + off, p + off + len) == s.subrange(off, off + len),
{
    assert forall|k: int| 0 <= k < len implies #[trigger] b.subrange(p + off, p + off + len)[k] == s.subrange(off, off + len)[k] by {
        assert(b.subrange(p, p + s.len())[off + k] == b[p + off + k]);
    }
    assert(b.subrange(p + off, p + off + len) =~= s.subrange(off, off + len));
}

/// A vertex list written at `p` reads back as the same vertices.
pub proof fn lemma_vertex_list_round_trip(b: Seq<u8>, p: int, vs: Seq<CoordPoint>)
    requires
        0 <= p,
        vs.len() < 0x1_0000_0000,
        p + vertex_list_bytes(vs).len() <= b.len(),
        b.subrange(p, p + vertex_list_bytes(vs).len()) == vertex_list_bytes(vs),
    ensures
        vertex_list_bytes(vs).len() == 4 + 16 * vs.len(),
        u32_le(b, p) == vs.len(),
        vertices_at(b, p + 4, vs.len()) == vs,
{
    lemma_points_bytes(vs);
    lemma_le32_round_trip(vs.len() as int);
    let lb = vertex_list_bytes(vs);
    let c = le32(vs.len() as int);
    assert(vs.len() as int % 0x1_0000_0000 == vs.len());
    assert forall|k: int| 0 <= k < 4 implies b[p + k] == c[k] by {
        assert(b.subrange(p, p + lb.len())[k] == b[p + k]);
    }
    assert(u32_le(b, p) == u32_le(c, 0));
    assert forall|i: int| 0 <= i < vs.len() implies vertex_at(b, p + 4 + 16 * i) == vs[i] by {
        let pb = points_bytes(vs);
        lemma_slice_within(b, p, lb, 4 + 16 * i, 16);
        assert(lb.subrange(4 + 16 * i, 4 + 16 * i + 16) =~= pb.subrange(16 * i, 16 * i + 16));
        lemma_vertex_round_trip(b, p + 4 + 16 * i, vs[i]);
    }
    assert(vertices_at(b, p + 4, vs.len()) =~= vs);
}

/// All vertex lists fit a `u32` count.
pub open spec fn lists_fit(hs: Seq<Seq<CoordPoint>>) -> bool {
    forall|i: int| 0 <= i < hs.len() ==> #[trigger] hs[i].len() < 0x1_0000_0000
}

proof fn lemma_holes_round_trip(b: Seq<u8>, p: int, hs: Seq<Seq<CoordPoint>>)
    requires
        0 <= p,
        lists_fit(hs),
        p + holes_bytes(hs).len() <= b.len(),
        b.subrange(p, p + holes_bytes(hs).len()) == holes_bytes(hs),
    ensures
        holes_at(b, p, hs.len()) == hs,
    decreases hs.len(),
{
    if hs.len() > 0 {
        let first = hs[0];
        let rest = hs.skip(1);
        let fb = vertex_list_bytes(first);
        let hb = holes_bytes(hs);
        assert(hb == fb + holes_bytes(rest));
        assert(b.subrange(p, p + fb.len()) =~= fb) by {
            assert forall|k: int| 0 <= k < fb.len() implies b.subrange(p, p + fb.len())[k] == fb[k] by {
                assert(b.subrange(p, p + hb.len())[k] == b[p + k]);
            }
        }
        lemma_vertex_list_round_trip(b, p, first);
        let q = p + 4 + 16 * first.len();
        assert(b.subrange(q, q + holes_bytes(rest).len()) =~= holes_bytes(rest)) by {
            assert forall|k: int| 0 <= k < holes_bytes(rest).len() implies b.subrange(q, q + holes_bytes(rest).len())[k]
                == holes_bytes(rest)[k] by {
                assert(b.subrange(p, p + hb.len())[fb.len() + k] == b[p + fb.len() + k]);
            }
        }
        assert(lists_fit(rest)) by {
            assert forall|i: int| 0 <= i < rest.len() implies #[trigger] rest[i].len() < 0x1_0000_0000 by {
                assert(rest[i] == hs[i + 1]);
            }
        }
        lemma_holes_round_trip(b, q, rest);
        assert(holes_at(b, p, hs.len()) =~= seq![first] + rest);
        assert(seq![first] + rest =~= hs);
    }
}

/// Writing an outline and its holes and reading them back, with as many
/// holes asked for as were written, gives the same outline and holes,
/// whatever bytes follow.
pub proof fn lemma_region_geometry_round_trip(outline: Seq<CoordPoint>, holes: Seq<Seq<CoordPoint>>, tail: Seq<u8>)
    requires
        outline.len() < 0x1_0000_0000,
        lists_fit(holes),
        holes.len() <= i32::MAX,
    ensures
        spec_geometry_at(geometry_bytes(outline, holes) + tail, 0, holes.len() as i32) == Some((outline, holes)),
{
    let b = geometry_bytes(outline, holes) + tail;
    let ob = vertex_list_bytes(outline);
    let hb = holes_bytes(holes);
    assert(b.subrange(0, ob.len() as int) =~= ob);
    lemma_vertex_list_round_trip(b, 0, outline);
    let q: int = 4 + 16 * outline.len() as int;
    assert(b.subrange(q, q + hb.len()) =~= hb);
    lemma_holes_round_trip(b, q, holes);
}

} // verus!
