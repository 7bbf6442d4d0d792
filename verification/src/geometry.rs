//! Coordinates, envelopes, and the exact point-in-ring containment test.

use vstd::prelude::*;

verus! {

/// Largest magnitude a coordinate may have. With coordinates bounded by this
/// value, every cross product computed by the containment test fits in `i128`.
pub const COORD_LIMIT: i64 = 0x2000_0000_0000_0000;

/// A point in index space: x is the longitude-like axis, y the latitude-like
/// axis. Raw input values are used directly, without unit conversion.
#[derive(Clone, Copy, PartialEq, Eq, Structural, Debug)]
pub struct Coord {
    pub x: i64,
    pub y: i64,
}

pub open spec fn coord_ok(c: Coord) -> bool {
    &&& -COORD_LIMIT <= c.x <= COORD_LIMIT
    &&& -COORD_LIMIT <= c.y <= COORD_LIMIT
}

/// All coordinates of a ring are within the representable range.
pub open spec fn ring_ok(s: Seq<Coord>) -> bool {
    forall|i: int| 0 <= i < s.len() ==> coord_ok(s[i])
}

/// An axis-aligned bounding box with inclusive bounds.
#[derive(Clone, Copy, PartialEq, Eq, Structural, Debug)]
pub struct Envelope {
    pub min_x: i64,
    pub min_y: i64,
    pub max_x: i64,
    pub max_y: i64,
}

/// The point (px, py) lies within the envelope, bounds inclusive.
pub open spec fn env_contains(e: Envelope, px: int, py: int) -> bool {
    &&& e.min_x <= px <= e.max_x
    &&& e.min_y <= py <= e.max_y
}

/// Every vertex of the ring lies within the envelope.
pub open spec fn envelope_covers(e: Envelope, s: Seq<Coord>) -> bool {
    forall|i: int| 0 <= i < s.len() ==> env_contains(e, s[i].x as int, s[i].y as int)
}

/// Each of the four bounds is attained by some vertex of the ring.
pub open spec fn envelope_tight(e: Envelope, s: Seq<Coord>) -> bool {
    &&& exists|i: int| 0 <= i < s.len() && s[i].x == e.min_x
    &&& exists|i: int| 0 <= i < s.len() && s[i].x == e.max_x
    &&& exists|i: int| 0 <= i < s.len() && s[i].y == e.min_y
    &&& exists|i: int| 0 <= i < s.len() && s[i].y == e.max_y
}

/// `e` is the axis-aligned bounding box of the vertices of `s`.
pub open spec fn is_envelope_of(e: Envelope, s: Seq<Coord>) -> bool {
    &&& envelope_covers(e, s)
    &&& envelope_tight(e, s)
}

/// Computes the envelope of a ring; `None` exactly when the ring is empty.
pub fn envelope_of_ring(ring: &Vec<Coord>) -> (r: Option<Envelope>)
    ensures
        r is Some <==> ring@.len() > 0,
        r matches Some(e) ==> is_envelope_of(e, ring@),
{
    if ring.len() == 0 {
        return None;
    }
    let first = ring[0];
    let mut e = Envelope { min_x: first.x, min_y: first.y, max_x: first.x, max_y: first.y };
    let mut i: usize = 1;
    while i < ring.len()
        invariant
            1 <= i <= ring@.len(),
            forall|j: int| 0 <= j < i ==> env_contains(e, ring@[j].x as int, ring@[j].y as int),
            exists|j: int| 0 <= j < i && ring@[j].x == e.min_x,
            exists|j: int| 0 <= j < i && ring@[j].x == e.max_x,
            exists|j: int| 0 <= j < i && ring@[j].y == e.min_y,
            exists|j: int| 0 <= j < i && ring@[j].y == e.max_y,
        decreases ring@.len() - i,
    {
        let c = ring[i];
        if c.x < e.min_x {
            e.min_x = c.x;
        }
        if c.x > e.max_x {
            e.max_x = c.x;
        }
        if c.y < e.min_y {
            e.min_y = c.y;
        }
        if c.y > e.max_y {
            e.max_y = c.y;
        }
        i += 1;
    }
    Some(e)
}

/// Every vertex of a ring lies within the ring's computed envelope, bounds
/// inclusive.
pub proof fn lemma_envelope_sound(e: Envelope, s: Seq<Coord>)
    requires
        is_envelope_of(e, s),
    ensures
        forall|i: int| 0 <= i < s.len() ==> env_contains(e, s[i].x as int, s[i].y as int),
{
}

/// The edge from `a` to `b` straddles the horizontal line through `py`:
/// exactly one endpoint lies strictly above it.
pub open spec fn edge_straddles(a: Coord, b: Coord, py: int) -> bool {
    (a.y > py) != (b.y > py)
}

/// Twice the signed area of the triangle (a, b, p): positive when p lies to
/// the left of the directed edge a -> b.
pub open spec fn edge_cross(a: Coord, b: Coord, px: int, py: int) -> int {
    (b.x - a.x) * (py - a.y) - (px - a.x) * (b.y - a.y)
}

/// A rightward horizontal ray from (px, py) crosses the edge from `a` to `b`.
/// The strict comparisons give a half-open rule: each crossing of the ray with
/// the boundary is counted exactly once, so every point, boundary points
/// included, receives one deterministic classification.
pub open spec fn edge_crossing(a: Coord, b: Coord, px: int, py: int) -> bool {
    edge_straddles(a, b, py) && if b.y > a.y {
        edge_cross(a, b, px, py) > 0
    } else {
        edge_cross(a, b, px, py) < 0
    }
}

/// The successor of vertex `i` along the implicitly closed ring.
pub open spec fn ring_next(s: Seq<Coord>, i: int) -> Coord {
    if i + 1 == s.len() {
        s[0]
    } else {
        s[i + 1]
    }
}

/// Whether an odd number of the first `n` edges of the ring cross the
/// rightward ray from (px, py).
pub open spec fn odd_crossings_upto(s: Seq<Coord>, px: int, py: int, n: int) -> bool
    decreases n,
{
    if n <= 0 {
        false
    } else {
        odd_crossings_upto(s, px, py, n - 1) != edge_crossing(s[n - 1], ring_next(s, n - 1), px, py)
    }
}

/// Whether an odd number of the first `n` edges straddle the horizontal line
/// through `py`.
pub open spec fn odd_straddles_upto(s: Seq<Coord>, py: int, n: int) -> bool
    decreases n,
{
    if n <= 0 {
        false
    } else {
        odd_straddles_upto(s, py, n - 1) != edge_straddles(s[n - 1], ring_next(s, n - 1), py)
    }
}

/// Even-odd containment: the point (px, py) is inside the ring exactly when a
/// rightward ray from it crosses an odd number of ring edges. Boundary policy:
/// the half-open crossing rule classifies every boundary point
/// deterministically; for an axis-aligned rectangle, the left and bottom edges
/// count as inside and the right and top edges as outside.
pub open spec fn ring_contains(s: Seq<Coord>, px: int, py: int) -> bool {
    odd_crossings_upto(s, px, py, s.len() as int)
}

/// The point is inside the exterior ring and inside none of the holes: a point
/// inside a hole is not contained by the polygon.
pub open spec fn rings_contain(exterior: Seq<Coord>, holes: Seq<Seq<Coord>>, px: int, py: int) -> bool {
    &&& ring_contains(exterior, px, py)
    &&& forall|i: int| 0 <= i < holes.len() ==> !ring_contains(holes[i], px, py)
}

/// Evaluates `edge_crossing` on machine integers, with all products taken in
/// `i128` so that no intermediate value can overflow.
fn edge_crossing_at(a: Coord, b: Coord, px: i64, py: i64) -> (r: bool)
    requires
        coord_ok(a),
        coord_ok(b),
        -COORD_LIMIT <= px <= COORD_LIMIT,
        -COORD_LIMIT <= py <= COORD_LIMIT,
    ensures
        r == edge_crossing(a, b, px as int, py as int),
{
    if (a.y > py) != (b.y > py) {
        let d1: i128 = b.x as i128 - a.x as i128;
        let t1: i128 = py as i128 - a.y as i128;
        let d2: i128 = px as i128 - a.x as i128;
        let t2: i128 = b.y as i128 - a.y as i128;
        proof {
            assert(-0x1000_0000_0000_0000_0000_0000_0000_0000 <= d1 * t1
                <= 0x1000_0000_0000_0000_0000_0000_0000_0000 && -0x1000_0000_0000_0000_0000_0000_0000_0000
                <= d2 * t2 <= 0x1000_0000_0000_0000_0000_0000_0000_0000) by (nonlinear_arith)
                requires
                    -0x4000_0000_0000_0000 <= d1 <= 0x4000_0000_0000_0000,
                    -0x4000_0000_0000_0000 <= t1 <= 0x4000_0000_0000_0000,
                    -0x4000_0000_0000_0000 <= d2 <= 0x4000_0000_0000_0000,
                    -0x4000_0000_0000_0000 <= t2 <= 0x4000_0000_0000_0000,
            ;
        }
        let cross: i128 = d1 * t1 - d2 * t2;
        if b.y > a.y {
            cross > 0
        } else {
            cross < 0
        }
    } else {
        false
    }
}

proof fn lemma_no_crossings(s: Seq<Coord>, px: int, py: int, n: int)
    requires
        0 <= n <= s.len(),
        forall|i: int| 0 <= i < s.len() ==> !edge_crossing(s[i], ring_next(s, i), px, py),
    ensures
        !odd_crossings_upto(s, px, py, n),
    decreases n,
{
    if n > 0 {
        lemma_no_crossings(s, px, py, n - 1);
    }
}

proof fn lemma_crossings_eq_straddles(s: Seq<Coord>, px: int, py: int, n: int)
    requires
        0 <= n <= s.len(),
        forall|i: int| 0 <= i < s.len() ==> edge_crossing(s[i], ring_next(s, i), px, py)
            == edge_straddles(s[i], ring_next(s, i), py),
    ensures
        odd_crossings_upto(s, px, py, n) == odd_straddles_upto(s, py, n),
    decreases n,
{
    if n > 0 {
        lemma_crossings_eq_straddles(s, px, py, n - 1);
    }
}

/// Walking the first `n` edges, the straddle parity equals whether the first
/// vertex and the vertex the walk ends at lie on opposite sides of the line.
proof fn lemma_straddles_parity(s: Seq<Coord>, py: int, n: int)
    requires
        0 < s.len(),
        0 <= n <= s.len(),
    ensures
        odd_straddles_upto(s, py, n) == ((s[0].y > py) != ({
            let m: int = if n == s.len() {
                0
            } else {
                n
            };
            s[m].y > py
        })),
    decreases n,
{
    if n > 0 {
        lemma_straddles_parity(s, py, n - 1);
    }
}

/// No edge both of whose endpoints lie strictly left of the query point is
/// crossed by the rightward ray.
proof fn lemma_edge_east(a: Coord, b: Coord, px: int, py: int)
    requires
        (a.x as int) < px,
        (b.x as int) < px,
    ensures
        !edge_crossing(a, b, px, py),
{
    if edge_straddles(a, b, py) {
        if b.y > a.y {
            assert(a.y <= py < b.y);
            assert(edge_cross(a, b, px, py) < 0) by (nonlinear_arith)
                requires
                    (a.x as int) < px,
                    (b.x as int) < px,
                    a.y <= py < b.y,
            ;
        } else {
            assert(b.y <= py < a.y);
            assert(edge_cross(a, b, px, py) > 0) by (nonlinear_arith)
                requires
                    (a.x as int) < px,
                    (b.x as int) < px,
                    b.y <= py < a.y,
            ;
        }
    }
}

/// An edge both of whose endpoints lie strictly right of the query point is
/// crossed by the rightward ray exactly when it straddles the ray's line.
proof fn lemma_edge_west(a: Coord, b: Coord, px: int, py: int)
    requires
        px < a.x as int,
        px < b.x as int,
    ensures
        edge_crossing(a, b, px, py) == edge_straddles(a, b, py),
{
    if edge_straddles(a, b, py) {
        if b.y > a.y {
            assert(a.y <= py < b.y);
            assert(edge_cross(a, b, px, py) > 0) by (nonlinear_arith)
                requires
                    px < a.x as int,
                    px < b.x as int,
                    a.y <= py < b.y,
            ;
        } else {
            assert(b.y <= py < a.y);
            assert(edge_cross(a, b, px, py) < 0) by (nonlinear_arith)
                requires
                    px < a.x as int,
                    px < b.x as int,
                    b.y <= py < a.y,
            ;
        }
    }
}

/// A point contained by the even-odd rule lies within any envelope that
/// covers the ring's vertices. Hence the envelope pre-filter can never
/// discard a polygon that actually contains the query point.
pub proof fn lemma_ring_contains_in_envelope(e: Envelope, s: Seq<Coord>, px: int, py: int)
    requires
        envelope_covers(e, s),
        ring_contains(s, px, py),
    ensures
        env_contains(e, px, py),
{
    if s.len() == 0 {
        assert(!odd_crossings_upto(s, px, py, 0));
    }
    assert(s.len() > 0);
    if py > e.max_y || py < e.min_y {
        assert forall|i: int| 0 <= i < s.len() implies !edge_crossing(
            s[i],
            ring_next(s, i),
            px,
            py,
        ) by {
            assert(env_contains(e, s[i].x as int, s[i].y as int));
            let j: int = if i + 1 == s.len() {
                0
            } else {
                i + 1
            };
            assert(env_contains(e, s[j].x as int, s[j].y as int));
            assert(!edge_straddles(s[i], ring_next(s, i), py));
        }
        lemma_no_crossings(s, px, py, s.len() as int);
        assert(false);
    }
    if px > e.max_x {
        assert forall|i: int| 0 <= i < s.len() implies !edge_crossing(
            s[i],
            ring_next(s, i),
            px,
            py,
        ) by {
            assert(env_contains(e, s[i].x as int, s[i].y as int));
            let j: int = if i + 1 == s.len() {
                0
            } else {
                i + 1
            };
            assert(env_contains(e, s[j].x as int, s[j].y as int));
            lemma_edge_east(s[i], ring_next(s, i), px, py);
        }
        lemma_no_crossings(s, px, py, s.len() as int);
        assert(false);
    }
    if px < e.min_x {
        assert forall|i: int| 0 <= i < s.len() implies edge_crossing(s[i], ring_next(s, i), px, py)
            == edge_straddles(s[i], ring_next(s, i), py) by {
            assert(env_contains(e, s[i].x as int, s[i].y as int));
            let j: int = if i + 1 == s.len() {
                0
            } else {
                i + 1
            };
            assert(env_contains(e, s[j].x as int, s[j].y as int));
            lemma_edge_west(s[i], ring_next(s, i), px, py);
        }
        lemma_crossings_eq_straddles(s, px, py, s.len() as int);
        lemma_straddles_parity(s, py, s.len() as int);
        assert(false);
    }
}

/// Exact even-odd point-in-ring test; returns `ring_contains` of the ring.
pub fn ring_contains_at(ring: &Vec<Coord>, px: i64, py: i64) -> (r: bool)
    requires
        ring_ok(ring@),
        -COORD_LIMIT <= px <= COORD_LIMIT,
        -COORD_LIMIT <= py <= COORD_LIMIT,
    ensures
        r == ring_contains(ring@, px as int, py as int),
{
    let n = ring.len();
    let mut odd = false;
    let mut i: usize = 0;
    while i < n
        invariant
            0 <= i <= n,
            n == ring@.len(),
            ring_ok(ring@),
            -COORD_LIMIT <= px <= COORD_LIMIT,
            -COORD_LIMIT <= py <= COORD_LIMIT,
            odd == odd_crossings_upto(ring@, px as int, py as int, i as int),
        decreases n - i,
    {
        let a = ring[i];
        let b = if i + 1 == n {
            ring[0]
        } else {
            ring[i + 1]
        };
        if edge_crossing_at(a, b, px, py) {
            odd = !odd;
        }
        i += 1;
    }
    odd
}

} // verus!
