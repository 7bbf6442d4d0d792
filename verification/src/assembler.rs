//! Assembling tagged boundary rings into indexed polygons.

use vstd::prelude::*;
use crate::attributes::AttrRecord;
use crate::geometry::{
    Coord, Envelope, ring_ok, is_envelope_of, envelope_of_ring, ring_contains, rings_contain,
    ring_contains_at, COORD_LIMIT,
};

verus! {

/// A polygon: one exterior ring and zero or more holes. The holes are always
/// holes of this polygon's own exterior ring.
#[derive(Debug)]
pub struct Polygon {
    pub exterior: Vec<Coord>,
    pub holes: Vec<Vec<Coord>>,
}

/// The views of a sequence of rings.
pub open spec fn holes_view(hs: Seq<Vec<Coord>>) -> Seq<Seq<Coord>> {
    hs.map_values(|h: Vec<Coord>| h@)
}

impl Polygon {
    /// All coordinates of all rings are within the representable range.
    pub open spec fn rings_ok(self) -> bool {
        &&& ring_ok(self.exterior@)
        &&& forall|i: int| 0 <= i < self.holes@.len() ==> ring_ok(self.holes@[i]@)
    }

    /// Exact containment of a point, respecting holes.
    pub open spec fn spec_contains(self, px: int, py: int) -> bool {
        rings_contain(self.exterior@, holes_view(self.holes@), px, py)
    }
}

/// Exact point-in-polygon test: inside the exterior ring and inside no hole.
pub fn polygon_contains_at(poly: &Polygon, px: i64, py: i64) -> (r: bool)
    requires
        poly.rings_ok(),
        -COORD_LIMIT <= px <= COORD_LIMIT,
        -COORD_LIMIT <= py <= COORD_LIMIT,
    ensures
        r == poly.spec_contains(px as int, py as int),
{
    if !ring_contains_at(&poly.exterior, px, py) {
        return false;
    }
    let n = poly.holes.len();
    let mut i: usize = 0;
    while i < n
        invariant
            0 <= i <= n,
            n == poly.holes@.len(),
            poly.rings_ok(),
            -COORD_LIMIT <= px <= COORD_LIMIT,
            -COORD_LIMIT <= py <= COORD_LIMIT,
            forall|j: int| 0 <= j < i ==> !ring_contains(holes_view(poly.holes@)[j], px as int, py as int),
        decreases n - i,
    {
        if ring_contains_at(&poly.holes[i], px, py) {
            proof {
                assert(holes_view(poly.holes@)[i as int] == poly.holes@[i as int]@);
            }
            return false;
        }
        i += 1;
    }
    true
}

/// A point inside one of a polygon's holes, by the even-odd rule, is not
/// contained by the polygon — even when it is inside the polygon's exterior
/// ring.
pub proof fn lemma_hole_excludes(poly: Polygon, j: int, px: int, py: int)
    requires
        0 <= j < poly.holes@.len(),
        ring_contains(poly.holes@[j]@, px, py),
    ensures
        !poly.spec_contains(px, py),
{
    assert(holes_view(poly.holes@)[j] == poly.holes@[j]@);
}

/// Construction failure of the build phase: a polygon whose exterior ring is
/// empty has no envelope and is rejected.
#[derive(Clone, Copy, PartialEq, Eq, Structural, Debug)]
pub enum GeomError {
    EmptyExterior,
}

/// One polygon paired with its attribute record and its precomputed envelope.
/// The envelope is derived from the exterior ring alone, at construction.
#[derive(Debug)]
pub struct IndexedPolygon {
    pub polygon: Polygon,
    pub properties: AttrRecord,
    pub envelope: Envelope,
}

impl IndexedPolygon {
    /// Well-formedness: a nonempty exterior ring, coordinates in range, and an
    /// envelope that is exactly the bounding box of the exterior ring.
    pub open spec fn wf(self) -> bool {
        &&& self.polygon.exterior@.len() > 0
        &&& self.polygon.rings_ok()
        &&& is_envelope_of(self.envelope, self.polygon.exterior@)
    }

    /// Wraps a polygon with its attributes, computing the envelope as part of
    /// construction; fails exactly when the exterior ring is empty.
    pub fn new(polygon: Polygon, properties: AttrRecord) -> (r: Result<IndexedPolygon, GeomError>)
        requires
            polygon.rings_ok(),
        ensures
            r is Ok <==> polygon.exterior@.len() > 0,
            r matches Ok(ip) ==> ip.wf() && ip.polygon == polygon && ip.properties == properties,
            r matches Err(e) ==> e == GeomError::EmptyExterior,
    {
        match envelope_of_ring(&polygon.exterior) {
            Some(e) => Ok(IndexedPolygon { polygon, properties, envelope: e }),
            None => Err(GeomError::EmptyExterior),
        }
    }
}

/// A raw boundary ring: an outer ring starts a new polygon, an inner ring is
/// a hole of the polygon in progress.
#[derive(Debug)]
pub enum TaggedRing {
    Outer { coords: Vec<Coord> },
    Inner { coords: Vec<Coord> },
}

impl TaggedRing {
    pub open spec fn coords_view(self) -> Seq<Coord> {
        match self {
            TaggedRing::Outer { coords } => coords@,
            TaggedRing::Inner { coords } => coords@,
        }
    }
}

pub open spec fn rings_all_ok(rings: Seq<TaggedRing>) -> bool {
    forall|i: int| 0 <= i < rings.len() ==> ring_ok(rings[i].coords_view())
}

/// No outer ring is empty: the condition under which assembly succeeds.
pub open spec fn outers_nonempty(rings: Seq<TaggedRing>) -> bool {
    forall|i: int| 0 <= i < rings.len() ==> (rings[i] is Outer ==> rings[i].coords_view().len() > 0)
}

/// The model of one assembled polygon: its exterior ring and its holes.
pub open spec fn finish_current(
    cur: Option<(Seq<Coord>, Seq<Seq<Coord>>)>,
    acc: Seq<(Seq<Coord>, Seq<Seq<Coord>>)>,
) -> Seq<(Seq<Coord>, Seq<Seq<Coord>>)> {
    match cur {
        None => acc,
        Some(p) => acc.push(p),
    }
}

/// Folds the remaining rings over the assembler state: `cur` is the polygon
/// in progress, `acc` the polygons already emitted.
pub open spec fn assemble_from(
    rings: Seq<TaggedRing>,
    cur: Option<(Seq<Coord>, Seq<Seq<Coord>>)>,
    acc: Seq<(Seq<Coord>, Seq<Seq<Coord>>)>,
) -> Seq<(Seq<Coord>, Seq<Seq<Coord>>)>
    decreases rings.len(),
{
    if rings.len() == 0 {
        finish_current(cur, acc)
    } else {
        match rings[0] {
            TaggedRing::Outer { coords } => assemble_from(
                rings.drop_first(),
                Some((coords@, Seq::<Seq<Coord>>::empty())),
                finish_current(cur, acc),
            ),
            TaggedRing::Inner { coords } => match cur {
                None => assemble_from(rings.drop_first(), None, acc),
                Some(p) => assemble_from(rings.drop_first(), Some((p.0, p.1.push(coords@))), acc),
            },
        }
    }
}

/// The polygons a sequence of tagged rings assembles into: each outer ring
/// yields one polygon whose holes are the inner rings that follow it before
/// the next outer ring; inner rings before the first outer ring are dropped.
pub open spec fn spec_assemble(rings: Seq<TaggedRing>) -> Seq<(Seq<Coord>, Seq<Seq<Coord>>)> {
    assemble_from(rings, None, Seq::<(Seq<Coord>, Seq<Seq<Coord>>)>::empty())
}

pub open spec fn orphans_from(rings: Seq<TaggedRing>, have_cur: bool) -> int
    decreases rings.len(),
{
    if rings.len() == 0 {
        0
    } else {
        match rings[0] {
            TaggedRing::Outer { coords } => orphans_from(rings.drop_first(), true),
            TaggedRing::Inner { coords } => (
                if have_cur {
                    0int
                } else {
                    1int
                }
            ) + orphans_from(rings.drop_first(), have_cur),
        }
    }
}

/// How many inner rings arrive before any outer ring and are discarded.
pub open spec fn spec_orphans(rings: Seq<TaggedRing>) -> int {
    orphans_from(rings, false)
}

/// Assembling the rings [outer A, inner h1, inner h2, outer B] yields exactly
/// two polygons — one with exterior A and holes [h1, h2], one with exterior B
/// and no holes.
pub proof fn lemma_ring_assembly(rings: Seq<TaggedRing>)
    requires
        rings.len() == 4,
        rings[0] is Outer,
        rings[1] is Inner,
        rings[2] is Inner,
        rings[3] is Outer,
    ensures
        spec_assemble(rings) == seq![
            (rings[0]->Outer_coords@, seq![rings[1]->Inner_coords@, rings[2]->Inner_coords@]),
            (rings[3]->Outer_coords@, Seq::<Seq<Coord>>::empty()),
        ],
{
    let r1 = rings.drop_first();
    let r2 = r1.drop_first();
    let r3 = r2.drop_first();
    let r4 = r3.drop_first();
    assert(r1.len() == 3 && r1[0] == rings[1]);
    assert(r2.len() == 2 && r2[0] == rings[2]);
    assert(r3.len() == 1 && r3[0] == rings[3]);
    assert(r4.len() == 0);
    let a = rings[0]->Outer_coords@;
    let h1 = rings[1]->Inner_coords@;
    let h2 = rings[2]->Inner_coords@;
    let b = rings[3]->Outer_coords@;
    let none = Seq::<Seq<Coord>>::empty();
    let acc0 = Seq::<(Seq<Coord>, Seq<Seq<Coord>>)>::empty();
    assert(spec_assemble(rings) == assemble_from(r1, Some((a, none)), acc0));
    assert(assemble_from(r1, Some((a, none)), acc0) == assemble_from(
        r2,
        Some((a, none.push(h1))),
        acc0,
    ));
    assert(assemble_from(r2, Some((a, none.push(h1))), acc0) == assemble_from(
        r3,
        Some((a, none.push(h1).push(h2))),
        acc0,
    ));
    assert(assemble_from(r3, Some((a, none.push(h1).push(h2))), acc0) == assemble_from(
        r4,
        Some((b, none)),
        acc0.push((a, none.push(h1).push(h2))),
    ));
    assert(assemble_from(r4, Some((b, none)), acc0.push((a, none.push(h1).push(h2))))
        == acc0.push((a, none.push(h1).push(h2))).push((b, none)));
    assert(spec_assemble(rings) =~~= seq![(a, seq![h1, h2]), (b, none)]);
}

/// An inner ring that arrives before any outer ring is discarded: the rings
/// [inner h, outer A] assemble to exactly one polygon — exterior A with no
/// holes — and the discarded ring is counted once.
pub proof fn lemma_orphan_hole_discard(rings: Seq<TaggedRing>)
    requires
        rings.len() == 2,
        rings[0] is Inner,
        rings[1] is Outer,
    ensures
        spec_assemble(rings) == seq![(rings[1]->Outer_coords@, Seq::<Seq<Coord>>::empty())],
        spec_orphans(rings) == 1,
{
    let r1 = rings.drop_first();
    let r2 = r1.drop_first();
    assert(r1.len() == 1 && r1[0] == rings[1]);
    assert(r2.len() == 0);
    let a = rings[1]->Outer_coords@;
    let none = Seq::<Seq<Coord>>::empty();
    let acc0 = Seq::<(Seq<Coord>, Seq<Seq<Coord>>)>::empty();
    assert(spec_assemble(rings) == assemble_from(r1, None, acc0));
    assert(assemble_from(r1, None, acc0) == assemble_from(r2, Some((a, none)), acc0));
    assert(assemble_from(r2, Some((a, none)), acc0) == acc0.push((a, none)));
    assert(spec_assemble(rings) =~~= seq![(a, none)]);
    assert(spec_orphans(rings) == 1 + orphans_from(r1, false));
    assert(orphans_from(r1, false) == orphans_from(r2, true));
}

/// The geometric model of a sequence of indexed polygons.
pub open spec fn polys_view(s: Seq<IndexedPolygon>) -> Seq<(Seq<Coord>, Seq<Seq<Coord>>)> {
    s.map_values(|ip: IndexedPolygon| (ip.polygon.exterior@, holes_view(ip.polygon.holes@)))
}

/// The result of assembling one source shape.
#[derive(Debug)]
pub struct AssembleOutput {
    pub polygons: Vec<IndexedPolygon>,
    /// Inner rings that arrived before any outer ring and were discarded;
    /// each is a non-fatal event the caller may log.
    pub orphan_rings: usize,
}

fn copy_ring(v: &Vec<Coord>) -> (r: Vec<Coord>)
    ensures
        r@ == v@,
{
    let mut r: Vec<Coord> = Vec::new();
    let n = v.len();
    let mut i: usize = 0;
    while i < n
        invariant
            0 <= i <= n,
            n == v@.len(),
            r@.len() == i,
            forall|j: int| 0 <= j < i ==> r@[j] == v@[j],
        decreases n - i,
    {
        r.push(v[i]);
        i += 1;
    }
    proof {
        assert(r@ =~= v@);
    }
    r
}

/// The exec assembler state as the spec model sees it.
pub open spec fn cur_model(
    have_cur: bool,
    ext: Seq<Coord>,
    holes: Seq<Seq<Coord>>,
) -> Option<(Seq<Coord>, Seq<Seq<Coord>>)> {
    if have_cur {
        Some((ext, holes))
    } else {
        None
    }
}

/// Assembles the ordered rings of one source shape into indexed polygons, all
/// sharing one attribute record. Succeeds exactly when no outer ring is
/// empty; inner rings before the first outer ring are discarded and counted.
pub fn assemble_shape(rings: &Vec<TaggedRing>, properties: &AttrRecord) -> (r: Result<
    AssembleOutput,
    GeomError,
>)
    requires
        rings_all_ok(rings@),
    ensures
        r is Ok <==> outers_nonempty(rings@),
        r matches Ok(out) ==> {
            &&& polys_view(out.polygons@) == spec_assemble(rings@)
            &&& forall|k: int| 0 <= k < out.polygons@.len() ==> (#[trigger] out.polygons@[k]).wf()
                && out.polygons@[k].properties@ == properties@
            &&& out.orphan_rings == spec_orphans(rings@)
        },
        r matches Err(e) ==> e == GeomError::EmptyExterior,
{
    let mut out: Vec<IndexedPolygon> = Vec::new();
    let mut cur_ext: Vec<Coord> = Vec::new();
    let mut cur_holes: Vec<Vec<Coord>> = Vec::new();
    let mut have_cur: bool = false;
    let mut orphans: usize = 0;
    let n = rings.len();
    let mut i: usize = 0;
    proof {
        assert(rings@.skip(0) =~= rings@);
        assert(polys_view(out@) =~= Seq::<(Seq<Coord>, Seq<Seq<Coord>>)>::empty());
    }
    while i < n
        invariant
            0 <= i <= n,
            n == rings@.len(),
            rings_all_ok(rings@),
            orphans <= i,
            forall|j: int| 0 <= j < i ==> (rings@[j] is Outer ==> rings@[j].coords_view().len() > 0),
            have_cur ==> cur_ext@.len() > 0,
            have_cur ==> ring_ok(cur_ext@),
            have_cur ==> forall|j: int| 0 <= j < cur_holes@.len() ==> ring_ok(cur_holes@[j]@),
            forall|k: int| 0 <= k < out@.len() ==> (#[trigger] out@[k]).wf() && out@[k].properties@
                == properties@,
            assemble_from(
                rings@.skip(i as int),
                cur_model(have_cur, cur_ext@, holes_view(cur_holes@)),
                polys_view(out@),
            ) == spec_assemble(rings@),
            orphans + orphans_from(rings@.skip(i as int), have_cur) == spec_orphans(rings@),
        decreases n - i,
    {
        proof {
            assert(rings@.skip(i as int).drop_first() =~= rings@.skip(i as int + 1));
            assert(rings@.skip(i as int)[0] == rings@[i as int]);
        }
        match &rings[i] {
            TaggedRing::Outer { coords } => {
                if coords.len() == 0 {
                    return Err(GeomError::EmptyExterior);
                }
                if have_cur {
                    let poly = Polygon { exterior: cur_ext, holes: cur_holes };
                    cur_ext = Vec::new();
                    cur_holes = Vec::new();
                    let ghost old_out = out@;
                    match IndexedPolygon::new(poly, properties.duplicate()) {
                        Ok(ip) => {
                            out.push(ip);
                            proof {
                                assert(polys_view(out@) =~= polys_view(old_out).push(
                                    (ip.polygon.exterior@, holes_view(ip.polygon.holes@)),
                                ));
                            }
                        },
                        Err(_) => {
                            return Err(GeomError::EmptyExterior);
                        },
                    }
                }
                cur_ext = copy_ring(coords);
                cur_holes = Vec::new();
                have_cur = true;
                proof {
                    assert(holes_view(cur_holes@) =~= Seq::<Seq<Coord>>::empty());
                }
            },
            TaggedRing::Inner { coords } => {
                if have_cur {
                    let ghost old_holes = cur_holes@;
                    cur_holes.push(copy_ring(coords));
                    proof {
                        assert(holes_view(cur_holes@) =~= holes_view(old_holes).push(
                            coords@,
                        ));
                    }
                } else {
                    orphans += 1;
                }
            },
        }
        i += 1;
    }
    proof {
        assert(rings@.skip(n as int) =~= Seq::<TaggedRing>::empty());
    }
    if have_cur {
        let poly = Polygon { exterior: cur_ext, holes: cur_holes };
        let ghost old_out = out@;
        match IndexedPolygon::new(poly, properties.duplicate()) {
            Ok(ip) => {
                out.push(ip);
                proof {
                    assert(polys_view(out@) =~= polys_view(old_out).push(
                        (ip.polygon.exterior@, holes_view(ip.polygon.holes@)),
                    ));
                }
            },
            Err(_) => {
                return Err(GeomError::EmptyExterior);
            },
        }
    }
    Ok(AssembleOutput { polygons: out, orphan_rings: orphans })
}

} // verus!
