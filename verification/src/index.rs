//! The spatial index and the two-phase query resolver.

use vstd::prelude::*;
use crate::assembler::{IndexedPolygon, polygon_contains_at};
use crate::attributes::AttrRecord;
use crate::geometry::{Envelope, env_contains, coord_ok, lemma_ring_contains_in_envelope};

verus! {

/// An immutable R-tree over the entries' envelopes, for envelope-overlap
/// queries against a point. Each tree element pairs the envelope of one entry
/// with that entry's position in the entry sequence.
#[verifier::external_body]
pub struct SpatialTree {
    tree: rstar::RTree<
        rstar::primitives::GeomWithData<rstar::primitives::Rectangle<[i64; 2]>, usize>,
    >,
}

/// What the tree holds: position `i` carries the four envelope bounds
/// (min x, min y, max x, max y) of the element whose data field is `i`.
pub uninterp spec fn tree_entries(t: SpatialTree) -> Seq<(int, int, int, int)>;

pub open spec fn env_tuple(e: Envelope) -> (int, int, int, int) {
    (e.min_x as int, e.min_y as int, e.max_x as int, e.max_y as int)
}

/// The point lies within the four bounds, inclusive.
pub open spec fn tuple_contains(t: (int, int, int, int), px: int, py: int) -> bool {
    t.0 <= px <= t.2 && t.1 <= py <= t.3
}

/// Relies on rstar::RTree::bulk_load: the tree built from a vector of
/// elements holds exactly those elements. The bounds of each envelope must be
/// ordered: rstar's AABB::from_corners normalizes its corners, so an element
/// built from an inverted envelope would not carry that envelope's bounds.
#[verifier::external_body]
fn tree_bulk_load(envs: &Vec<Envelope>) -> (t: SpatialTree)
    requires
        forall|i: int| 0 <= i < envs@.len() ==> (#[trigger] envs@[i]).min_x <= envs@[i].max_x
            && envs@[i].min_y <= envs@[i].max_y,
    ensures
        tree_entries(t).len() == envs@.len(),
        forall|i: int| 0 <= i < envs@.len() ==> tree_entries(t)[i] == env_tuple(envs@[i]),
{
    let elems = envs.iter().enumerate().map(
        |(i, e): (usize, &Envelope)| rstar::primitives::GeomWithData::new(
            rstar::primitives::Rectangle::from_corners([e.min_x, e.min_y], [e.max_x, e.max_y]),
            i,
        ),
    ).collect();
    SpatialTree { tree: rstar::RTree::bulk_load(elems) }
}

/// Relies on rstar::RTree::locate_all_at_point: it yields exactly the
/// elements whose envelope contains the point, bounds inclusive (rstar's
/// AABB::contains_point compares component-wise with `<=`).
#[verifier::external_body]
fn tree_locate(t: &SpatialTree, px: i64, py: i64) -> (r: Vec<usize>)
    ensures
        forall|k: int| 0 <= k < r@.len() ==> 0 <= #[trigger] r@[k] < tree_entries(*t).len()
            && tuple_contains(tree_entries(*t)[r@[k] as int], px as int, py as int),
        forall|j: int| 0 <= j < tree_entries(*t).len() && tuple_contains(
            #[trigger] tree_entries(*t)[j],
            px as int,
            py as int,
        ) ==> exists|k: int| 0 <= k < r@.len() && #[trigger] r@[k] as int == j,
{
    t.tree.locate_all_at_point([px, py]).map(|g| g.data).collect()
}

/// The immutable spatial index: the complete entry set plus the R-tree over
/// the entries' envelopes. Built once, in bulk; never mutated afterward.
pub struct SpatialIndex {
    pub entries: Vec<IndexedPolygon>,
    pub tree: SpatialTree,
}

impl SpatialIndex {
    /// The tree mirrors the entries: one tree element per entry, carrying
    /// that entry's envelope, and every entry is well-formed.
    pub open spec fn wf(self) -> bool {
        &&& tree_entries(self.tree).len() == self.entries@.len()
        &&& forall|i: int| 0 <= i < self.entries@.len() ==> tree_entries(self.tree)[i]
            == env_tuple((#[trigger] self.entries@[i]).envelope)
        &&& forall|i: int| 0 <= i < self.entries@.len() ==> (#[trigger] self.entries@[i]).wf()
    }

    /// Bulk construction from the complete entry set.
    pub fn build(entries: Vec<IndexedPolygon>) -> (r: SpatialIndex)
        requires
            forall|i: int| 0 <= i < entries@.len() ==> (#[trigger] entries@[i]).wf(),
        ensures
            r.wf(),
            r.entries@ == entries@,
    {
        let mut envs: Vec<Envelope> = Vec::new();
        let n = entries.len();
        let mut i: usize = 0;
        while i < n
            invariant
                0 <= i <= n,
                n == entries@.len(),
                envs@.len() == i,
                forall|j: int| 0 <= j < i ==> envs@[j] == (#[trigger] entries@[j]).envelope,
                forall|j: int| 0 <= j < n ==> (#[trigger] entries@[j]).wf(),
                forall|j: int| 0 <= j < i ==> (#[trigger] envs@[j]).min_x <= envs@[j].max_x
                    && envs@[j].min_y <= envs@[j].max_y,
            decreases n - i,
        {
            let e = entries[i].envelope;
            proof {
                // A well-formed entry has a nonempty exterior ring; its first
                // vertex lies between both envelope bounds, so they are ordered.
                let ip = entries@[i as int];
                assert(env_contains(
                    ip.envelope,
                    ip.polygon.exterior@[0].x as int,
                    ip.polygon.exterior@[0].y as int,
                ));
            }
            envs.push(e);
            i += 1;
        }
        let tree = tree_bulk_load(&envs);
        SpatialIndex { entries, tree }
    }

    /// Two-phase query resolution: filter the entries by envelope overlap
    /// with the point (x = lon, y = lat), then run the exact containment test
    /// on each candidate, in the index's unspecified candidate order, until
    /// one matches. Returns the attribute record of the first match, and no
    /// match exactly when no entry's polygon contains the point.
    pub fn resolve(&self, lat: i64, lon: i64) -> (r: Option<AttrRecord>)
        requires
            self.wf(),
        ensures
            r matches Some(rec) ==> exists|i: int| 0 <= i < self.entries@.len()
                && (#[trigger] self.entries@[i]).polygon.spec_contains(lon as int, lat as int)
                && rec@ == self.entries@[i].properties@,
            r is None ==> forall|i: int| 0 <= i < self.entries@.len()
                ==> !(#[trigger] self.entries@[i]).polygon.spec_contains(lon as int, lat as int),
    {
        let px = lon;
        let py = lat;
        let cands = tree_locate(&self.tree, px, py);
        let m = cands.len();
        let mut k: usize = 0;
        while k < m
            invariant
                0 <= k <= m,
                m == cands@.len(),
                px == lon,
                py == lat,
                self.wf(),
                forall|t: int| 0 <= t < cands@.len() ==> 0 <= #[trigger] cands@[t]
                    < tree_entries(self.tree).len() && tuple_contains(
                    tree_entries(self.tree)[cands@[t] as int],
                    px as int,
                    py as int,
                ),
                forall|j: int| 0 <= j < tree_entries(self.tree).len() && tuple_contains(
                    #[trigger] tree_entries(self.tree)[j],
                    px as int,
                    py as int,
                ) ==> exists|t: int| 0 <= t < cands@.len() && #[trigger] cands@[t] as int == j,
                forall|t: int| 0 <= t < k ==> !self.entries@[#[trigger] cands@[t] as int].polygon
                    .spec_contains(px as int, py as int),
            decreases m - k,
        {
            let idx = cands[k];
            proof {
                let ip = self.entries@[idx as int];
                assert(tuple_contains(env_tuple(ip.envelope), px as int, py as int));
                let ext = ip.polygon.exterior@;
                let v0 = choose|v: int| 0 <= v < ext.len() && ext[v].x == ip.envelope.min_x;
                let v1 = choose|v: int| 0 <= v < ext.len() && ext[v].x == ip.envelope.max_x;
                let v2 = choose|v: int| 0 <= v < ext.len() && ext[v].y == ip.envelope.min_y;
                let v3 = choose|v: int| 0 <= v < ext.len() && ext[v].y == ip.envelope.max_y;
                assert(coord_ok(ext[v0]) && coord_ok(ext[v1]) && coord_ok(ext[v2]) && coord_ok(
                    ext[v3],
                ));
            }
            let ip = &self.entries[idx];
            if polygon_contains_at(&ip.polygon, px, py) {
                let rec = ip.properties.duplicate();
                proof {
                    assert((self.entries@[idx as int]).polygon.spec_contains(
                        px as int,
                        py as int,
                    ) && rec@ == self.entries@[idx as int].properties@);
                }
                return Some(rec);
            }
            k += 1;
        }
        proof {
            assert forall|i: int| 0 <= i < self.entries@.len() implies !(
            #[trigger] self.entries@[i]).polygon.spec_contains(px as int, py as int) by {
                let ip = self.entries@[i];
                if ip.polygon.spec_contains(px as int, py as int) {
                    lemma_ring_contains_in_envelope(
                        ip.envelope,
                        ip.polygon.exterior@,
                        px as int,
                        py as int,
                    );
                    assert(tuple_contains(tree_entries(self.tree)[i], px as int, py as int));
                    let t = choose|t: int| 0 <= t < cands@.len() && #[trigger] cands@[t] as int
                        == i;
                    assert(!self.entries@[cands@[t] as int].polygon.spec_contains(
                        px as int,
                        py as int,
                    ));
                    assert(false);
                }
            }
        }
        None
    }
}

/// The envelope filter is conservative: whenever the exact containment test
/// reports a point inside a well-formed entry's polygon, the point lies
/// within the entry's envelope, so the filter cannot omit that entry.
pub proof fn lemma_filter_conservative(ip: IndexedPolygon, px: int, py: int)
    requires
        ip.wf(),
        ip.polygon.spec_contains(px, py),
    ensures
        env_contains(ip.envelope, px, py),
{
    lemma_ring_contains_in_envelope(ip.envelope, ip.polygon.exterior@, px, py);
}

/// A point lying inside no entry's envelope is contained by no entry's
/// polygon, so resolving it finds no match.
pub proof fn lemma_no_envelope_no_match(index: SpatialIndex, px: int, py: int)
    requires
        index.wf(),
        forall|i: int| 0 <= i < index.entries@.len() ==> !env_contains(
            (#[trigger] index.entries@[i]).envelope,
            px,
            py,
        ),
    ensures
        forall|i: int| 0 <= i < index.entries@.len() ==> !(
        #[trigger] index.entries@[i]).polygon.spec_contains(px, py),
{
    assert forall|i: int| 0 <= i < index.entries@.len() implies !(
    #[trigger] index.entries@[i]).polygon.spec_contains(px, py) by {
        if index.entries@[i].polygon.spec_contains(px, py) {
            lemma_filter_conservative(index.entries@[i], px, py);
        }
    }
}

} // verus!

