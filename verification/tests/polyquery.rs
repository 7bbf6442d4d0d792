use polyquery::assembler::{
    assemble_shape, polygon_contains_at, AssembleOutput, GeomError, IndexedPolygon, Polygon,
    TaggedRing,
};
use polyquery::attributes::{
    field_value_to_json, record_to_json, AttrField, AttrRecord, FieldValue, JsonValue,
};
use polyquery::geometry::{envelope_of_ring, ring_contains_at, Coord, Envelope};
use polyquery::index::SpatialIndex;

fn c(x: i64, y: i64) -> Coord {
    Coord { x, y }
}

fn square(x0: i64, y0: i64, x1: i64, y1: i64) -> Vec<Coord> {
    vec![c(x0, y0), c(x1, y0), c(x1, y1), c(x0, y1)]
}

fn named_record(name: &str, value: &str) -> AttrRecord {
    AttrRecord {
        fields: vec![AttrField {
            name: name.to_string(),
            value: JsonValue::Text(value.to_string()),
        }],
    }
}

fn record_text(record: &AttrRecord, field: &str) -> Option<String> {
    for f in record.fields.iter() {
        if f.name == field {
            return match &f.value {
                JsonValue::Text(s) => Some(s.clone()),
                JsonValue::Null => None,
            };
        }
    }
    None
}

fn assemble_one(rings: Vec<TaggedRing>, record: AttrRecord) -> AssembleOutput {
    assemble_shape(&rings, &record).expect("assembly should succeed")
}

#[test]
fn point_in_square() {
    let ring = square(0, 0, 10, 10);
    assert!(ring_contains_at(&ring, 5, 5));
    assert!(!ring_contains_at(&ring, 15, 5));
    assert!(!ring_contains_at(&ring, 5, -1));
}

#[test]
fn boundary_policy_half_open() {
    // Left and bottom edges count as inside; right and top edges as outside.
    let ring = square(0, 0, 10, 10);
    assert!(ring_contains_at(&ring, 0, 0));
    assert!(ring_contains_at(&ring, 0, 5));
    assert!(ring_contains_at(&ring, 5, 0));
    assert!(!ring_contains_at(&ring, 10, 5));
    assert!(!ring_contains_at(&ring, 5, 10));
}

#[test]
fn hole_excludes_point() {
    // A point inside a hole is not contained, even though it is inside the
    // exterior ring.
    let poly = Polygon { exterior: square(0, 0, 10, 10), holes: vec![square(4, 4, 6, 6)] };
    assert!(ring_contains_at(&poly.exterior, 5, 5));
    assert!(!polygon_contains_at(&poly, 5, 5));
    assert!(polygon_contains_at(&poly, 2, 2));
}

#[test]
fn envelope_bounds() {
    let ring = vec![c(1, 2), c(5, -3), c(0, 7)];
    let e = envelope_of_ring(&ring).expect("nonempty ring has an envelope");
    assert_eq!(
        e,
        Envelope { min_x: 0, min_y: -3, max_x: 5, max_y: 7 }
    );
    // Every vertex lies within the envelope, bounds inclusive.
    for v in ring.iter() {
        assert!(e.min_x <= v.x && v.x <= e.max_x);
        assert!(e.min_y <= v.y && v.y <= e.max_y);
    }
}

#[test]
fn envelope_of_empty_ring() {
    let ring: Vec<Coord> = vec![];
    assert!(envelope_of_ring(&ring).is_none());
}

#[test]
fn indexed_polygon_rejects_empty_exterior() {
    let poly = Polygon { exterior: vec![], holes: vec![] };
    let r = IndexedPolygon::new(poly, named_record("name", "A"));
    assert_eq!(r.err(), Some(GeomError::EmptyExterior));
}

#[test]
fn ring_assembly_two_polygons() {
    // [outer A, inner h1, inner h2, outer B] assembles to exactly two
    // polygons: (A, [h1, h2]) and (B, []).
    let a = square(0, 0, 10, 10);
    let h1 = square(1, 1, 2, 2);
    let h2 = square(3, 3, 4, 4);
    let b = square(20, 20, 30, 30);
    let rings = vec![
        TaggedRing::Outer { coords: a.clone() },
        TaggedRing::Inner { coords: h1.clone() },
        TaggedRing::Inner { coords: h2.clone() },
        TaggedRing::Outer { coords: b.clone() },
    ];
    let out = assemble_one(rings, named_record("name", "A"));
    assert_eq!(out.polygons.len(), 2);
    assert_eq!(out.orphan_rings, 0);
    assert_eq!(out.polygons[0].polygon.exterior, a);
    assert_eq!(out.polygons[0].polygon.holes, vec![h1, h2]);
    assert_eq!(out.polygons[1].polygon.exterior, b);
    assert!(out.polygons[1].polygon.holes.is_empty());
    // Both polygons share the shape's attribute record.
    for p in out.polygons.iter() {
        assert_eq!(record_text(&p.properties, "name").as_deref(), Some("A"));
    }
}

#[test]
fn orphan_hole_discarded() {
    // [inner h, outer A]: the orphan inner ring is discarded with a counted
    // warning, leaving one polygon with no holes.
    let h = square(1, 1, 2, 2);
    let a = square(0, 0, 10, 10);
    let rings = vec![
        TaggedRing::Inner { coords: h },
        TaggedRing::Outer { coords: a.clone() },
    ];
    let out = assemble_one(rings, named_record("name", "A"));
    assert_eq!(out.polygons.len(), 1);
    assert_eq!(out.orphan_rings, 1);
    assert_eq!(out.polygons[0].polygon.exterior, a);
    assert!(out.polygons[0].polygon.holes.is_empty());
}

#[test]
fn only_inner_rings_yield_no_polygons() {
    let rings = vec![
        TaggedRing::Inner { coords: square(1, 1, 2, 2) },
        TaggedRing::Inner { coords: square(3, 3, 4, 4) },
    ];
    let out = assemble_one(rings, named_record("name", "A"));
    assert!(out.polygons.is_empty());
    assert_eq!(out.orphan_rings, 2);
}

#[test]
fn empty_outer_ring_is_fatal() {
    let rings = vec![TaggedRing::Outer { coords: vec![] }];
    let r = assemble_shape(&rings, &named_record("name", "A"));
    assert_eq!(r.err(), Some(GeomError::EmptyExterior));
}

#[test]
fn field_values_decode() {
    match field_value_to_json(&FieldValue::Character(Some("hi".to_string()))) {
        JsonValue::Text(s) => assert_eq!(s, "hi"),
        JsonValue::Null => panic!("expected text"),
    }
    assert!(matches!(
        field_value_to_json(&FieldValue::Character(None)),
        JsonValue::Null
    ));
    assert!(matches!(field_value_to_json(&FieldValue::Unsupported), JsonValue::Null));
}

#[test]
fn record_decodes_in_order() {
    let raw = vec![
        ("name".to_string(), FieldValue::Character(Some("A".to_string()))),
        ("age".to_string(), FieldValue::Unsupported),
        ("note".to_string(), FieldValue::Character(None)),
    ];
    let rec = record_to_json(&raw);
    assert_eq!(rec.fields.len(), 3);
    assert_eq!(rec.fields[0].name, "name");
    assert!(matches!(&rec.fields[0].value, JsonValue::Text(s) if s == "A"));
    assert_eq!(rec.fields[1].name, "age");
    assert!(matches!(rec.fields[1].value, JsonValue::Null));
    assert_eq!(rec.fields[2].name, "note");
    assert!(matches!(rec.fields[2].value, JsonValue::Null));
}

fn build_two_square_index() -> SpatialIndex {
    let mut entries = Vec::new();
    let out_a = assemble_one(
        vec![TaggedRing::Outer { coords: square(0, 0, 10, 10) }],
        named_record("name", "A"),
    );
    let out_b = assemble_one(
        vec![TaggedRing::Outer { coords: square(20, 0, 30, 10) }],
        named_record("name", "B"),
    );
    entries.extend(out_a.polygons);
    entries.extend(out_b.polygons);
    SpatialIndex::build(entries)
}

#[test]
fn resolve_picks_the_containing_polygon() {
    let index = build_two_square_index();
    let in_a = index.resolve(5, 5).expect("point inside A");
    assert_eq!(record_text(&in_a, "name").as_deref(), Some("A"));
    let in_b = index.resolve(5, 25).expect("point inside B");
    assert_eq!(record_text(&in_b, "name").as_deref(), Some("B"));
}

#[test]
fn no_match_returns_null() {
    // A point outside every polygon's envelope resolves to no match.
    let index = build_two_square_index();
    assert!(index.resolve(50, 50).is_none());
    assert!(index.resolve(-5, -5).is_none());
}

#[test]
fn envelope_filter_false_positive_is_discarded() {
    // The point lies within the polygon's envelope but outside the polygon:
    // the exact test must discard the envelope filter's false positive.
    let triangle = vec![c(0, 0), c(10, 0), c(10, 10)];
    let out = assemble_one(
        vec![TaggedRing::Outer { coords: triangle }],
        named_record("name", "T"),
    );
    let index = SpatialIndex::build(out.polygons);
    assert!(index.resolve(9, 2).is_none());
    let hit = index.resolve(2, 9).expect("inside the triangle");
    assert_eq!(record_text(&hit, "name").as_deref(), Some("T"));
}

#[test]
fn end_to_end_square_scenario() {
    // One square polygon (0,0),(10,0),(10,10),(0,10) with {"name": "A"}.
    let out = assemble_one(
        vec![TaggedRing::Outer { coords: square(0, 0, 10, 10) }],
        named_record("name", "A"),
    );
    assert_eq!(out.polygons.len(), 1);
    let index = SpatialIndex::build(out.polygons);
    // Query (lat=5, lon=5) returns {"name": "A"}.
    let hit = index.resolve(5, 5).expect("point inside the square");
    assert_eq!(record_text(&hit, "name").as_deref(), Some("A"));
    // Query (lat=50, lon=50) returns null.
    assert!(index.resolve(50, 50).is_none());
    // Defaulted query (lat=0, lon=0): (0,0) is the square's bottom-left
    // vertex, which the documented half-open rule classifies as inside.
    let origin = index.resolve(0, 0).expect("bottom-left vertex is inside");
    assert_eq!(record_text(&origin, "name").as_deref(), Some("A"));
}
