//! Point-in-polygon lookup over a static polygon collection.
//!
//! The crate assembles raw boundary rings into polygons with holes, computes
//! each polygon's axis-aligned envelope, bulk-loads the envelopes into a
//! spatial tree, and answers point queries in two phases: a cheap envelope
//! filter followed by an exact even-odd containment test.

pub mod assembler;
pub mod attributes;
pub mod geometry;
pub mod index;
