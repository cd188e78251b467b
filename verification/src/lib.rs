//! Topological relationship engine for planar vector geometries.
//!
//! Given two geometries (points, linestrings, polygons and their multi-part
//! variants) over an exact integer coordinate grid, the engine determines
//! their spatial relationship by intersecting the two boundary edge sets,
//! noding every edge at the discovered intersection points, labeling the
//! resulting graph elements with their location (interior / boundary /
//! exterior) relative to each input, and deriving the 3x3
//! Dimensionally-Extended-9-Intersection-Model matrix from which every named
//! predicate (intersects, contains, touches, crosses, ...) is a pure function.

pub mod coord;
pub mod geometry;
pub mod seg;
pub mod locate;
pub mod edge;
pub mod noder;
pub mod graph;
pub mod matrix;
pub mod relate;
pub mod geodesic;
