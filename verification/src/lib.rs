//! A small ray-tracing core over exact integer (fixed-point) coordinates:
//! geometry primitives, ray/triangle/box intersection tests, an octree index
//! for nearest-hit queries, shading, and a camera grid generator.

pub mod geometry;
pub mod intersections;
pub mod bounding_box;
pub mod oct;
pub mod utils;
pub mod canvas;
pub mod tracing;
