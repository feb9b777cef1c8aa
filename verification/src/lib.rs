//! Triangle meshes of the plane: a half-edge mesh that is built up by
//! inserting vertices and kept Delaunay by flipping edges, and the
//! bookkeeping of a relaxation engine that moves a cloud of points into a
//! mesh of well-shaped triangles.
//!
//! The library works on indices. It does not compute with coordinates: where
//! a decision depends on where points lie, the caller hands in the test.

pub mod arena;
pub mod model;
pub mod rim;
pub mod surgery;
pub mod mesh;
pub mod iter;
pub mod predicate;
pub mod delaunay;
pub mod triangulation;
pub mod engine;
pub mod prelude;
