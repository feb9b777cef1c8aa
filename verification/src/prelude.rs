//! The names that most users of the library need.

pub use crate::arena::{FaceType, EMPTY};
pub use crate::engine::DistMesh;
pub use crate::mesh::Mesh;
pub use crate::predicate::Orientation;
pub use crate::triangulation::{Bar, Triangulation};
