//! The records stored in the mesh arenas. Every cross-reference is an index
//! into one of the arenas; a slot that refers to nothing holds [`EMPTY`].

use vstd::prelude::*;

verus! {

/// Sentinel index: "refers to nothing". It is never a valid arena index.
pub const EMPTY: usize = usize::MAX;

/// What a face stands for.
#[derive(Debug, Clone, Copy, PartialEq, Eq, Structural)]
pub enum FaceType {
    /// A triangle of the mesh.
    Normal,
    /// An internal void.
    Hole,
    /// The unbounded outside of the mesh.
    Boundary,
    /// A face that was logically removed.
    Destroyed,
}

/// An oriented edge. `end` is the vertex it points to, `next` and `prev` walk
/// the rim of `face`, and `twin` is the same edge seen from the other side.
#[derive(Debug, Clone, Copy)]
pub struct Halfedge {
    pub id: usize,
    pub end: usize,
    pub next: usize,
    pub prev: usize,
    pub twin: usize,
    pub face: usize,
}

impl Halfedge {
    /// A half-edge with the given id and no links at all.
    pub fn empty(id: usize) -> (h: Halfedge)
        ensures
            h == (Halfedge { id, end: EMPTY, next: EMPTY, prev: EMPTY, twin: EMPTY, face: EMPTY }),
    {
        Halfedge { id, end: EMPTY, next: EMPTY, prev: EMPTY, twin: EMPTY, face: EMPTY }
    }

    /// Whether the half-edge has been linked into the rim of a face.
    pub fn is_valid(&self) -> (r: bool)
        ensures
            r == (self.next != EMPTY && self.prev != EMPTY && self.face != EMPTY),
    {
        self.next != EMPTY && self.prev != EMPTY && self.face != EMPTY
    }
}

/// A face: one half-edge on its rim, and its kind.
#[derive(Debug, Clone, Copy)]
pub struct Face {
    pub id: usize,
    pub halfedge: usize,
    pub face_type: FaceType,
}

impl Face {
    /// A triangle face that has no rim yet.
    pub fn empty(id: usize) -> (f: Face)
        ensures
            f == (Face { id, halfedge: EMPTY, face_type: FaceType::Normal }),
    {
        Face { id, halfedge: EMPTY, face_type: FaceType::Normal }
    }

    pub fn new(id: usize, edge: usize, face_type: FaceType) -> (f: Face)
        ensures
            f == (Face { id, halfedge: edge, face_type }),
    {
        Face { id, halfedge: edge, face_type }
    }
}

/// A vertex: one half-edge that ends at it, and the point it carries.
#[derive(Debug)]
pub struct Vertex<P> {
    pub id: usize,
    pub halfedge: usize,
    pub point: P,
}

impl<P> Vertex<P> {
    /// A vertex that no half-edge has been attached to yet.
    pub fn empty(id: usize, point: P) -> (v: Vertex<P>)
        ensures
            v == (Vertex { id, halfedge: EMPTY, point }),
    {
        Vertex { id, halfedge: EMPTY, point }
    }

    pub fn new(id: usize, halfedge: usize, point: P) -> (v: Vertex<P>)
        ensures
            v == (Vertex { id, halfedge, point }),
    {
        Vertex { id, halfedge, point }
    }
}

} // verus!
