//! The mathematical model of a half-edge mesh: three sequences of records
//! that refer to each other by position, and the invariants that make them a
//! mesh.

use vstd::prelude::*;
use crate::arena::{Face, FaceType, Halfedge, Vertex};

verus! {

/// A mesh as a value: what the arenas hold, in order.
pub struct MeshView<P> {
    pub faces: Seq<Face>,
    pub halfedges: Seq<Halfedge>,
    pub vertices: Seq<Vertex<P>>,
    pub holes: Seq<usize>,
    pub boundary: usize,
}

impl<P> MeshView<P> {
    /// `h` names a half-edge.
    pub open spec fn has_edge(self, h: int) -> bool {
        0 <= h < self.halfedges.len()
    }

    /// `f` names a face.
    pub open spec fn has_face(self, f: int) -> bool {
        0 <= f < self.faces.len()
    }

    /// `v` names a vertex.
    pub open spec fn has_vertex(self, v: int) -> bool {
        0 <= v < self.vertices.len()
    }

    /// The half-edge after `h` on the rim of its face.
    pub open spec fn next(self, h: int) -> int {
        self.halfedges[h].next as int
    }

    /// The half-edge before `h` on the rim of its face.
    pub open spec fn prev(self, h: int) -> int {
        self.halfedges[h].prev as int
    }

    /// The same edge as `h`, seen from the face on its other side.
    pub open spec fn twin(self, h: int) -> int {
        self.halfedges[h].twin as int
    }

    /// The face that `h` runs along.
    pub open spec fn face(self, h: int) -> int {
        self.halfedges[h].face as int
    }

    /// The vertex that `h` points to.
    pub open spec fn end(self, h: int) -> int {
        self.halfedges[h].end as int
    }

    /// The vertex that `h` starts from.
    pub open spec fn start(self, h: int) -> int {
        self.end(self.twin(h))
    }

    /// The kind of face `f`.
    pub open spec fn kind(self, f: int) -> FaceType {
        self.faces[f].face_type
    }

    /// The half-edge that stands for the rim of face `f`.
    pub open spec fn rim(self, f: int) -> int {
        self.faces[f].halfedge as int
    }

    /// The half-edge that stands for the edges around vertex `v`.
    pub open spec fn spoke(self, v: int) -> int {
        self.vertices[v].halfedge as int
    }

    /// The point that vertex `v` carries.
    pub open spec fn point(self, v: int) -> P {
        self.vertices[v].point
    }

    /// The points of all vertices, in arena order.
    pub open spec fn points(self) -> Seq<P> {
        Seq::new(self.vertices.len(), |v: int| self.vertices[v].point)
    }

    /// Every arena index is a machine index, so that the sentinel names no
    /// record.
    pub open spec fn fits(self) -> bool {
        &&& self.faces.len() <= usize::MAX
        &&& self.halfedges.len() <= usize::MAX
        &&& self.vertices.len() <= usize::MAX
    }

    /// Every record sits at the position that its id names.
    pub open spec fn ids_match(self) -> bool {
        &&& forall|f: int| 0 <= f < self.faces.len() ==> (#[trigger] self.faces[f]).id == f
        &&& forall|h: int| 0 <= h < self.halfedges.len() ==> (#[trigger] self.halfedges[h]).id == h
        &&& forall|v: int| 0 <= v < self.vertices.len() ==> (#[trigger] self.vertices[v]).id == v
    }

    /// `f` is the triangle with the smallest index.
    pub open spec fn is_first_triangle(self, f: int) -> bool {
        &&& self.has_face(f)
        &&& self.kind(f) == FaceType::Normal
        &&& forall|g: int| 0 <= g < f ==> self.kind(g) != FaceType::Normal
    }

    /// No face is a triangle.
    pub open spec fn has_no_triangle(self) -> bool {
        forall|g: int| 0 <= g < self.faces.len() ==> self.kind(g) != FaceType::Normal
    }

    /// A face that is not a triangle: the outside, or a hole.
    pub open spec fn is_void(self, f: int) -> bool {
        self.kind(f) == FaceType::Boundary || self.kind(f) == FaceType::Hole
    }

    /// `h` has the outside or a hole on one of its two sides.
    pub open spec fn is_border(self, h: int) -> bool {
        self.is_void(self.face(h)) || self.is_void(self.face(self.twin(h)))
    }

    /// `h` separates two different triangles.
    pub open spec fn is_interior(self, h: int) -> bool {
        &&& self.kind(self.face(h)) == FaceType::Normal
        &&& self.kind(self.face(self.twin(h))) == FaceType::Normal
        &&& self.face(h) != self.face(self.twin(h))
    }

    /// What must hold of the half-edge at position `h`: its links stay inside
    /// the arenas; `next` and `prev` undo each other; its twin is another
    /// half-edge whose twin it is; the half-edge after it runs along the same
    /// face; it starts where the half-edge before it ends; its face is not
    /// destroyed; and if its face is a triangle, three steps along `next`
    /// lead back to it, and it is one of the three half-edges that the walk
    /// from the half-edge that names the face passes.
    pub open spec fn edge_ok(self, h: int) -> bool {
        let e = self.halfedges[h];
        let f = e.face as int;
        &&& e.end < self.vertices.len()
        &&& e.next < self.halfedges.len()
        &&& e.prev < self.halfedges.len()
        &&& e.twin < self.halfedges.len()
        &&& e.face < self.faces.len()
        &&& e.next != h
        &&& self.prev(e.next as int) == h
        &&& self.next(e.prev as int) == h
        &&& e.twin != h
        &&& self.twin(e.twin as int) == h
        &&& self.face(e.next as int) == f
        &&& self.end(e.twin as int) == self.end(e.prev as int)
        &&& self.kind(f) != FaceType::Destroyed
        &&& self.kind(f) == FaceType::Normal ==> {
            &&& self.next(self.next(e.next as int)) == h
            &&& (h == self.rim(f) || h == self.next(self.rim(f)) || h == self.next(self.next(self.rim(f))))
        }
    }

    /// What must hold of the face at position `f`: unless it is destroyed, it
    /// is named by one of the half-edges that run along it.
    pub open spec fn face_ok(self, f: int) -> bool {
        self.kind(f) != FaceType::Destroyed ==> {
            &&& self.faces[f].halfedge < self.halfedges.len()
            &&& self.face(self.rim(f)) == f
        }
    }

    /// What must hold of the vertex at position `v`: it is named by a
    /// half-edge that ends at it.
    pub open spec fn vertex_ok(self, v: int) -> bool {
        &&& self.vertices[v].halfedge < self.halfedges.len()
        &&& self.end(self.spoke(v)) == v
    }

    /// The part of the mesh invariant that speaks of each record and the
    /// records it refers to: the arenas fit the machine, ids match positions,
    /// there is one outside, the holes are listed, and every half-edge, face
    /// and vertex is in order.
    pub open spec fn links_ok(self) -> bool {
        &&& self.fits()
        &&& self.ids_match()
        &&& self.boundary < self.faces.len()
        &&& self.kind(self.boundary as int) == FaceType::Boundary
        &&& forall|f: int|
            0 <= f < self.faces.len() && #[trigger] self.kind(f) == FaceType::Boundary ==> f
                == self.boundary
        &&& forall|i: int|
            0 <= i < self.holes.len() ==> (#[trigger] self.holes[i]) < self.faces.len()
                && self.kind(self.holes[i] as int) == FaceType::Hole
        &&& forall|h: int| 0 <= h < self.halfedges.len() ==> #[trigger] self.edge_ok(h)
        &&& forall|f: int| 0 <= f < self.faces.len() ==> #[trigger] self.face_ok(f)
        &&& forall|v: int| 0 <= v < self.vertices.len() ==> #[trigger] self.vertex_ok(v)
    }

    /// `marks` marks the face that `h` runs along.
    pub open spec fn marked(self, marks: Seq<bool>, h: int) -> bool {
        marks[self.face(h)]
    }

    /// If `marks` marks the face that `h` runs along, it marks the face
    /// across `h` too.
    pub open spec fn marked_across(self, marks: Seq<bool>, h: int) -> bool {
        marks[self.face(h)] ==> marks[self.face(self.twin(h))]
    }

    /// `marks` says of each face whether it is marked, and with a face it
    /// marks the faces across all its half-edges.
    pub open spec fn marks_closed(self, marks: Seq<bool>) -> bool {
        &&& marks.len() == self.faces.len()
        &&& forall|h: int|
            0 <= h < self.halfedges.len() ==> #[trigger] self.marked_across(marks, h)
    }

    /// The mesh is in one piece: marks that are closed and mark the face of
    /// one half-edge mark the face of every half-edge. So every face that has
    /// a half-edge can be reached from every other by going across
    /// half-edges.
    pub open spec fn connected(self) -> bool {
        forall|marks: Seq<bool>, h: int, x: int|
            #[trigger] self.marks_closed(marks) && self.has_edge(h) && #[trigger] self.marked(
                marks,
                h,
            ) && self.has_edge(x) ==> #[trigger] self.marked(marks, x)
    }

    /// Euler's formula for a mesh that covers the plane, the outside counted
    /// as a face: vertices less edges plus faces make two. An edge is two
    /// half-edges.
    pub open spec fn euler(self) -> bool {
        2 * self.vertices.len() + 2 * self.faces.len() == self.halfedges.len() + 4
    }

    /// The mesh invariant: every link leads where it should, every half-edge
    /// lies on the rim of its face, the mesh is in one piece, and Euler's
    /// formula holds.
    pub open spec fn wf(self) -> bool {
        &&& self.links_ok()
        &&& forall|h: int| 0 <= h < self.halfedges.len() ==> #[trigger] self.on_rim(h)
        &&& self.connected()
        &&& self.euler()
    }

    /// What the mesh invariant says of a half-edge `h`, link by link: its
    /// twin is another half-edge whose twin is `h`; `next` and `prev` undo
    /// each other and stay on the face of `h`; three steps along the rim of
    /// a triangle lead back to `h`; `h` starts where the half-edge before it
    /// ends; and the half-edge that stands for the vertex at its end ends
    /// there too.
    pub proof fn lemma_invariants(self, h: int)
        requires
            self.wf(),
            self.has_edge(h),
        ensures
            self.has_edge(self.twin(h)) && self.has_edge(self.next(h)) && self.has_edge(
                self.prev(h),
            ),
            self.has_face(self.face(h)) && self.has_vertex(self.end(h)),
            self.twin(self.twin(h)) == h,
            self.twin(h) != h,
            self.prev(self.next(h)) == h && self.next(self.prev(h)) == h,
            self.face(self.next(h)) == self.face(h) && self.face(self.prev(h)) == self.face(h),
            self.kind(self.face(h)) == FaceType::Normal ==> self.next(self.next(self.next(h))) == h,
            self.kind(self.face(h)) != FaceType::Destroyed,
            self.is_border(h) <==> !(self.kind(self.face(h)) == FaceType::Normal && self.kind(
                self.face(self.twin(h)),
            ) == FaceType::Normal),
            self.start(h) == self.end(self.prev(h)),
            self.has_edge(self.spoke(self.end(h))) && self.end(self.spoke(self.end(h))) == self.end(
                h,
            ),
            self.face_rim(self.face(h)).contains(h),
    {
        assert(self.edge_ok(h));
        assert(self.edge_ok(self.twin(h)));
        assert(self.edge_ok(self.prev(h)));
        assert(self.vertex_ok(self.end(h)));
        assert(self.on_rim(h));
    }
}

} // verus!
