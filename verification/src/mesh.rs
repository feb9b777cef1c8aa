//! The half-edge mesh: arenas of faces, half-edges and vertices that refer to
//! each other by index.

use vstd::prelude::*;
use crate::arena::{Face, FaceType, Halfedge, Vertex, EMPTY};
use crate::model::MeshView;

verus! {

/// A triangle mesh in half-edge form. `P` is what a vertex carries, its
/// point; the mesh itself only stores it.
#[derive(Debug)]
pub struct Mesh<P> {
    faces: Vec<Face>,
    holes: Vec<usize>,
    halfedges: Vec<Halfedge>,
    vertices: Vec<Vertex<P>>,
    boundary: usize,
}

impl<P> View for Mesh<P> {
    type V = MeshView<P>;

    closed spec fn view(&self) -> MeshView<P> {
        MeshView {
            faces: self.faces@,
            halfedges: self.halfedges@,
            vertices: self.vertices@,
            holes: self.holes@,
            boundary: self.boundary,
        }
    }
}

impl<P> Mesh<P> {
    /// The mesh that consists of the single triangle `u1`, `u2`, `u3`, which
    /// the caller gives in counter-clockwise order: one triangle and the
    /// outside, three vertices and six half-edges.
    pub fn triangle(u1: P, u2: P, u3: P) -> (mesh: Mesh<P>)
        ensures
            mesh@ == MeshView::triangle(u1, u2, u3),
            mesh@.wf(),
            mesh@.faces.len() == 2,
            mesh@.boundary == 0,
            mesh@.kind(0) == FaceType::Boundary,
            mesh@.kind(1) == FaceType::Normal,
            mesh@.vertices.len() == 3,
            mesh@.halfedges.len() == 6,
            mesh@.face_rim(1) == seq![0int, 1, 2],
            mesh@.face_rim(0) == seq![3int, 5, 4],
            mesh@.points() == seq![u1, u2, u3],
    {
        let mut mesh = Self::empty();
        let inner_face = mesh.create_face(FaceType::Normal);
        let v1 = mesh.create_vertex(u1);
        let v2 = mesh.create_vertex(u2);
        let v3 = mesh.create_vertex(u3);

        let halfedge1 = mesh.create_halfedge(v1, Some(inner_face));
        let halfedge2 = mesh.create_halfedge(v2, Some(inner_face));
        let halfedge3 = mesh.create_halfedge(v3, Some(inner_face));
        mesh.set_edge_of_vertex(v1, halfedge1);
        mesh.set_edge_of_vertex(v2, halfedge2);
        mesh.set_edge_of_vertex(v3, halfedge3);
        mesh.set_edge_of_face(inner_face, halfedge1);

        let boundary = mesh.boundary;
        let twin1 = mesh.create_halfedge(v3, Some(boundary));
        let twin2 = mesh.create_halfedge(v1, Some(boundary));
        let twin3 = mesh.create_halfedge(v2, Some(boundary));
        mesh.set_edge_of_face(boundary, twin1);

        mesh.set_cycle_and_twins(halfedge1, halfedge2, halfedge3, twin1, twin2, twin3);
        proof {
            let m = MeshView::triangle(u1, u2, u3);
            assert(mesh@.faces =~= m.faces);
            assert(mesh@.halfedges =~= m.halfedges);
            assert(mesh@.vertices =~= m.vertices);
            assert(mesh@.holes =~= m.holes);
            assert(m.points() =~= seq![u1, u2, u3]);
            MeshView::lemma_triangle_wf(u1, u2, u3);
        }
        mesh
    }

    /// Inserts a vertex that carries `p` across the border half-edge
    /// `halfedge`: the new vertex is joined to both ends of `halfedge`, which
    /// makes one new triangle and two new border half-edges. Returns the new
    /// border half-edge that ends at the new vertex.
    pub fn insert(&mut self, halfedge: usize, p: P) -> (border_edge: usize)
        requires
            old(self)@.wf(),
            old(self)@.can_insert(halfedge as int),
        ensures
            final(self)@ == old(self)@.insert(halfedge as int, p),
            final(self)@.wf(),
            border_edge == old(self)@.inserted_border(),
            final(self)@.has_edge(border_edge as int),
            final(self)@.face_rim(old(self)@.face(halfedge as int)).contains(border_edge as int),
            final(self)@.point(final(self)@.end(border_edge as int)) == p,
    {
        proof {
            assert(self@.edge_ok(halfedge as int));
            assert(self@.edge_ok(self@.prev(halfedge as int)));
            assert(self@.edge_ok(self@.next(halfedge as int)));
        }
        let a = self.prev(halfedge);
        let b = self.next(halfedge);
        let border = self.face(halfedge);

        if self.edge_of_face(border) == halfedge {
            self.set_edge_of_face(border, b);
        }
        let face = self.create_face(FaceType::Normal);
        let v = self.create_vertex(p);

        self.set_edge_of_face(face, halfedge);
        self.set_face_of_edge(halfedge, face);

        let end_a = self.vertex(a);
        let end_h = self.vertex(halfedge);
        let e1 = self.create_halfedge(v, Some(face));
        let e2 = self.create_halfedge(end_a, Some(face));
        let t1 = self.create_halfedge(end_h, Some(border));
        let t2 = self.create_halfedge(v, Some(border));
        self.set_edge_of_vertex(v, e1);

        self.set_next(halfedge, e1);
        self.set_next(e1, e2);
        self.set_next(e2, halfedge);
        self.set_prev(halfedge, e2);
        self.set_prev(e2, e1);
        self.set_prev(e1, halfedge);

        self.set_twin(e1, t1);
        self.set_twin(t1, e1);
        self.set_twin(e2, t2);
        self.set_twin(t2, e2);

        self.set_next(a, t2);
        self.set_next(t2, t1);
        self.set_next(t1, b);

        self.set_prev(b, t1);
        self.set_prev(t1, t2);
        self.set_prev(t2, a);

        proof {
            let m = old(self)@.insert(halfedge as int, p);
            assert(self@.halfedges =~= m.halfedges);
            assert(self@.faces =~= m.faces);
            assert(self@.vertices =~= m.vertices);
            assert(self.faces@.len() == self.faces.len());
            assert(self.vertices@.len() == self.vertices.len());
            assert(self.halfedges@.len() == self.halfedges.len());
            old(self)@.lemma_insert_on_border(halfedge as int, p);
        }
        t2
    }

    /// Turns the diagonal `halfedge` of the quadrilateral made by the two
    /// triangles on its sides, so that it joins their apexes.
    pub fn flip(&mut self, halfedge: usize)
        requires
            old(self)@.wf(),
            old(self)@.can_flip(halfedge as int),
        ensures
            final(self)@ == old(self)@.flip(halfedge as int),
            final(self)@.wf(),
            final(self)@.points() == old(self)@.points(),
    {
        proof {
            old(self)@.lemma_quad_distinct(halfedge as int);
            assert(self@.edge_ok(halfedge as int));
            assert(self@.edge_ok(self@.next(halfedge as int)));
            assert(self@.edge_ok(self@.twin(halfedge as int)));
            assert(self@.edge_ok(self@.next(self@.twin(halfedge as int))));
        }
        let a0 = halfedge;
        let a1 = self.next(a0);
        let a2 = self.next(a1);

        let b0 = self.twin(halfedge);
        let b1 = self.next(b0);
        let b2 = self.next(b1);

        let fa = self.face(a0);
        let fb = self.face(b0);

        let va1 = self.vertex(a1);
        let vb1 = self.vertex(b1);

        let va0 = self.vertex(a0);
        let vb0 = self.vertex(b0);

        if self.edge_of_face(fb) == b1 {
            self.set_edge_of_face(fb, a1);
        }
        if self.edge_of_face(fa) == a1 {
            self.set_edge_of_face(fa, b1);
        }
        // each triangle ends, across the diagonal, where the other starts
        assert(self@.end(b2 as int) == va0 && self@.end(a2 as int) == vb0) by {
            assert(old(self)@.edge_ok(a0 as int));
            assert(old(self)@.edge_ok(b0 as int));
        }

        if self.edge_of_vertex(va0) == a0 {
            self.set_edge_of_vertex(va0, b2);
        }
        if self.edge_of_vertex(vb0) == b0 {
            self.set_edge_of_vertex(vb0, a2);
        }
        self.set_vertex(a0, va1);
        self.set_vertex(b0, vb1);

        self.set_cycle(a0, a2, b1);
        self.set_cycle(b0, b2, a1);

        self.set_face(a1, fb);
        self.set_face(b1, fa);

        proof {
            let m = old(self)@.flip(halfedge as int);
            assert(self@.halfedges =~= m.halfedges);
            assert(self@.faces =~= m.faces);
            assert(self@.vertices =~= m.vertices);
            old(self)@.lemma_flip_wf(halfedge as int);
            old(self)@.lemma_flip_keeps_points(halfedge as int);
        }
    }

    /// The face that stands for the outside of the mesh.
    pub fn boundary(&self) -> (face: usize)
        ensures
            face == self@.boundary,
    {
        self.boundary
    }

    /// The half-edge after `halfedge` on the rim of its face.
    pub fn next(&self, halfedge: usize) -> (r: usize)
        requires
            self@.has_edge(halfedge as int),
        ensures
            r == self@.next(halfedge as int),
            self@.wf() ==> self@.has_edge(r as int),
    {
        proof {
            if self@.wf() {
                assert(self@.edge_ok(halfedge as int));
            }
        }
        self.halfedges[halfedge].next
    }

    /// The half-edge before `halfedge` on the rim of its face.
    pub fn prev(&self, halfedge: usize) -> (r: usize)
        requires
            self@.has_edge(halfedge as int),
        ensures
            r == self@.prev(halfedge as int),
            self@.wf() ==> self@.has_edge(r as int),
    {
        proof {
            if self@.wf() {
                assert(self@.edge_ok(halfedge as int));
            }
        }
        self.halfedges[halfedge].prev
    }

    /// The same edge as `halfedge`, seen from the face on its other side.
    pub fn twin(&self, halfedge: usize) -> (r: usize)
        requires
            self@.has_edge(halfedge as int),
        ensures
            r == self@.twin(halfedge as int),
            self@.wf() ==> self@.has_edge(r as int),
    {
        proof {
            if self@.wf() {
                assert(self@.edge_ok(halfedge as int));
            }
        }
        self.halfedges[halfedge].twin
    }

    /// The face that `halfedge` runs along.
    pub fn face(&self, halfedge: usize) -> (r: usize)
        requires
            self@.has_edge(halfedge as int),
        ensures
            r == self@.face(halfedge as int),
            self@.wf() ==> self@.has_face(r as int),
    {
        proof {
            if self@.wf() {
                assert(self@.edge_ok(halfedge as int));
            }
        }
        self.halfedges[halfedge].face
    }

    /// The vertex that `halfedge` ends at.
    pub fn vertex(&self, halfedge: usize) -> (r: usize)
        requires
            self@.has_edge(halfedge as int),
        ensures
            r == self@.end(halfedge as int),
            self@.wf() ==> self@.has_vertex(r as int),
    {
        proof {
            if self@.wf() {
                assert(self@.edge_ok(halfedge as int));
            }
        }
        self.halfedges[halfedge].end
    }

    /// The vertex that `halfedge` ends at; another name for `vertex`.
    pub fn vertex_of_edge(&self, halfedge: usize) -> (r: usize)
        requires
            self@.has_edge(halfedge as int),
        ensures
            r == self@.end(halfedge as int),
            self@.wf() ==> self@.has_vertex(r as int),
    {
        self.vertex(halfedge)
    }

    /// Whether `halfedge` has the outside or a hole on one of its sides.
    pub fn is_border(&self, halfedge: usize) -> (r: bool)
        requires
            self@.wf(),
            self@.has_edge(halfedge as int),
        ensures
            r == self@.is_border(halfedge as int),
    {
        let face = self.face(halfedge);
        let twin_face = self.face(self.twin(halfedge));
        self.is_void(face) || self.is_void(twin_face)
    }

    /// One half-edge that ends at `vertex`.
    pub fn edge_of_vertex(&self, vertex: usize) -> (r: usize)
        requires
            self@.has_vertex(vertex as int),
        ensures
            r == self@.spoke(vertex as int),
            self@.wf() ==> self@.has_edge(r as int) && self@.end(r as int) == vertex,
    {
        proof {
            if self@.wf() {
                assert(self@.vertex_ok(vertex as int));
            }
        }
        self.vertices[vertex].halfedge
    }

    /// One half-edge on the rim of `face`.
    pub fn edge_of_face(&self, face: usize) -> (r: usize)
        requires
            self@.has_face(face as int),
        ensures
            r == self@.rim(face as int),
            self@.wf() && self@.kind(face as int) != FaceType::Destroyed ==> self@.has_edge(
                r as int,
            ) && self@.face(r as int) == face,
    {
        proof {
            if self@.wf() {
                assert(self@.face_ok(face as int));
            }
        }
        self.faces[face].halfedge
    }

    /// The point that `vertex` carries.
    pub fn point_of_vertex(&self, vertex: usize) -> (p: &P)
        requires
            self@.has_vertex(vertex as int),
        ensures
            *p == self@.point(vertex as int),
    {
        &self.vertices[vertex].point
    }

    /// The point at the end of `halfedge`.
    pub fn point_of_edge(&self, halfedge: usize) -> (p: &P)
        requires
            self@.wf(),
            self@.has_edge(halfedge as int),
        ensures
            *p == self@.point(self@.end(halfedge as int)),
    {
        self.point_of_vertex(self.vertex(halfedge))
    }

    /// The kind of `face`.
    pub fn face_type(&self, face: usize) -> (kind: FaceType)
        requires
            self@.has_face(face as int),
        ensures
            kind == self@.kind(face as int),
    {
        self.faces[face].face_type
    }

    /// The number of vertices.
    pub fn number_of_vertices(&self) -> (n: usize)
        ensures
            n == self@.vertices.len(),
    {
        self.vertices.len()
    }

    /// The number of half-edges.
    pub fn number_of_halfedges(&self) -> (n: usize)
        ensures
            n == self@.halfedges.len(),
    {
        self.halfedges.len()
    }

    /// The first triangle of the mesh, if it has one.
    pub fn some_face(&self) -> (r: Option<usize>)
        ensures
            match r {
                Some(f) => self@.is_first_triangle(f as int),
                None => self@.has_no_triangle(),
            },
    {
        let mut i: usize = 0;
        while i < self.faces.len()
            invariant
                i <= self.faces.len(),
                forall|g: int| 0 <= g < i ==> self@.kind(g) != FaceType::Normal,
            decreases self.faces.len() - i,
        {
            if self.faces[i].face_type == FaceType::Normal {
                return Some(i);
            }
            i += 1;
        }
        None
    }

    /// The number of faces of every kind, the outside included.
    pub fn number_of_faces(&self) -> (n: usize)
        ensures
            n == self@.faces.len(),
    {
        self.faces.len()
    }

    /// Whether every record sits at the position that its id names.
    pub fn validate(&self) -> (valid: bool)
        ensures
            valid == self@.ids_match(),
    {
        let mut i: usize = 0;
        while i < self.faces.len()
            invariant
                i <= self.faces.len(),
                forall|f: int| 0 <= f < i ==> (#[trigger] self@.faces[f]).id == f,
            decreases self.faces.len() - i,
        {
            if self.faces[i].id != i {
                assert(self@.faces[i as int].id != i);
                return false;
            }
            i += 1;
        }
        let mut j: usize = 0;
        while j < self.halfedges.len()
            invariant
                j <= self.halfedges.len(),
                forall|f: int| 0 <= f < self@.faces.len() ==> (#[trigger] self@.faces[f]).id == f,
                forall|h: int| 0 <= h < j ==> (#[trigger] self@.halfedges[h]).id == h,
            decreases self.halfedges.len() - j,
        {
            if self.halfedges[j].id != j {
                assert(self@.halfedges[j as int].id != j);
                return false;
            }
            j += 1;
        }
        let mut k: usize = 0;
        while k < self.vertices.len()
            invariant
                k <= self.vertices.len(),
                forall|f: int| 0 <= f < self@.faces.len() ==> (#[trigger] self@.faces[f]).id == f,
                forall|h: int| 0 <= h < self@.halfedges.len() ==> (#[trigger] self@.halfedges[h]).id == h,
                forall|v: int| 0 <= v < k ==> (#[trigger] self@.vertices[v]).id == v,
            decreases self.vertices.len() - k,
        {
            if self.vertices[k].id != k {
                assert(self@.vertices[k as int].id != k);
                return false;
            }
            k += 1;
        }
        true
    }

    fn is_void(&self, face: usize) -> (r: bool)
        requires
            self@.has_face(face as int),
        ensures
            r == self@.is_void(face as int),
    {
        match self.faces[face].face_type {
            FaceType::Boundary => true,
            FaceType::Hole => true,
            _ => false,
        }
    }

    fn empty() -> (mesh: Mesh<P>)
        ensures
            mesh@ == (MeshView::<P> {
                faces: seq![Face { id: 0, halfedge: EMPTY, face_type: FaceType::Boundary }],
                halfedges: Seq::empty(),
                vertices: Seq::empty(),
                holes: Seq::empty(),
                boundary: 0,
            }),
    {
        let mut mesh = Mesh {
            faces: Vec::new(),
            holes: Vec::new(),
            halfedges: Vec::new(),
            vertices: Vec::new(),
            boundary: EMPTY,
        };
        mesh.create_face(FaceType::Boundary);
        proof {
            assert(mesh@.faces =~= seq![Face { id: 0, halfedge: EMPTY, face_type: FaceType::Boundary }]);
        }
        mesh
    }

    fn create_vertex(&mut self, u: P) -> (id: usize)
        ensures
            id == old(self)@.vertices.len(),
            final(self)@ == (MeshView {
                vertices: old(self)@.vertices.push(Vertex { id, halfedge: EMPTY, point: u }),
                ..old(self)@
            }),
    {
        let id = self.vertices.len();
        let vertex = Vertex::empty(id, u);
        self.vertices.push(vertex);
        id
    }

    fn create_halfedge(&mut self, vertex: usize, face: Option<usize>) -> (id: usize)
        ensures
            id == old(self)@.halfedges.len(),
            final(self)@ == (MeshView {
                halfedges: old(self)@.halfedges.push(
                    Halfedge {
                        id,
                        end: vertex,
                        next: EMPTY,
                        prev: EMPTY,
                        twin: EMPTY,
                        face: match face {
                            Some(f) => f,
                            None => EMPTY,
                        },
                    },
                ),
                ..old(self)@
            }),
    {
        let id = self.halfedges.len();
        let mut halfedge = Halfedge::empty(id);
        halfedge.end = vertex;
        halfedge.face = match face {
            Some(f) => f,
            None => EMPTY,
        };
        self.halfedges.push(halfedge);
        id
    }

    fn create_face(&mut self, face_type: FaceType) -> (id: usize)
        requires
            face_type == FaceType::Boundary ==> old(self)@.boundary == EMPTY,
        ensures
            id == old(self)@.faces.len(),
            final(self)@ == (MeshView {
                faces: old(self)@.faces.push(Face { id, halfedge: EMPTY, face_type }),
                holes: if face_type == FaceType::Hole {
                    old(self)@.holes.push(id)
                } else {
                    old(self)@.holes
                },
                boundary: if face_type == FaceType::Boundary {
                    id
                } else {
                    old(self)@.boundary
                },
                ..old(self)@
            }),
    {
        let id = self.faces.len();
        match face_type {
            FaceType::Hole => self.holes.push(id),
            FaceType::Boundary => {
                self.boundary = id;
            },
            _ => {},
        }
        let face = Face::new(id, EMPTY, face_type);
        self.faces.push(face);
        id
    }

    fn set_edge_of_vertex(&mut self, vertex: usize, halfedge: usize)
        requires
            old(self)@.has_vertex(vertex as int),
        ensures
            final(self)@ == (MeshView {
                vertices: old(self)@.vertices.update(
                    vertex as int,
                    Vertex { halfedge, ..old(self)@.vertices[vertex as int] },
                ),
                ..old(self)@
            }),
    {
        self.vertices[vertex].halfedge = halfedge;
    }

    fn set_edge_of_face(&mut self, face: usize, halfedge: usize)
        requires
            old(self)@.has_face(face as int),
        ensures
            final(self)@ == (MeshView {
                faces: old(self)@.faces.update(
                    face as int,
                    Face { halfedge, ..old(self)@.faces[face as int] },
                ),
                ..old(self)@
            }),
    {
        self.faces[face].halfedge = halfedge;
    }

    fn set_vertex(&mut self, halfedge: usize, vertex: usize)
        requires
            old(self)@.has_edge(halfedge as int),
        ensures
            final(self)@ == (MeshView {
                halfedges: old(self)@.halfedges.update(
                    halfedge as int,
                    Halfedge { end: vertex, ..old(self)@.halfedges[halfedge as int] },
                ),
                ..old(self)@
            }),
    {
        self.halfedges[halfedge].end = vertex;
    }

    fn set_face(&mut self, halfedge: usize, face: usize)
        requires
            old(self)@.has_edge(halfedge as int),
        ensures
            final(self)@ == (MeshView {
                halfedges: old(self)@.halfedges.update(
                    halfedge as int,
                    Halfedge { face, ..old(self)@.halfedges[halfedge as int] },
                ),
                ..old(self)@
            }),
    {
        self.halfedges[halfedge].face = face;
    }

    fn set_face_of_edge(&mut self, halfedge: usize, face: usize)
        requires
            old(self)@.has_edge(halfedge as int),
        ensures
            final(self)@ == (MeshView {
                halfedges: old(self)@.halfedges.update(
                    halfedge as int,
                    Halfedge { face, ..old(self)@.halfedges[halfedge as int] },
                ),
                ..old(self)@
            }),
    {
        self.set_face(halfedge, face);
    }

    fn set_next(&mut self, halfedge: usize, next: usize)
        requires
            old(self)@.has_edge(halfedge as int),
        ensures
            final(self)@ == (MeshView {
                halfedges: old(self)@.halfedges.update(
                    halfedge as int,
                    Halfedge { next, ..old(self)@.halfedges[halfedge as int] },
                ),
                ..old(self)@
            }),
    {
        self.halfedges[halfedge].next = next;
    }

    fn set_prev(&mut self, halfedge: usize, prev: usize)
        requires
            old(self)@.has_edge(halfedge as int),
        ensures
            final(self)@ == (MeshView {
                halfedges: old(self)@.halfedges.update(
                    halfedge as int,
                    Halfedge { prev, ..old(self)@.halfedges[halfedge as int] },
                ),
                ..old(self)@
            }),
    {
        self.halfedges[halfedge].prev = prev;
    }

    fn set_twin(&mut self, halfedge: usize, twin: usize)
        requires
            old(self)@.has_edge(halfedge as int),
        ensures
            final(self)@ == (MeshView {
                halfedges: old(self)@.halfedges.update(
                    halfedge as int,
                    Halfedge { twin, ..old(self)@.halfedges[halfedge as int] },
                ),
                ..old(self)@
            }),
    {
        self.halfedges[halfedge].twin = twin;
    }

    fn set_twins(&mut self, a: usize, b: usize)
        requires
            old(self)@.has_edge(a as int),
            old(self)@.has_edge(b as int),
        ensures
            final(self)@ == (MeshView {
                halfedges: old(self)@.halfedges.update(
                    a as int,
                    Halfedge { twin: b, ..old(self)@.halfedges[a as int] },
                ).update(
                    b as int,
                    Halfedge {
                        twin: a,
                        ..old(self)@.halfedges.update(
                            a as int,
                            Halfedge { twin: b, ..old(self)@.halfedges[a as int] },
                        )[b as int]
                    },
                ),
                ..old(self)@
            }),
    {
        self.set_twin(a, b);
        self.set_twin(b, a);
    }

    /// Links `a`, `b`, `c` into a rim that runs `a`, `b`, `c` and back to `a`.
    fn set_cycle(&mut self, a: usize, b: usize, c: usize)
        requires
            old(self)@.has_edge(a as int),
            old(self)@.has_edge(b as int),
            old(self)@.has_edge(c as int),
            a != b && b != c && a != c,
        ensures
            final(self)@ == (MeshView {
                halfedges: old(self)@.halfedges.update(
                    a as int,
                    Halfedge { next: b, prev: c, ..old(self)@.halfedges[a as int] },
                ).update(
                    b as int,
                    Halfedge { next: c, prev: a, ..old(self)@.halfedges[b as int] },
                ).update(
                    c as int,
                    Halfedge { next: a, prev: b, ..old(self)@.halfedges[c as int] },
                ),
                ..old(self)@
            }),
    {
        self.set_next(a, b);
        self.set_next(b, c);
        self.set_next(c, a);

        self.set_prev(a, c);
        self.set_prev(b, a);
        self.set_prev(c, b);
        proof {
            let e = old(self)@.halfedges;
            assert(self@.halfedges =~= e.update(
                a as int,
                Halfedge { next: b, prev: c, ..e[a as int] },
            ).update(b as int, Halfedge { next: c, prev: a, ..e[b as int] }).update(
                c as int,
                Halfedge { next: a, prev: b, ..e[c as int] },
            ));
        }
    }

    fn set_cycle_and_twins(
        &mut self,
        a: usize,
        b: usize,
        c: usize,
        ta: usize,
        tb: usize,
        tc: usize,
    )
        requires
            old(self)@.halfedges.len() == 6,
            a == 0 && b == 1 && c == 2 && ta == 3 && tb == 4 && tc == 5,
        ensures
            final(self)@.faces == old(self)@.faces,
            final(self)@.vertices == old(self)@.vertices,
            final(self)@.holes == old(self)@.holes,
            final(self)@.boundary == old(self)@.boundary,
            final(self)@.halfedges.len() == 6,
            forall|i: int|
                0 <= i < 6 ==> {
                    let n = #[trigger] final(self)@.halfedges[i];
                    let o = old(self)@.halfedges[i];
                    &&& n.id == o.id
                    &&& n.end == o.end
                    &&& n.face == o.face
                    &&& n.twin == (if i < 3 {
                        i + 3
                    } else {
                        i - 3
                    })
                    &&& n.next == (if i < 3 {
                        (i + 1) % 3
                    } else {
                        3 + (i - 3 + 2) % 3
                    })
                    &&& n.prev == (if i < 3 {
                        (i + 2) % 3
                    } else {
                        3 + (i - 3 + 1) % 3
                    })
                },
    {
        self.set_cycle(a, b, c);
        self.set_cycle(ta, tc, tb);
        self.set_twins(a, ta);
        self.set_twins(b, tb);
        self.set_twins(c, tc);
    }
}

} // verus!
