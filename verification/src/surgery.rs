//! The three operations that build and reshape a mesh, stated on the model:
//! the seed triangle, the insertion of a vertex across a border edge, and the
//! flip of the diagonal between two triangles. Each keeps the mesh invariant.

use vstd::prelude::*;
use crate::arena::{Face, FaceType, Halfedge, Vertex};
use crate::model::MeshView;

verus! {

impl<P> MeshView<P> {
    /// The mesh that consists of the single triangle `u1`, `u2`, `u3`.
    ///
    /// Half-edges 0, 1, 2 run around the triangle and end at vertices 0, 1, 2;
    /// half-edges 3, 4, 5 are their twins and run around the outside the
    /// other way. Face 0 is the outside, face 1 the triangle.
    pub open spec fn triangle(u1: P, u2: P, u3: P) -> MeshView<P> {
        MeshView {
            faces: seq![
                Face { id: 0, halfedge: 3, face_type: FaceType::Boundary },
                Face { id: 1, halfedge: 0, face_type: FaceType::Normal },
            ],
            halfedges: seq![
                Halfedge { id: 0, end: 0, next: 1, prev: 2, twin: 3, face: 1 },
                Halfedge { id: 1, end: 1, next: 2, prev: 0, twin: 4, face: 1 },
                Halfedge { id: 2, end: 2, next: 0, prev: 1, twin: 5, face: 1 },
                Halfedge { id: 3, end: 2, next: 5, prev: 4, twin: 0, face: 0 },
                Halfedge { id: 4, end: 0, next: 3, prev: 5, twin: 1, face: 0 },
                Halfedge { id: 5, end: 1, next: 4, prev: 3, twin: 2, face: 0 },
            ],
            vertices: seq![
                Vertex { id: 0, halfedge: 0, point: u1 },
                Vertex { id: 1, halfedge: 1, point: u2 },
                Vertex { id: 2, halfedge: 2, point: u3 },
            ],
            holes: Seq::empty(),
            boundary: 0,
        }
    }

    /// Whether the diagonal `h` can be flipped: it separates two different
    /// triangles.
    pub open spec fn can_flip(self, h: int) -> bool {
        self.has_edge(h) && self.is_interior(h)
    }

    /// The half-edges after the diagonal `h` of the quadrilateral around it
    /// has been turned to join the two apexes.
    ///
    /// With `a0 = h`, `a1`, `a2` the rim of the one triangle and `b0 =
    /// twin(h)`, `b1`, `b2` the rim of the other, the rims become `a0, a2, b1`
    /// and `b0, b2, a1`; `a0` now ends at the apex that `a1` ends at, `b0` at
    /// the apex that `b1` ends at.
    pub open spec fn flip_halfedges(self, h: int) -> Seq<Halfedge> {
        let a0 = h;
        let a1 = self.next(a0);
        let a2 = self.next(a1);
        let b0 = self.twin(h);
        let b1 = self.next(b0);
        let b2 = self.next(b1);
        let e = self.halfedges;
        e.update(a0, Halfedge { end: e[a1].end, next: a2 as usize, prev: b1 as usize, ..e[a0] })
            .update(a2, Halfedge { next: b1 as usize, prev: a0 as usize, ..e[a2] })
            .update(b1, Halfedge { next: a0 as usize, prev: a2 as usize, face: e[a0].face, ..e[b1] })
            .update(b0, Halfedge { end: e[b1].end, next: b2 as usize, prev: a1 as usize, ..e[b0] })
            .update(b2, Halfedge { next: a1 as usize, prev: b0 as usize, ..e[b2] })
            .update(a1, Halfedge { next: b0 as usize, prev: b2 as usize, face: e[b0].face, ..e[a1] })
    }

    /// The faces after the flip of `h`: a face whose rim was named by a
    /// half-edge that moved to the other triangle is named by the half-edge
    /// that took its place.
    pub open spec fn flip_faces(self, h: int) -> Seq<Face> {
        let a1 = self.next(h);
        let b0 = self.twin(h);
        let b1 = self.next(b0);
        let fa = self.face(h);
        let fb = self.face(b0);
        let renamed = if self.rim(fb) == b1 {
            self.faces.update(fb, Face { halfedge: a1 as usize, ..self.faces[fb] })
        } else {
            self.faces
        };
        if renamed[fa].halfedge == a1 {
            renamed.update(fa, Face { halfedge: b1 as usize, ..renamed[fa] })
        } else {
            renamed
        }
    }

    /// The vertices after the flip of `h`: a vertex that was represented by
    /// `h` or its twin, which no longer end there, is represented by the
    /// half-edge of the same triangle that still does.
    pub open spec fn flip_vertices(self, h: int) -> Seq<Vertex<P>> {
        let a2 = self.next(self.next(h));
        let b0 = self.twin(h);
        let b2 = self.next(self.next(b0));
        let va0 = self.end(h);
        let vb0 = self.end(b0);
        let first = if self.spoke(va0) == h {
            self.vertices.update(va0, Vertex { halfedge: b2 as usize, ..self.vertices[va0] })
        } else {
            self.vertices
        };
        if first[vb0].halfedge == b0 {
            first.update(vb0, Vertex { halfedge: a2 as usize, ..first[vb0] })
        } else {
            first
        }
    }

    /// The mesh after the flip of the diagonal `h`.
    pub open spec fn flip(self, h: int) -> MeshView<P> {
        MeshView {
            faces: self.flip_faces(h),
            halfedges: self.flip_halfedges(h),
            vertices: self.flip_vertices(h),
            holes: self.holes,
            boundary: self.boundary,
        }
    }

    /// Whether a vertex can be inserted across `h`: it runs along the rim of
    /// the outside or of a hole.
    pub open spec fn can_insert(self, h: int) -> bool {
        self.has_edge(h) && self.is_void(self.face(h))
    }

    /// The half-edges after a vertex has been inserted across the border
    /// half-edge `h`.
    ///
    /// `h` becomes the first side of a new triangle; the four new half-edges
    /// are its other two sides `e1` (from the head of `h` to the new vertex)
    /// and `e2` (from the new vertex to the tail of `h`), and their twins `t1`
    /// and `t2`, which take the place of `h` on the rim it was on.
    pub open spec fn insert_halfedges(self, h: int) -> Seq<Halfedge> {
        let a = self.prev(h);
        let b = self.next(h);
        let border = self.halfedges[h].face;
        let face = self.faces.len() as usize;
        let v = self.vertices.len() as usize;
        let e1 = self.halfedges.len() as usize;
        let e2 = (self.halfedges.len() + 1) as usize;
        let t1 = (self.halfedges.len() + 2) as usize;
        let t2 = (self.halfedges.len() + 3) as usize;
        let e = self.halfedges;
        let with_h = e.update(h, Halfedge { next: e1, prev: e2, face, ..e[h] });
        let with_a = with_h.update(a, Halfedge { next: t2, ..with_h[a] });
        let with_b = with_a.update(b, Halfedge { prev: t1, ..with_a[b] });
        with_b.push(Halfedge { id: e1, end: v, next: e2, prev: h as usize, twin: t1, face })
            .push(Halfedge { id: e2, end: e[a].end, next: h as usize, prev: e1, twin: t2, face })
            .push(Halfedge { id: t1, end: e[h].end, next: b as usize, prev: t2, twin: e1, face: border })
            .push(Halfedge { id: t2, end: v, next: t1, prev: a as usize, twin: e2, face: border })
    }

    /// The faces after an insertion across `h`: the new triangle is added,
    /// and the face that `h` was on is named by the half-edge after `h` if it
    /// was named by `h`.
    pub open spec fn insert_faces(self, h: int) -> Seq<Face> {
        let border = self.face(h);
        let renamed = if self.rim(border) == h {
            self.faces.update(
                border,
                Face { halfedge: self.halfedges[h].next, ..self.faces[border] },
            )
        } else {
            self.faces
        };
        renamed.push(
            Face { id: self.faces.len() as usize, halfedge: h as usize, face_type: FaceType::Normal },
        )
    }

    /// The mesh after a vertex that carries `p` has been inserted across the
    /// border half-edge `h`.
    pub open spec fn insert(self, h: int, p: P) -> MeshView<P> {
        MeshView {
            faces: self.insert_faces(h),
            halfedges: self.insert_halfedges(h),
            vertices: self.vertices.push(
                Vertex {
                    id: self.vertices.len() as usize,
                    halfedge: self.halfedges.len() as usize,
                    point: p,
                },
            ),
            holes: self.holes,
            boundary: self.boundary,
        }
    }

    /// The new border half-edge that ends at the vertex inserted across `h`.
    pub open spec fn inserted_border(self) -> int {
        (self.halfedges.len() + 3) as int
    }

    /// The seed triangle is a mesh: its triangle is walked 0, 1, 2, the
    /// outside 3, 5, 4.
    pub proof fn lemma_triangle_wf(u1: P, u2: P, u3: P)
        ensures
            Self::triangle(u1, u2, u3).wf(),
            Self::triangle(u1, u2, u3).face_rim(1) == seq![0int, 1, 2],
            Self::triangle(u1, u2, u3).face_rim(0) == seq![3int, 5, 4],
    {
        let m = Self::triangle(u1, u2, u3);
        assert(m.edge_ok(0) && m.edge_ok(1) && m.edge_ok(2));
        assert(m.edge_ok(3) && m.edge_ok(4) && m.edge_ok(5));
        assert(m.face_ok(0) && m.face_ok(1));
        assert(m.vertex_ok(0) && m.vertex_ok(1) && m.vertex_ok(2));
        m.lemma_rim_is(0, seq![0int, 1, 2]);
        m.lemma_rim_is(3, seq![3int, 5, 4]);
        assert(seq![0int, 1, 2][0] == 0 && seq![0int, 1, 2][1] == 1 && seq![0int, 1, 2][2] == 2);
        assert(seq![3int, 5, 4][0] == 3 && seq![3int, 5, 4][1] == 5 && seq![3int, 5, 4][2] == 4);
        assert(m.on_rim(0) && m.on_rim(1) && m.on_rim(2));
        assert(m.on_rim(3) && m.on_rim(4) && m.on_rim(5));
        assert forall|marks: Seq<bool>, h: int, x: int|
            #[trigger] m.marks_closed(marks) && m.has_edge(h) && #[trigger] m.marked(marks, h)
                && m.has_edge(x) implies #[trigger] m.marked(marks, x) by {
            assert(m.marked_across(marks, 0));
            assert(m.marked_across(marks, 3));
        }
    }

    /// An insertion keeps every link in order.
    pub proof fn lemma_insert_links(self, h: int, p: P)
        requires
            self.links_ok(),
            self.can_insert(h),
            self.halfedges.len() + 4 <= usize::MAX,
            self.faces.len() + 1 <= usize::MAX,
            self.vertices.len() + 1 <= usize::MAX,
        ensures
            self.insert(h, p).links_ok(),
    {
        let m = self.insert(h, p);
        let a = self.prev(h);
        let b = self.next(h);
        let border = self.face(h);
        let n = self.halfedges.len() as int;
        let e1 = n;
        let e2 = n + 1;
        let t1 = n + 2;
        let t2 = n + 3;
        let f = self.faces.len() as int;
        let v = self.vertices.len() as int;
        assert(self.edge_ok(h));
        assert(self.edge_ok(a));
        assert(self.edge_ok(b));
        assert(self.face_ok(border));
        assert(self.edge_ok(self.rim(border)));
        assert(a != h && b != h);
        assert(self.face(a) == border && self.face(b) == border);
        assert(m.halfedges.len() == n + 4);
        assert(m.faces.len() == f + 1);
        assert(m.vertices.len() == v + 1);
        assert forall|x: int| 0 <= x < f implies m.kind(x) == self.kind(x) by {}
        assert(m.kind(f) == FaceType::Normal);
        assert forall|x: int| 0 <= x < n implies (#[trigger] m.halfedges[x]).twin
            == self.halfedges[x].twin && m.halfedges[x].end == self.halfedges[x].end
            && m.halfedges[x].id == self.halfedges[x].id by {}
        assert forall|x: int| 0 <= x < n && x != h && x != a && x != b implies #[trigger] m.halfedges[x]
            == self.halfedges[x] by {}
        assert(m.edge_ok(h));
        assert(m.edge_ok(a));
        assert(m.edge_ok(b));
        assert(m.edge_ok(e1));
        assert(m.edge_ok(e2));
        assert(m.edge_ok(t1));
        assert(m.edge_ok(t2));
        assert forall|x: int| 0 <= x < m.halfedges.len() implies #[trigger] m.edge_ok(x) by {
            if x < n && x != h && x != a && x != b {
                let nx = self.next(x);
                let px = self.prev(x);
                let tx = self.twin(x);
                let fx = self.face(x);
                assert(self.edge_ok(x));
                assert(self.edge_ok(nx));
                assert(self.edge_ok(px));
                assert(self.edge_ok(tx));
                assert(self.face_ok(fx));
                assert(nx != h && nx != b);
                assert(px != h && px != a);
                assert(m.prev(nx) == self.prev(nx));
                assert(m.next(px) == self.next(px));
                assert(m.face(nx) == self.face(nx));
                if self.kind(fx) == FaceType::Normal {
                    let r = self.rim(fx);
                    let nr = self.next(r);
                    let nnx = self.next(nx);
                    assert(fx != border);
                    assert(self.edge_ok(r));
                    assert(self.edge_ok(nr));
                    assert(self.edge_ok(nnx));
                    assert(nx != a && nnx != h && nnx != a && nnx != b);
                    assert(r != h && r != a && r != b);
                    assert(nr != h && nr != a && nr != b);
                    assert(m.rim(fx) == r);
                }
            }
        }
        assert forall|x: int| 0 <= x < m.faces.len() implies #[trigger] m.face_ok(x) by {
            if x < f {
                assert(self.face_ok(x));
                if self.kind(x) != FaceType::Destroyed && x != border {
                    assert(self.edge_ok(self.rim(x)));
                }
            }
        }
        assert forall|x: int| 0 <= x < m.vertices.len() implies #[trigger] m.vertex_ok(x) by {
            if x < v {
                assert(self.vertex_ok(x));
            }
        }
        assert(m.ids_match());
    }

    /// The six half-edges around a diagonal that can be flipped are six
    /// different half-edges, three on the rim of each triangle.
    pub proof fn lemma_quad_distinct(self, h: int)
        requires
            self.links_ok(),
            self.can_flip(h),
        ensures
            ({
                let a0 = h;
                let a1 = self.next(a0);
                let a2 = self.next(a1);
                let b0 = self.twin(h);
                let b1 = self.next(b0);
                let b2 = self.next(b1);
                &&& self.has_edge(a1) && self.has_edge(a2) && self.has_edge(b0) && self.has_edge(b1)
                    && self.has_edge(b2)
                &&& a0 != a1 && a0 != a2 && a1 != a2
                &&& b0 != b1 && b0 != b2 && b1 != b2
                &&& a0 != b0 && a0 != b1 && a0 != b2
                &&& a1 != b0 && a1 != b1 && a1 != b2
                &&& a2 != b0 && a2 != b1 && a2 != b2
                &&& self.next(a2) == a0 && self.next(b2) == b0
                &&& self.prev(a0) == a2 && self.prev(a1) == a0 && self.prev(a2) == a1
                &&& self.prev(b0) == b2 && self.prev(b1) == b0 && self.prev(b2) == b1
                &&& self.face(a1) == self.face(a0) && self.face(a2) == self.face(a0)
                &&& self.face(b1) == self.face(b0) && self.face(b2) == self.face(b0)
                &&& self.twin(b0) == a0
                &&& self.end(a2) == self.end(b0) && self.end(b2) == self.end(a0)
            }),
    {
        let a0 = h;
        let a1 = self.next(a0);
        let a2 = self.next(a1);
        let b0 = self.twin(h);
        let b1 = self.next(b0);
        let b2 = self.next(b1);
        assert(self.edge_ok(a0));
        assert(self.edge_ok(a1));
        assert(self.edge_ok(a2));
        assert(self.edge_ok(b0));
        assert(self.edge_ok(b1));
        assert(self.edge_ok(b2));
    }

    /// The half-edges after a flip, one by one: the six around the diagonal,
    /// and all the others, which are as they were.
    pub proof fn lemma_flip_halfedges(self, h: int)
        requires
            self.links_ok(),
            self.can_flip(h),
        ensures
            ({
                let a0 = h;
                let a1 = self.next(a0);
                let a2 = self.next(a1);
                let b0 = self.twin(h);
                let b1 = self.next(b0);
                let b2 = self.next(b1);
                let e = self.halfedges;
                let n = self.flip_halfedges(h);
                &&& n.len() == e.len()
                &&& n[a0] == (Halfedge { end: e[a1].end, next: a2 as usize, prev: b1 as usize, ..e[a0] })
                &&& n[a2] == (Halfedge { next: b1 as usize, prev: a0 as usize, ..e[a2] })
                &&& n[b1] == (Halfedge { next: a0 as usize, prev: a2 as usize, face: e[a0].face, ..e[b1] })
                &&& n[b0] == (Halfedge { end: e[b1].end, next: b2 as usize, prev: a1 as usize, ..e[b0] })
                &&& n[b2] == (Halfedge { next: a1 as usize, prev: b0 as usize, ..e[b2] })
                &&& n[a1] == (Halfedge { next: b0 as usize, prev: b2 as usize, face: e[b0].face, ..e[a1] })
                &&& forall|x: int|
                    0 <= x < e.len() && x != a0 && x != a1 && x != a2 && x != b0 && x != b1 && x
                        != b2 ==> #[trigger] n[x] == e[x]
            }),
    {
        self.lemma_quad_distinct(h);
    }

    /// A flip moves no vertex: every vertex carries the point it carried.
    pub proof fn lemma_flip_keeps_points(self, h: int)
        requires
            self.links_ok(),
            self.can_flip(h),
        ensures
            self.flip(h).vertices.len() == self.vertices.len(),
            self.flip(h).points() == self.points(),
            forall|v: int|
                0 <= v < self.vertices.len() ==> #[trigger] self.flip(h).point(v) == self.point(v),
    {
        assert(self.edge_ok(h));
        assert(self.edge_ok(self.twin(h)));
        assert(self.flip(h).points() =~= self.points());
    }

    /// A flip makes no face and changes the kind of none.
    pub proof fn lemma_flip_keeps_kinds(self, h: int)
        requires
            self.links_ok(),
            self.can_flip(h),
        ensures
            self.flip(h).faces.len() == self.faces.len(),
            self.flip(h).halfedges.len() == self.halfedges.len(),
            self.flip(h).boundary == self.boundary,
            forall|f: int| 0 <= f < self.faces.len() ==> #[trigger] self.flip(h).kind(f) == self.kind(f),
    {
        assert(self.edge_ok(h));
        assert(self.edge_ok(self.twin(h)));
        self.lemma_flip_halfedges(h);
    }

    /// A flip keeps every link in order.
    pub proof fn lemma_flip_links(self, h: int)
        requires
            self.links_ok(),
            self.can_flip(h),
        ensures
            self.flip(h).links_ok(),
    {
        let m = self.flip(h);
        let a0 = h;
        let a1 = self.next(a0);
        let a2 = self.next(a1);
        let b0 = self.twin(h);
        let b1 = self.next(b0);
        let b2 = self.next(b1);
        let fa = self.face(a0);
        let fb = self.face(b0);
        self.lemma_quad_distinct(h);
        self.lemma_flip_halfedges(h);
        assert(self.edge_ok(a0));
        assert(self.edge_ok(a1));
        assert(self.edge_ok(a2));
        assert(self.edge_ok(b0));
        assert(self.edge_ok(b1));
        assert(self.edge_ok(b2));
        assert(self.face_ok(fa));
        assert(self.face_ok(fb));
        assert(self.edge_ok(self.rim(fa)));
        assert(self.edge_ok(self.rim(fb)));
        assert(m.faces.len() == self.faces.len());
        assert(m.vertices.len() == self.vertices.len());
        assert forall|f: int| 0 <= f < m.faces.len() implies m.kind(f) == self.kind(f) by {}
        // the rims of the two triangles after the flip
        assert(m.rim(fa) == a0 || m.rim(fa) == a2 || m.rim(fa) == b1);
        assert(m.rim(fb) == b0 || m.rim(fb) == b2 || m.rim(fb) == a1);
        assert forall|f: int| 0 <= f < m.faces.len() && f != fa && f != fb implies m.rim(f)
            == self.rim(f) by {}
        assert(m.edge_ok(a0));
        assert(m.edge_ok(a1));
        assert(m.edge_ok(a2));
        assert(m.edge_ok(b0));
        assert(m.edge_ok(b1));
        assert(m.edge_ok(b2));
        assert forall|x: int| 0 <= x < m.halfedges.len() implies #[trigger] m.edge_ok(x) by {
            if x != a0 && x != a1 && x != a2 && x != b0 && x != b1 && x != b2 {
                let nx = self.next(x);
                let px = self.prev(x);
                let tx = self.twin(x);
                let f = self.face(x);
                assert(self.edge_ok(x));
                assert(self.edge_ok(nx));
                assert(self.edge_ok(px));
                assert(self.edge_ok(tx));
                assert(self.face_ok(f));
                assert(nx != a0 && nx != a1 && nx != a2 && nx != b0 && nx != b1 && nx != b2);
                assert(px != a0 && px != a1 && px != a2 && px != b0 && px != b1 && px != b2);
                assert(tx != a0 && tx != b0);
                assert(m.halfedges[x] == self.halfedges[x]);
                assert(m.halfedges[nx] == self.halfedges[nx]);
                assert(m.halfedges[px] == self.halfedges[px]);
                assert(m.twin(tx) == self.twin(tx));
                assert(m.end(tx) == self.end(tx));
                if self.kind(f) == FaceType::Normal {
                    let r = self.rim(f);
                    assert(self.edge_ok(r));
                    assert(self.edge_ok(self.next(r)));
                    assert(f != fa && f != fb);
                    let nnx = self.next(nx);
                    assert(self.edge_ok(nnx));
                    assert(nnx != a0 && nnx != a1 && nnx != a2 && nnx != b0 && nnx != b1 && nnx != b2);
                    assert(m.halfedges[nnx] == self.halfedges[nnx]);
                    assert(m.rim(f) == r);
                    let nr = self.next(r);
                    assert(self.face(r) == f);
                    assert(r != a0 && r != a1 && r != a2 && r != b0 && r != b1 && r != b2);
                    assert(nr != a0 && nr != a1 && nr != a2 && nr != b0 && nr != b1 && nr != b2);
                    assert(m.halfedges[r] == self.halfedges[r]);
                    assert(m.halfedges[nr] == self.halfedges[nr]);
                }
            }
        }
        assert forall|f: int| 0 <= f < m.faces.len() implies #[trigger] m.face_ok(f) by {
            assert(self.face_ok(f));
            if self.kind(f) != FaceType::Destroyed && f != fa && f != fb {
                let r = self.rim(f);
                assert(self.edge_ok(r));
                assert(r != a0 && r != a1 && r != a2 && r != b0 && r != b1 && r != b2);
            }
        }
        assert forall|v: int| 0 <= v < m.vertices.len() implies #[trigger] m.vertex_ok(v) by {
            assert(self.vertex_ok(v));
            assert(self.vertex_ok(self.end(a0)));
            assert(self.vertex_ok(self.end(b0)));
            let s = self.spoke(v);
            assert(self.edge_ok(s));
        }
        assert(m.ids_match());
    }

    /// The rim of a face is what it was if none of its half-edges has got a
    /// new `next`, and the face is still named by the same half-edge.
    pub proof fn lemma_rim_kept(self, after: MeshView<P>, f: int)
        requires
            self.links_ok(),
            self.has_face(f),
            self.kind(f) != FaceType::Destroyed,
            after.rim(f) == self.rim(f),
            forall|x: int|
                0 <= x < self.halfedges.len() && self.face(x) == f ==> after.next(x)
                    == #[trigger] self.next(x),
        ensures
            after.face_rim(f) == self.face_rim(f),
    {
        let r0 = self.rim(f);
        assert(self.face_ok(f));
        self.lemma_rim_once_around(r0);
        let r = self.rim_of(r0);
        assert forall|j: int| 0 <= j < r.len() - 1 implies after.next(#[trigger] r[j]) == r[j
            + 1] by {
            assert(self.next(r[j]) == r[j + 1]);
        }
        assert(after.next(r.last()) == self.next(r.last()));
        after.lemma_rim_is(r0, r);
    }

    /// A half-edge of a triangle lies on the rim of its triangle.
    pub proof fn lemma_triangle_edge_on_rim(self, x: int)
        requires
            self.links_ok(),
            self.has_edge(x),
            self.kind(self.face(x)) == FaceType::Normal,
        ensures
            self.on_rim(x),
    {
        let f = self.face(x);
        assert(self.edge_ok(x));
        assert(self.face_ok(f));
        let r0 = self.rim(f);
        self.lemma_triangle_rim(r0);
        let r = seq![r0, self.next(r0), self.next(self.next(r0))];
        assert(r[0] == r0 && r[1] == self.next(r0) && r[2] == self.next(self.next(r0)));
    }

    /// A flip keeps the mesh invariant.
    pub proof fn lemma_flip_wf(self, h: int)
        requires
            self.wf(),
            self.can_flip(h),
        ensures
            self.flip(h).wf(),
    {
        let m = self.flip(h);
        self.lemma_flip_links(h);
        self.lemma_quad_distinct(h);
        self.lemma_flip_halfedges(h);
        self.lemma_flip_connected(h);
        let fa = self.face(h);
        let fb = self.face(self.twin(h));
        assert(self.edge_ok(h));
        assert(self.edge_ok(self.twin(h)));
        assert forall|x: int| 0 <= x < m.halfedges.len() implies #[trigger] m.on_rim(x) by {
            let f = m.face(x);
            assert(m.edge_ok(x));
            assert(m.kind(f) == self.kind(f));
            if m.kind(f) == FaceType::Normal {
                m.lemma_triangle_edge_on_rim(x);
            } else {
                self.lemma_flip_keeps_voids(h, f);
                assert(self.edge_ok(x));
                assert(self.face_ok(self.face(x)));
                if self.kind(self.face(x)) == FaceType::Normal {
                    assert(self.edge_ok(self.rim(self.face(x))));
                    assert(self.edge_ok(self.next(self.rim(self.face(x)))));
                }
                assert(self.face(x) == f);
                assert(self.on_rim(x));
            }
        }
    }

    /// A flip keeps the mesh in one piece: the two triangles that change
    /// half-edges lie across the diagonal from each other.
    pub proof fn lemma_flip_connected(self, h: int)
        requires
            self.links_ok(),
            self.connected(),
            self.can_flip(h),
        ensures
            self.flip(h).connected(),
    {
        let m = self.flip(h);
        let t = self.twin(h);
        let fa = self.face(h);
        let fb = self.face(t);
        self.lemma_quad_distinct(h);
        self.lemma_flip_halfedges(h);
        assert(self.edge_ok(h));
        assert(self.edge_ok(t));
        assert forall|marks: Seq<bool>, y: int, x: int|
            #[trigger] m.marks_closed(marks) && m.has_edge(y) && #[trigger] m.marked(marks, y)
                && m.has_edge(x) implies #[trigger] m.marked(marks, x) by {
            assert(m.marked_across(marks, h));
            assert(m.marked_across(marks, t));
            assert(marks[fa] == marks[fb]);
            assert forall|z: int| 0 <= z < self.halfedges.len() implies marks[m.face(z)]
                == marks[#[trigger] self.face(z)] by {
                assert(self.edge_ok(z));
            }
            assert forall|z: int| 0 <= z < self.halfedges.len() implies #[trigger] self.marked_across(
                marks,
                z,
            ) by {
                assert(self.edge_ok(z));
                assert(m.marked_across(marks, z));
                assert(m.twin(z) == self.twin(z));
                assert(marks[m.face(self.twin(z))] == marks[self.face(self.twin(z))]);
            }
            assert(self.marks_closed(marks));
            assert(self.marked(marks, y));
            assert(self.marked(marks, x));
        }
    }

    /// A flip leaves the rims of the outside and of the holes as they were.
    pub proof fn lemma_flip_keeps_voids(self, h: int, f: int)
        requires
            self.links_ok(),
            self.can_flip(h),
            self.has_face(f),
            self.is_void(f),
        ensures
            self.flip(h).face_rim(f) == self.face_rim(f),
    {
        let m = self.flip(h);
        self.lemma_quad_distinct(h);
        self.lemma_flip_halfedges(h);
        assert(self.edge_ok(h));
        assert(self.edge_ok(self.twin(h)));
        assert forall|x: int| 0 <= x < self.halfedges.len() && self.face(x) == f implies m.next(x)
            == #[trigger] self.next(x) by {
            assert(m.halfedges[x] == self.halfedges[x]);
        }
        self.lemma_rim_kept(m, f);
    }

    /// After an insertion across `h`, the rim that `h` was on runs as before
    /// from the half-edge after `h` up to the one before `h`, and then along
    /// the two new border half-edges.
    pub proof fn lemma_insert_rim(self, h: int, p: P)
        requires
            self.wf(),
            self.can_insert(h),
            self.halfedges.len() + 4 <= usize::MAX,
            self.faces.len() + 1 <= usize::MAX,
            self.vertices.len() + 1 <= usize::MAX,
        ensures
            self.rim_of(self.next(h)).last() == h,
            self.insert(h, p).rim_of(self.next(h)) == self.rim_of(self.next(h)).drop_last().push(
                self.halfedges.len() as int + 3,
            ).push(self.halfedges.len() as int + 2),
    {
        let m = self.insert(h, p);
        let a = self.prev(h);
        let b = self.next(h);
        let n = self.halfedges.len() as int;
        assert(self.edge_ok(h));
        assert(self.edge_ok(a));
        assert(self.edge_ok(b));
        self.lemma_rim_once_around(b);
        let q = self.rim_of(b);
        let len = q.len() as int;
        assert(self.edge_ok(q.last()));
        assert(q.last() == h);
        assert(len >= 2);
        assert(self.next(q[len - 2]) == q[len - 2 + 1]);
        assert(self.edge_ok(q[len - 2]));
        assert(q[len - 2] == a);
        let s = q.drop_last().push(n + 3).push(n + 2);
        assert(s.len() == len + 1);
        assert forall|j: int| 0 <= j < s.len() - 1 implies m.next(#[trigger] s[j]) == s[j + 1] by {
            if j < len - 2 {
                assert(s[j] == q[j] && s[j + 1] == q[j + 1]);
                assert(self.next(q[j]) == q[j + 1]);
                assert(q[j] != q[len - 1] && q[j] != q[len - 2]);
                assert(m.halfedges[q[j]].next == self.halfedges[q[j]].next);
            } else if j == len - 2 {
                assert(s[j] == a && s[j + 1] == n + 3);
            } else {
                assert(s[j] == n + 3 && s[j + 1] == n + 2);
            }
        }
        assert(s.last() == n + 2);
        assert forall|j: int| 0 < j < s.len() implies #[trigger] s[j] != b by {
            if j < len - 1 {
                assert(s[j] == q[j]);
                assert(q[j] != q[0]);
            }
        }
        m.lemma_rim_is(b, s);
    }

    /// What an insertion across `h` leaves as it was: the arenas up to their
    /// old lengths but for the half-edge `h` and the two next to it, the kinds
    /// of the faces, and the names of all faces but the one that `h` was on.
    pub proof fn lemma_insert_frame(self, h: int, p: P)
        requires
            self.links_ok(),
            self.can_insert(h),
        ensures
            ({
                let m = self.insert(h, p);
                let n = self.halfedges.len() as int;
                &&& m.halfedges.len() == n + 4
                &&& m.faces.len() == self.faces.len() + 1
                &&& m.kind(self.faces.len() as int) == FaceType::Normal
                &&& m.face(h) == self.faces.len()
                &&& m.face(n) == self.faces.len()
                &&& m.face(n + 1) == self.faces.len()
                &&& m.face(n + 2) == self.face(h)
                &&& m.face(n + 3) == self.face(h)
                &&& m.rim(self.face(h)) == (if self.rim(self.face(h)) == h {
                    self.next(h)
                } else {
                    self.rim(self.face(h))
                })
                &&& forall|f: int| 0 <= f < self.faces.len() ==> #[trigger] m.kind(f) == self.kind(f)
                &&& forall|f: int|
                    0 <= f < self.faces.len() && f != self.face(h) ==> #[trigger] m.rim(f)
                        == self.rim(f)
                &&& forall|x: int|
                    0 <= x < n && x != h ==> #[trigger] m.face(x) == self.face(x)
                &&& forall|x: int|
                    0 <= x < n && x != h && x != self.prev(h) ==> #[trigger] m.next(x)
                        == self.next(x)
            }),
    {
        assert(self.edge_ok(h));
        assert(self.edge_ok(self.prev(h)));
        assert(self.edge_ok(self.next(h)));
    }

    /// After an insertion across `h`, every half-edge on the face that `h`
    /// was on lies on the rim of that face.
    pub proof fn lemma_insert_border_rim(self, h: int, p: P, x: int)
        requires
            self.wf(),
            self.can_insert(h),
            self.halfedges.len() + 4 <= usize::MAX,
            self.faces.len() + 1 <= usize::MAX,
            self.vertices.len() + 1 <= usize::MAX,
            self.insert(h, p).has_edge(x),
            self.insert(h, p).face(x) == self.face(h),
        ensures
            self.insert(h, p).on_rim(x),
    {
        let m = self.insert(h, p);
        let b = self.next(h);
        let border = self.face(h);
        let n = self.halfedges.len() as int;
        self.lemma_insert_links(h, p);
        self.lemma_insert_rim(h, p);
        self.lemma_insert_frame(h, p);
        assert(self.edge_ok(h));
        assert(self.edge_ok(b));
        assert(self.face_ok(border));
        let rep = self.rim(border);
        let q = self.rim_of(b);
        let s = m.rim_of(b);
        let len = q.len() as int;
        self.lemma_rim_once_around(b);
        self.lemma_rim_once_around(rep);
        assert(self.on_rim(b));
        assert(self.rim_of(rep)[0] == rep);
        let new_rep = m.rim(border);
        assert(s[0] == b);
        if rep != h {
            self.lemma_rim_shared(rep, b, rep);
            let i = choose|i: int| 0 <= i < q.len() && q[i] == rep;
            assert(i != len - 1);
            assert(s[i] == rep);
        }
        assert(s.contains(new_rep));
        if x < n {
            assert(x != h);
            assert(self.face(x) == border);
            assert(self.on_rim(x));
            self.lemma_rim_shared(rep, b, x);
            let i = choose|i: int| 0 <= i < q.len() && q[i] == x;
            assert(i != len - 1);
            assert(s[i] == x);
        } else {
            assert(s[len - 1] == n + 3);
            assert(s[len] == n + 2);
            assert(x == n + 2 || x == n + 3);
        }
        assert(s.contains(x));
        m.lemma_rim_shared(b, new_rep, x);
    }

    /// An insertion across `h` leaves the rims of the outside and of the
    /// holes as they were, but for the one that `h` was on.
    pub proof fn lemma_insert_keeps_voids(self, h: int, p: P, f: int)
        requires
            self.links_ok(),
            self.can_insert(h),
            self.has_face(f),
            self.is_void(f),
            f != self.face(h),
        ensures
            self.insert(h, p).face_rim(f) == self.face_rim(f),
    {
        let m = self.insert(h, p);
        self.lemma_insert_frame(h, p);
        assert(self.edge_ok(h));
        assert(self.edge_ok(self.prev(h)));
        assert forall|y: int| 0 <= y < self.halfedges.len() && self.face(y) == f implies m.next(y)
            == #[trigger] self.next(y) by {
            assert(y != h && y != self.prev(h));
        }
        self.lemma_rim_kept(m, f);
    }

    /// An insertion keeps the mesh in one piece: the new triangle lies
    /// across `h` from the triangle it was added to, and across its two new
    /// sides from the face that `h` was on.
    pub proof fn lemma_insert_connected(self, h: int, p: P)
        requires
            self.links_ok(),
            self.connected(),
            self.can_insert(h),
            self.halfedges.len() + 4 <= usize::MAX,
            self.faces.len() + 1 <= usize::MAX,
            self.vertices.len() + 1 <= usize::MAX,
        ensures
            self.insert(h, p).connected(),
    {
        let m = self.insert(h, p);
        let t = self.twin(h);
        let border = self.face(h);
        let n = self.halfedges.len() as int;
        let nf = self.faces.len() as int;
        self.lemma_insert_frame(h, p);
        self.lemma_insert_links(h, p);
        assert(self.edge_ok(h));
        assert(self.edge_ok(t));
        assert forall|marks: Seq<bool>, y: int, x: int|
            #[trigger] m.marks_closed(marks) && m.has_edge(y) && #[trigger] m.marked(marks, y)
                && m.has_edge(x) implies #[trigger] m.marked(marks, x) by {
            let old_marks = marks.take(nf);
            assert(m.marked_across(marks, h));
            assert(m.marked_across(marks, t));
            assert(m.marked_across(marks, n));
            assert(m.marked_across(marks, n + 2));
            assert(m.twin(h) == t);
            assert(m.twin(t) == h);
            assert(m.twin(n) == n + 2);
            assert(m.twin(n + 2) == n);
            assert(marks[nf] == marks[border]);
            assert(marks[nf] == marks[self.face(t)]);
            assert forall|z: int| 0 <= z < n implies marks[m.face(z)] == old_marks[#[trigger] self.face(
                z,
            )] by {
                assert(self.edge_ok(z));
            }
            assert forall|z: int| 0 <= z < n implies #[trigger] self.marked_across(old_marks, z) by {
                assert(self.edge_ok(z));
                assert(m.marked_across(marks, z));
                assert(m.twin(z) == self.twin(z));
                assert(marks[m.face(self.twin(z))] == old_marks[self.face(self.twin(z))]);
            }
            assert(self.marks_closed(old_marks));
            assert(m.edge_ok(y));
            assert(m.edge_ok(x));
            assert(self.marked(old_marks, h)) by {
                if y < n {
                    assert(self.marked(old_marks, y));
                }
            }
            if x < n {
                assert(self.marked(old_marks, x));
            }
        }
    }

    /// An insertion keeps the mesh invariant.
    pub proof fn lemma_insert_wf(self, h: int, p: P)
        requires
            self.wf(),
            self.can_insert(h),
            self.halfedges.len() + 4 <= usize::MAX,
            self.faces.len() + 1 <= usize::MAX,
            self.vertices.len() + 1 <= usize::MAX,
        ensures
            self.insert(h, p).wf(),
    {
        let m = self.insert(h, p);
        let border = self.face(h);
        let n = self.halfedges.len() as int;
        self.lemma_insert_links(h, p);
        self.lemma_insert_frame(h, p);
        self.lemma_insert_connected(h, p);
        assert(self.edge_ok(h));
        assert forall|x: int| 0 <= x < m.halfedges.len() implies #[trigger] m.on_rim(x) by {
            let f = m.face(x);
            assert(m.edge_ok(x));
            if m.kind(f) == FaceType::Normal {
                m.lemma_triangle_edge_on_rim(x);
            } else if f == border {
                self.lemma_insert_border_rim(h, p, x);
            } else {
                assert(x < n && x != h);
                assert(self.face(x) == f);
                assert(self.on_rim(x));
                self.lemma_insert_keeps_voids(h, p, f);
            }
        }
    }

    /// After a vertex has been inserted across `h`, the new border half-edge
    /// that the insertion returns lies on the rim that `h` was on, and ends
    /// at the new vertex, which carries the point `p`.
    pub proof fn lemma_insert_on_border(self, h: int, p: P)
        requires
            self.wf(),
            self.can_insert(h),
            self.halfedges.len() + 4 <= usize::MAX,
            self.faces.len() + 1 <= usize::MAX,
            self.vertices.len() + 1 <= usize::MAX,
        ensures
            ({
                let m = self.insert(h, p);
                let border = self.inserted_border();
                &&& m.wf()
                &&& m.face_rim(self.face(h)).contains(border)
                &&& m.end(border) == self.vertices.len()
                &&& m.point(m.end(border)) == p
                &&& !m.face_rim(self.face(h)).contains(h)
            }),
    {
        let m = self.insert(h, p);
        let border = self.inserted_border();
        self.lemma_insert_wf(h, p);
        self.lemma_insert_frame(h, p);
        assert(self.edge_ok(h));
        assert(m.on_rim(border));
        assert(self.face_ok(self.face(h)));
        m.lemma_face_rim_is_its_edges(self.face(h));
    }

    /// The name that half-edge `x` goes by after `h` and its twin have
    /// changed places.
    pub open spec fn swap_edge(self, h: int, x: int) -> int {
        if x == h {
            self.twin(h)
        } else if x == self.twin(h) {
            h
        } else {
            x
        }
    }

    /// The name that face `f` goes by after the faces on the two sides of `h`
    /// have changed places.
    pub open spec fn swap_face(self, h: int, f: int) -> int {
        if f == self.face(h) {
            self.face(self.twin(h))
        } else if f == self.face(self.twin(h)) {
            self.face(h)
        } else {
            f
        }
    }

    /// `other` is this mesh but for names: the half-edge `h` and its twin
    /// have changed places, and so have the two triangles on their sides.
    /// Every half-edge of this mesh is found in `other` under its new name,
    /// with the same end and with its links under their new names; faces keep
    /// their kinds, vertices their points.
    pub open spec fn same_but_swapped(self, other: MeshView<P>, h: int) -> bool {
        &&& other.halfedges.len() == self.halfedges.len()
        &&& other.faces.len() == self.faces.len()
        &&& other.vertices.len() == self.vertices.len()
        &&& other.boundary == self.boundary
        &&& other.holes == self.holes
        &&& forall|x: int|
            0 <= x < self.halfedges.len() ==> {
                let y = #[trigger] self.swap_edge(h, x);
                &&& other.end(y) == self.end(x)
                &&& other.next(y) == self.swap_edge(h, self.next(x))
                &&& other.prev(y) == self.swap_edge(h, self.prev(x))
                &&& other.twin(y) == self.swap_edge(h, self.twin(x))
                &&& other.face(y) == self.swap_face(h, self.face(x))
            }
        &&& forall|f: int| 0 <= f < self.faces.len() ==> other.kind(f) == #[trigger] self.kind(f)
        &&& forall|v: int| 0 <= v < self.vertices.len() ==> other.point(v) == #[trigger] self.point(v)
    }

    /// A flip can be taken back by flipping again: after two flips of the
    /// same diagonal the mesh is the one before, but for names. The diagonal
    /// has made a half turn, so its two half-edges have changed places, and
    /// the two triangles with them.
    pub proof fn lemma_flip_twice(self, h: int)
        requires
            self.wf(),
            self.can_flip(h),
        ensures
            self.flip(h).wf(),
            self.flip(h).can_flip(h),
            self.flip(h).flip(h).wf(),
            self.same_but_swapped(self.flip(h).flip(h), h),
    {
        let m1 = self.flip(h);
        let m2 = m1.flip(h);
        let a0 = h;
        let a1 = self.next(a0);
        let a2 = self.next(a1);
        let b0 = self.twin(h);
        let b1 = self.next(b0);
        let b2 = self.next(b1);
        let fa = self.face(a0);
        let fb = self.face(b0);
        self.lemma_quad_distinct(h);
        self.lemma_flip_halfedges(h);
        self.lemma_flip_wf(h);
        assert(self.edge_ok(a0));
        assert(self.edge_ok(b0));
        assert(self.face_ok(fa));
        assert(self.face_ok(fb));
        assert(m1.kind(fa) == self.kind(fa));
        assert(m1.kind(fb) == self.kind(fb));
        assert(m1.can_flip(h));
        m1.lemma_quad_distinct(h);
        m1.lemma_flip_halfedges(h);
        m1.lemma_flip_wf(h);
        assert forall|x: int| 0 <= x < self.halfedges.len() implies ({
            let y = #[trigger] self.swap_edge(h, x);
            &&& m2.end(y) == self.end(x)
            &&& m2.next(y) == self.swap_edge(h, self.next(x))
            &&& m2.prev(y) == self.swap_edge(h, self.prev(x))
            &&& m2.twin(y) == self.swap_edge(h, self.twin(x))
            &&& m2.face(y) == self.swap_face(h, self.face(x))
        }) by {
            let nx = self.next(x);
            let px = self.prev(x);
            let tx = self.twin(x);
            assert(self.edge_ok(x));
            assert(self.edge_ok(nx));
            assert(self.edge_ok(px));
            assert(self.edge_ok(tx));
            assert(self.edge_ok(a1));
            assert(self.edge_ok(a2));
            assert(self.edge_ok(b1));
            assert(self.edge_ok(b2));
            if x != a0 && x != a1 && x != a2 && x != b0 && x != b1 && x != b2 {
                let f = self.face(x);
                assert(self.face_ok(f));
                assert(m1.halfedges[x] == self.halfedges[x]);
                assert(m2.halfedges[x] == m1.halfedges[x]);
                if self.kind(f) == FaceType::Normal {
                    assert(self.edge_ok(self.rim(f)));
                    assert(self.edge_ok(self.next(self.rim(f))));
                }
            }
        }
        assert forall|f: int| 0 <= f < self.faces.len() implies m2.kind(f) == #[trigger] self.kind(
            f,
        ) by {
            assert(m1.kind(f) == self.kind(f));
        }
        assert forall|v: int| 0 <= v < self.vertices.len() implies m2.point(v)
            == #[trigger] self.point(v) by {
            self.lemma_flip_keeps_points(h);
            m1.lemma_flip_keeps_points(h);
            assert(m1.point(v) == self.point(v));
            assert(m2.point(v) == m1.point(v));
        }
        self.lemma_flip_keeps_points(h);
        m1.lemma_flip_keeps_points(h);
    }
}

} // verus!
