//! Walks over a mesh: the half-edges of one face, the triangles, the
//! vertices, and all half-edges face by face. Each walk is a value that hands
//! out one index per call of `next`, and `None` when it is through.

use vstd::prelude::*;
use crate::arena::{FaceType, EMPTY};
use crate::mesh::Mesh;
use crate::model::MeshView;

verus! {

/// The half-edges on the rim of one face, once around from the half-edge
/// that names the face.
pub struct FaceIterator<'a, P> {
    mesh: &'a Mesh<P>,
    face: usize,
    start: usize,
    current: usize,
    done: Ghost<nat>,
}

impl<'a, P> View for FaceIterator<'a, P> {
    type V = Seq<int>;

    /// The half-edges that are still to come, in order.
    closed spec fn view(&self) -> Seq<int> {
        if self.face == EMPTY {
            Seq::empty()
        } else {
            let rim = self.mesh@.face_rim(self.face as int);
            rim.subrange(self.done@ as int, rim.len() as int)
        }
    }
}

impl<'a, P> FaceIterator<'a, P> {
    /// The mesh that is walked.
    pub closed spec fn mesh(&self) -> MeshView<P> {
        self.mesh@
    }

    pub closed spec fn wf(&self) -> bool {
        self.face != EMPTY ==> {
            let m = self.mesh@;
            &&& m.wf()
            &&& m.has_face(self.face as int)
            &&& m.kind(self.face as int) != FaceType::Destroyed
            &&& if self.start == EMPTY {
                self.done@ == 0
            } else {
                &&& self.start == m.rim(self.face as int)
                &&& 0 < self.done@ <= m.rim_len(self.start as int)
                &&& self.current == m.walk(self.start as int, (self.done@ - 1) as nat)
            }
        }
    }

    /// A walk that hands out nothing.
    pub fn empty(mesh: &'a Mesh<P>) -> (it: Self)
        ensures
            it.wf(),
            it.mesh() == mesh@,
            it@ == Seq::<int>::empty(),
    {
        FaceIterator { mesh, face: EMPTY, start: EMPTY, current: EMPTY, done: Ghost(0) }
    }

    /// The next half-edge on the rim, or `None` when the walk is back where
    /// it started.
    pub fn next(&mut self) -> (r: Option<usize>)
        requires
            old(self).wf(),
        ensures
            final(self).wf(),
            final(self).mesh() == old(self).mesh(),
            match r {
                Some(h) => old(self)@.len() > 0 && h == old(self)@[0] && final(self)@ == old(
                    self,
                )@.drop_first(),
                None => old(self)@.len() == 0 && final(self)@.len() == 0,
            },
    {
        if self.face == EMPTY {
            return None;
        }
        let ghost m = self.mesh@;
        let ghost rim = m.face_rim(self.face as int);
        let ghost k = self.done@;
        proof {
            assert(m.face_ok(self.face as int));
            m.lemma_rim_len(m.rim(self.face as int));
        }
        if self.start == EMPTY {
            self.start = self.mesh.edge_of_face(self.face);
            self.current = self.start;
            self.done = Ghost(1);
            proof {
                assert(m.walk(self.start as int, 0) == self.start);
                assert(rim.subrange(1, rim.len() as int) =~= rim.subrange(0, rim.len() as int).drop_first());
            }
            Some(self.current)
        } else {
            proof {
                m.lemma_walk_stays(self.start as int, (k - 1) as nat);
                assert(m.walk(self.start as int, k) == m.next(self.current as int));
            }
            let following = self.mesh.next(self.current);
            if following == self.start {
                proof {
                    if k < m.rim_len(self.start as int) {
                        assert(m.walk(self.start as int, k) != self.start);
                    }
                }
                self.face = EMPTY;
                None
            } else {
                self.current = following;
                self.done = Ghost(k + 1);
                proof {
                    assert(k < rim.len());
                    assert(rim.subrange(k as int + 1, rim.len() as int) =~= rim.subrange(
                        k as int,
                        rim.len() as int,
                    ).drop_first());
                }
                Some(following)
            }
        }
    }
}

/// The triangles of a mesh, by rising index.
pub struct FacesIterator<'a, P> {
    mesh: &'a Mesh<P>,
    index: usize,
}

/// The indices from `from` on that name a triangle of `m`, in rising order.
pub open spec fn triangles_from<P>(m: MeshView<P>, from: int) -> Seq<int>
    decreases m.faces.len() - from,
{
    if from < 0 || from >= m.faces.len() {
        Seq::empty()
    } else if m.kind(from) == FaceType::Normal {
        seq![from] + triangles_from(m, from + 1)
    } else {
        triangles_from(m, from + 1)
    }
}

impl<'a, P> View for FacesIterator<'a, P> {
    type V = Seq<int>;

    /// The triangles that are still to come, in order.
    closed spec fn view(&self) -> Seq<int> {
        triangles_from(self.mesh@, self.index as int)
    }
}

impl<'a, P> FacesIterator<'a, P> {
    /// The mesh that is walked.
    pub closed spec fn mesh(&self) -> MeshView<P> {
        self.mesh@
    }

    /// The next triangle, or `None` when there is none left.
    pub fn next(&mut self) -> (r: Option<usize>)
        ensures
            final(self).mesh() == old(self).mesh(),
            match r {
                Some(f) => old(self)@.len() > 0 && f == old(self)@[0] && final(self)@ == old(
                    self,
                )@.drop_first(),
                None => old(self)@.len() == 0 && final(self)@.len() == 0,
            },
    {
        let n = self.mesh.number_of_faces();
        while self.index < n && self.mesh.face_type(self.index) != FaceType::Normal
            invariant
                n == self.mesh@.faces.len(),
                self.mesh == old(self).mesh,
                triangles_from(self.mesh@, self.index as int) == old(self)@,
            decreases n - self.index,
        {
            self.index += 1;
        }
        if self.index >= n {
            None
        } else {
            self.index += 1;
            proof {
                let rest = triangles_from(self.mesh@, self.index as int);
                assert((seq![self.index - 1] + rest).drop_first() =~= rest);
            }
            Some(self.index - 1)
        }
    }
}

/// The vertices of a mesh, by rising index.
pub struct VertexIterator<'a, P> {
    mesh: &'a Mesh<P>,
    index: usize,
}

/// The integers from `from` up to, but not including, `to`.
pub open spec fn indices(from: int, to: int) -> Seq<int> {
    Seq::new((if from <= to { to - from } else { 0 }) as nat, |i: int| from + i)
}

impl<'a, P> View for VertexIterator<'a, P> {
    type V = Seq<int>;

    /// The vertices that are still to come, in order.
    closed spec fn view(&self) -> Seq<int> {
        indices(self.index as int, self.mesh@.vertices.len() as int)
    }
}

impl<'a, P> VertexIterator<'a, P> {
    /// The mesh that is walked.
    pub closed spec fn mesh(&self) -> MeshView<P> {
        self.mesh@
    }

    /// The next vertex, or `None` when there is none left.
    pub fn next(&mut self) -> (r: Option<usize>)
        ensures
            final(self).mesh() == old(self).mesh(),
            match r {
                Some(v) => old(self)@.len() > 0 && v == old(self)@[0] && final(self)@ == old(
                    self,
                )@.drop_first(),
                None => old(self)@.len() == 0 && final(self)@.len() == 0,
            },
    {
        if self.index >= self.mesh.number_of_vertices() {
            return None;
        }
        self.index += 1;
        proof {
            let n = self.mesh@.vertices.len() as int;
            assert(indices(self.index as int, n) =~= indices(self.index - 1, n).drop_first());
        }
        Some(self.index - 1)
    }
}

/// All half-edges of a mesh, face by face: first the rim of the first
/// triangle, then the rims of the faces across its half-edges, and so on. A
/// face is put aside when one of its half-edges' twins is handed out, and
/// walked when its turn comes, unless it was walked already.
pub struct HalfedgeIterator<'a, P> {
    mesh: &'a Mesh<P>,
    unvisited_faces: Vec<usize>,
    visited_faces: Vec<bool>,
    face_iterator: FaceIterator<'a, P>,
    walked: Ghost<Seq<int>>,
}

/// The position of the last face in `pending` that `visited` does not mark.
pub open spec fn last_unvisited(pending: Seq<usize>, visited: Seq<bool>) -> Option<int>
    decreases pending.len(),
{
    if pending.len() == 0 {
        None
    } else if !visited[pending.last() as int] {
        Some(pending.len() - 1)
    } else {
        last_unvisited(pending.drop_last(), visited)
    }
}

/// The last unmarked face of `pending` is unmarked, and all after it are
/// marked; if there is none, all are marked.
pub proof fn lemma_last_unvisited(pending: Seq<usize>, visited: Seq<bool>)
    ensures
        match last_unvisited(pending, visited) {
            Some(k) => 0 <= k < pending.len() && !visited[pending[k] as int] && forall|i: int|
                k < i < pending.len() ==> visited[#[trigger] pending[i] as int],
            None => forall|i: int| 0 <= i < pending.len() ==> visited[#[trigger] pending[i] as int],
        },
    decreases pending.len(),
{
    if pending.len() > 0 && visited[pending.last() as int] {
        lemma_last_unvisited(pending.drop_last(), visited);
        let rest = pending.drop_last();
        match last_unvisited(rest, visited) {
            Some(k) => {
                assert forall|i: int| k < i < pending.len() implies visited[#[trigger] pending[i] as int] by {
                    if i < rest.len() {
                        assert(rest[i] == pending[i]);
                    }
                }
                assert(rest[k] == pending[k]);
            },
            None => {
                assert forall|i: int| 0 <= i < pending.len() implies visited[#[trigger] pending[i] as int] by {
                    if i < rest.len() {
                        assert(rest[i] == pending[i]);
                    }
                }
            },
        }
    }
}

impl<'a, P> HalfedgeIterator<'a, P> {
    /// The mesh that is walked.
    pub closed spec fn mesh(&self) -> MeshView<P> {
        self.mesh@
    }

    /// What is left of the rim that is being walked.
    pub closed spec fn current(&self) -> Seq<int> {
        self.face_iterator@
    }

    /// The faces put aside, the one that comes next last.
    pub closed spec fn pending(&self) -> Seq<usize> {
        self.unvisited_faces@
    }

    /// For each face, whether its rim was walked or is being walked.
    pub closed spec fn visited(&self) -> Seq<bool> {
        self.visited_faces@
    }

    /// The half-edges handed out so far, in order.
    pub closed spec fn walked(&self) -> Seq<int> {
        self.walked@
    }

    /// The face `f` is marked or put aside.
    pub open spec fn reached(&self, f: int) -> bool {
        self.visited()[f] || self.pending().contains(f as usize)
    }

    /// The half-edge `h` has been handed out, or is still to come on the
    /// rim `current`.
    pub open spec fn covered(&self, h: int, current: Seq<int>) -> bool {
        self.walked().contains(h) || current.contains(h)
    }

    /// The invariant of the walk, with `current` for what is left of the
    /// rim that is being walked.
    ///
    /// A face is marked as soon as the first half-edge of its rim is handed
    /// out. Of a marked face every half-edge has been handed out or is still
    /// to come on the current rim, and the face across a half-edge that has
    /// been handed out is marked or put aside. No half-edge is handed out
    /// twice.
    pub open spec fn wf_with(&self, current: Seq<int>) -> bool {
        let m = self.mesh();
        &&& m.wf()
        &&& self.visited().len() == m.faces.len()
        &&& forall|i: int|
            0 <= i < self.pending().len() ==> m.has_face(#[trigger] self.pending()[i] as int)
                && m.kind(self.pending()[i] as int) != FaceType::Destroyed
        &&& forall|i: int|
            0 <= i < current.len() ==> m.has_edge(#[trigger] current[i]) && self.visited()[m.face(
                current[i],
            )]
        &&& forall|i: int|
            0 <= i < self.walked().len() ==> m.has_edge(#[trigger] self.walked()[i])
                && self.visited()[m.face(self.walked()[i])] && self.reached(
                m.face(m.twin(self.walked()[i])),
            )
        &&& forall|h: int|
            m.has_edge(h) && self.visited()[m.face(h)] ==> #[trigger] self.covered(h, current)
        &&& self.walked().no_duplicates()
        &&& current.no_duplicates()
        &&& forall|i: int, j: int|
            0 <= i < self.walked().len() && 0 <= j < current.len() ==> #[trigger] self.walked()[i]
                != #[trigger] current[j]
        &&& forall|f: int| #[trigger] m.is_first_triangle(f) ==> self.visited()[f]
    }

    /// The invariant of the walk.
    pub open spec fn wf(&self) -> bool {
        self.links_wf() && self.wf_with(self.current())
    }

    /// The walk over the current rim is in order, and on the same mesh.
    pub closed spec fn links_wf(&self) -> bool {
        &&& self.face_iterator.wf()
        &&& self.face_iterator.mesh() == self.mesh@
    }

    /// The marked faces are closed: every half-edge along a marked face has
    /// been handed out, and the face across it is marked too.
    pub open spec fn is_closed(&self) -> bool {
        let m = self.mesh();
        forall|h: int|
            m.has_edge(h) && self.visited()[#[trigger] m.face(h)] ==> self.walked().contains(h)
                && self.visited()[m.face(m.twin(h))]
    }

    /// Every half-edge has been handed out, if the mesh has a triangle at
    /// all.
    pub open spec fn is_complete(&self) -> bool {
        let m = self.mesh();
        forall|f: int, h: int|
            #[trigger] m.is_first_triangle(f) && m.has_edge(h) ==> #[trigger] self.walked().contains(
                h,
            )
    }

    /// What `next` hands out when the current rim has half-edges left: the
    /// first of them; the face across it is put aside unless it is marked.
    pub open spec fn steps_on_rim(old_it: Self, new_it: Self, r: Option<usize>) -> bool {
        let m = old_it.mesh();
        let h = old_it.current()[0];
        let across = m.face(m.twin(h));
        &&& r == Some(h as usize)
        &&& new_it.current() == old_it.current().drop_first()
        &&& new_it.visited() == old_it.visited()
        &&& new_it.pending() == if old_it.visited()[across] {
            old_it.pending()
        } else {
            old_it.pending().push(across as usize)
        }
    }

    /// What `next` hands out when the current rim is through and the face at
    /// position `k` of the faces put aside is the last unmarked one: the
    /// half-edge that names that face. The face is marked, its rim becomes
    /// the current one, and the faces put aside after it are dropped.
    pub open spec fn steps_to_face(old_it: Self, new_it: Self, r: Option<usize>, k: int) -> bool {
        let m = old_it.mesh();
        let f = old_it.pending()[k] as int;
        let h = m.rim(f);
        let across = m.face(m.twin(h));
        let kept = old_it.pending().take(k);
        &&& r == Some(h as usize)
        &&& new_it.current() == m.face_rim(f).drop_first()
        &&& new_it.visited() == old_it.visited().update(f, true)
        &&& new_it.pending() == if new_it.visited()[across] {
            kept
        } else {
            kept.push(across as usize)
        }
    }

    /// A walk over the half-edges of `mesh` that starts with its first
    /// triangle.
    pub fn new(mesh: &'a Mesh<P>) -> (it: Self)
        requires
            mesh@.wf(),
        ensures
            it.wf(),
            it.mesh() == mesh@,
            it.walked().len() == 0,
            it.pending().len() == 0,
            it.visited().len() == mesh@.faces.len(),
            forall|f: int|
                mesh@.is_first_triangle(f) ==> it.current() == mesh@.face_rim(f) && forall|g: int|
                    0 <= g < mesh@.faces.len() ==> #[trigger] it.visited()[g] == (g == f),
            mesh@.has_no_triangle() ==> it.current().len() == 0 && forall|g: int|
                0 <= g < mesh@.faces.len() ==> !#[trigger] it.visited()[g],
    {
        let unvisited_faces: Vec<usize> = Vec::new();
        let mut visited_faces: Vec<bool> = Vec::new();
        let n = mesh.number_of_faces();
        while visited_faces.len() < n
            invariant
                visited_faces@.len() <= n,
                forall|g: int| 0 <= g < visited_faces@.len() ==> !#[trigger] visited_faces@[g],
            decreases n - visited_faces.len(),
        {
            visited_faces.push(false);
        }
        let some_face = mesh.some_face();
        let face_iterator = match some_face {
            Some(face) => {
                visited_faces[face] = true;
                mesh.iter_face(face)
            },
            None => FaceIterator::empty(mesh),
        };
        let it = HalfedgeIterator {
            mesh,
            unvisited_faces,
            visited_faces,
            face_iterator,
            walked: Ghost(Seq::empty()),
        };
        proof {
            if let Some(face) = some_face {
                mesh@.lemma_face_rim_is_its_edges(face as int);
                assert forall|f: int| mesh@.is_first_triangle(f) implies f == face by {
                    if f < face {
                        assert(mesh@.kind(f) != FaceType::Normal);
                    }
                    if face < f {
                        assert(mesh@.kind(face as int) != FaceType::Normal);
                    }
                }
                let rim = mesh@.face_rim(face as int);
                assert forall|i: int| 0 <= i < rim.len() implies mesh@.has_edge(#[trigger] rim[i])
                    && mesh@.face(rim[i]) == face by {
                    assert(rim.contains(rim[i]));
                }
                assert forall|h: int|
                    mesh@.has_edge(h) && it.visited()[mesh@.face(h)] implies #[trigger] it.covered(
                    h,
                    rim,
                ) by {
                    assert(mesh@.edge_ok(h));
                    assert(rim.contains(h));
                }
            } else {
                assert forall|f: int| mesh@.is_first_triangle(f) implies false by {
                    assert(mesh@.kind(f) != FaceType::Normal);
                }
                assert forall|h: int|
                    mesh@.has_edge(h) && it.visited()[mesh@.face(h)] implies #[trigger] it.covered(
                    h,
                    it.current(),
                ) by {
                    assert(mesh@.edge_ok(h));
                }
            }
        }
        it
    }

    /// Hands out `halfedge`, which the walk over the current rim has just
    /// passed and `rest` follows: the face across it is put aside, unless
    /// that face is marked.
    fn note_face_across(&mut self, halfedge: usize, Ghost(rest): Ghost<Seq<int>>)
        requires
            old(self).links_wf(),
            old(self).current() == rest,
            old(self).wf_with(seq![halfedge as int] + rest),
            !old(self).walked().contains(halfedge as int),
        ensures
            final(self).wf(),
            final(self).mesh() == old(self).mesh(),
            final(self).current() == old(self).current(),
            final(self).visited() == old(self).visited(),
            final(self).walked() == old(self).walked().push(halfedge as int),
            final(self).pending() == ({
                let m = old(self).mesh();
                let across = m.face(m.twin(halfedge as int));
                if old(self).visited()[across] {
                    old(self).pending()
                } else {
                    old(self).pending().push(across as usize)
                }
            }),
    {
        let ghost before = *self;
        let ghost m = self.mesh@;
        let ghost all = seq![halfedge as int] + rest;
        proof {
            assert(all[0] == halfedge);
            assert(m.has_edge(all[0]));
        }
        let twin = self.mesh.twin(halfedge);
        let new_face = self.mesh.face(twin);
        proof {
            assert(m.edge_ok(twin as int));
        }
        if !self.visited_faces[new_face] {
            self.unvisited_faces.push(new_face);
        }
        self.walked = Ghost(self.walked@.push(halfedge as int));
        proof {
            assert forall|i: int| 0 <= i < rest.len() implies rest[i] == #[trigger] all[i + 1] by {}
            assert forall|i: int| 0 <= i < self.pending().len() implies m.has_face(
                #[trigger] self.pending()[i] as int,
            ) && m.kind(self.pending()[i] as int) != FaceType::Destroyed by {
                if i < before.pending().len() {
                    assert(self.pending()[i] == before.pending()[i]);
                }
            }
            assert forall|i: int| 0 <= i < rest.len() implies m.has_edge(#[trigger] rest[i])
                && self.visited()[m.face(rest[i])] by {
                assert(rest[i] == all[i + 1]);
            }
            assert forall|f: int| before.reached(f) implies self.reached(f) by {
                if before.pending().contains(f as usize) {
                    let i = choose|i: int|
                        0 <= i < before.pending().len() && before.pending()[i] == f as usize;
                    assert(self.pending()[i] == f as usize);
                }
            }
            assert(self.reached(new_face as int)) by {
                if !self.visited()[new_face as int] {
                    assert(self.pending().last() == new_face);
                }
            }
            assert forall|i: int| 0 <= i < self.walked().len() implies m.has_edge(
                #[trigger] self.walked()[i],
            ) && self.visited()[m.face(self.walked()[i])] && self.reached(
                m.face(m.twin(self.walked()[i])),
            ) by {
                if i < before.walked().len() {
                    assert(self.walked()[i] == before.walked()[i]);
                    assert(before.reached(m.face(m.twin(before.walked()[i]))));
                }
            }
            assert forall|h: int|
                m.has_edge(h) && self.visited()[m.face(h)] implies #[trigger] self.covered(
                h,
                rest,
            ) by {
                assert(before.covered(h, all));
                if before.walked().contains(h) {
                    let i = choose|i: int| 0 <= i < before.walked().len() && before.walked()[i] == h;
                    assert(self.walked()[i] == h);
                } else {
                    let i = choose|i: int| 0 <= i < all.len() && all[i] == h;
                    if i == 0 {
                        assert(self.walked().last() == h);
                    } else {
                        assert(rest[i - 1] == h);
                    }
                }
            }
            assert forall|i: int, j: int|
                0 <= i < rest.len() && 0 <= j < rest.len() && i != j implies rest[i] != rest[j] by {
                assert(all[i + 1] != all[j + 1]);
            }
            assert forall|i: int, j: int|
                0 <= i < self.walked().len() && 0 <= j < rest.len() implies #[trigger] self.walked()[i]
                != #[trigger] rest[j] by {
                assert(rest[j] == all[j + 1]);
                if i < before.walked().len() {
                    assert(self.walked()[i] == before.walked()[i]);
                } else {
                    assert(all[0] != all[j + 1]);
                }
            }
            assert forall|i: int, j: int|
                0 <= i < self.walked().len() && 0 <= j < self.walked().len() && i
                    != j implies self.walked()[i] != self.walked()[j] by {
                if i < before.walked().len() && j < before.walked().len() {
                    assert(before.walked()[i] != before.walked()[j]);
                } else if i < before.walked().len() {
                    assert(before.walked().contains(before.walked()[i]));
                } else {
                    assert(before.walked().contains(before.walked()[j]));
                }
            }
        }
    }

    /// The next half-edge, or `None` when every face that was put aside has
    /// been walked. Then every half-edge of the mesh has been handed out, once.
    pub fn next(&mut self) -> (r: Option<usize>)
        requires
            old(self).wf(),
        ensures
            final(self).wf(),
            final(self).mesh() == old(self).mesh(),
            final(self).walked() == match r {
                Some(h) => old(self).walked().push(h as int),
                None => old(self).walked(),
            },
            old(self).current().len() > 0 ==> Self::steps_on_rim(*old(self), *final(self), r),
            old(self).current().len() == 0 ==> match last_unvisited(
                old(self).pending(),
                old(self).visited(),
            ) {
                Some(k) => Self::steps_to_face(*old(self), *final(self), r, k),
                None => {
                    &&& r.is_none()
                    &&& final(self).current().len() == 0
                    &&& final(self).pending().len() == 0
                    &&& final(self).visited() == old(self).visited()
                },
            },
            r.is_none() ==> final(self).is_closed() && final(self).is_complete(),
    {
        let ghost before = *self;
        let ghost m = self.mesh@;
        match self.face_iterator.next() {
            Some(halfedge) => {
                proof {
                    let all = before.current();
                    let rest = all.drop_first();
                    assert(all =~= seq![halfedge as int] + rest);
                    assert(!before.walked().contains(halfedge as int)) by {
                        if before.walked().contains(halfedge as int) {
                            let i = choose|i: int|
                                0 <= i < before.walked().len() && before.walked()[i] == halfedge;
                            assert(before.walked()[i] != all[0]);
                        }
                    }
                    assert forall|h: int|
                        m.has_edge(h) && self.visited()[m.face(h)] implies #[trigger] self.covered(
                        h,
                        all,
                    ) by {
                        assert(before.covered(h, all));
                    }
                    assert forall|i: int| 0 <= i < self.walked().len() implies self.reached(
                        m.face(m.twin(#[trigger] self.walked()[i])),
                    ) by {
                        assert(before.reached(m.face(m.twin(before.walked()[i]))));
                    }
                }
                self.note_face_across(halfedge, Ghost(before.current().drop_first()));
                Some(halfedge)
            },
            None => {
                let mut found: Option<usize> = None;
                proof {
                    lemma_last_unvisited(before.pending(), before.visited());
                }
                while found.is_none() && self.unvisited_faces.len() > 0
                    invariant
                        before.wf(),
                        before.current().len() == 0,
                        m == before.mesh(),
                        self.mesh == before.mesh,
                        self.walked == before.walked,
                        self.links_wf(),
                        self.face_iterator@.len() == 0,
                        self.visited_faces@ == before.visited_faces@,
                        self.unvisited_faces@.len() <= before.unvisited_faces@.len(),
                        self.unvisited_faces@ == before.unvisited_faces@.take(
                            self.unvisited_faces@.len() as int,
                        ),
                        match found {
                            Some(f) => {
                                &&& last_unvisited(before.unvisited_faces@, before.visited_faces@)
                                    == Some(self.unvisited_faces@.len() as int)
                                &&& f == before.unvisited_faces@[self.unvisited_faces@.len() as int]
                            },
                            None => last_unvisited(before.unvisited_faces@, before.visited_faces@)
                                == last_unvisited(self.unvisited_faces@, self.visited_faces@),
                        },
                    decreases self.unvisited_faces@.len() + (if found.is_none() { 1int } else { 0int }),
                {
                    let ghost stack = self.unvisited_faces@;
                    let face = self.unvisited_faces.pop().unwrap();
                    proof {
                        assert(self.unvisited_faces@ == stack.drop_last());
                        assert(stack.drop_last() =~= before.unvisited_faces@.take(stack.len() - 1));
                        assert(before.pending()[stack.len() - 1] == face);
                    }
                    if !self.visited_faces[face] {
                        found = Some(face);
                    }
                }
                match found {
                    None => {
                        proof {
                            assert(self.pending().len() == 0);
                            assert(self.face_iterator@ =~= before.current());
                            assert forall|h: int|
                                m.has_edge(h) && self.visited()[#[trigger] m.face(
                                    h,
                                )] implies self.walked().contains(h) && self.visited()[m.face(
                                m.twin(h),
                            )] by {
                                assert(before.covered(h, before.current()));
                                let i = choose|i: int|
                                    0 <= i < before.walked().len() && before.walked()[i] == h;
                                let g = m.face(m.twin(before.walked()[i]));
                                assert(before.reached(g));
                                if before.pending().contains(g as usize) {
                                    let j = choose|j: int|
                                        0 <= j < before.pending().len() && before.pending()[j]
                                            == g as usize;
                                    assert(before.visited()[before.pending()[j] as int]);
                                }
                            }
                            assert forall|i: int| 0 <= i < self.walked().len() implies self.reached(
                                m.face(m.twin(#[trigger] self.walked()[i])),
                            ) by {
                                assert(m.has_edge(before.walked()[i]));
                                let h = before.walked()[i];
                                assert(self.visited()[m.face(h)]);
                            }
                            assert forall|h: int|
                                m.has_edge(h) && self.visited()[m.face(
                                    h,
                                )] implies #[trigger] self.covered(h, self.current()) by {
                                assert(before.covered(h, before.current()));
                            }
                            assert forall|f: int, h: int|
                                #[trigger] m.is_first_triangle(f) && m.has_edge(
                                    h,
                                ) implies #[trigger] self.walked().contains(h) by {
                                let marks = self.visited();
                                let r0 = m.rim(f);
                                assert(m.face_ok(f));
                                assert forall|x: int|
                                    0 <= x < m.halfedges.len() implies #[trigger] m.marked_across(
                                    marks,
                                    x,
                                ) by {
                                    assert(m.edge_ok(x));
                                    if marks[m.face(x)] {
                                        assert(marks[m.face(m.twin(x))]);
                                    }
                                }
                                assert(m.marks_closed(marks));
                                assert(m.marked(marks, r0));
                                assert(m.marked(marks, h));
                            }
                        }
                        None
                    },
                    Some(face) => {
                        let ghost k = self.unvisited_faces@.len() as int;
                        proof {
                            assert(before.pending()[k] == face);
                        }
                        self.face_iterator = self.mesh.iter_face(face);
                        self.visited_faces[face] = true;
                        let ghost rim = m.face_rim(face as int);
                        proof {
                            m.lemma_face_rim_is_its_edges(face as int);
                            assert(m.face_ok(face as int));
                            m.lemma_rim_once_around(m.rim(face as int));
                        }
                        match self.face_iterator.next() {
                            Some(halfedge) => {
                                proof {
                                    let rest = rim.drop_first();
                                    assert(rim =~= seq![halfedge as int] + rest);
                                    assert(rim.contains(rim[0]));
                                    assert(!self.walked().contains(halfedge as int)) by {
                                        if self.walked().contains(halfedge as int) {
                                            let i = choose|i: int|
                                                0 <= i < before.walked().len()
                                                    && before.walked()[i] == halfedge;
                                            assert(before.visited()[m.face(before.walked()[i])]);
                                        }
                                    }
                                    assert forall|i: int|
                                        0 <= i < self.pending().len() implies m.has_face(
                                        #[trigger] self.pending()[i] as int,
                                    ) && m.kind(self.pending()[i] as int)
                                        != FaceType::Destroyed by {
                                        assert(self.pending()[i] == before.pending()[i]);
                                    }
                                    assert forall|i: int| 0 <= i < rim.len() implies m.has_edge(
                                        #[trigger] rim[i],
                                    ) && self.visited()[m.face(rim[i])] by {
                                        assert(rim.contains(rim[i]));
                                    }
                                    assert forall|i: int|
                                        0 <= i < self.walked().len() implies m.has_edge(
                                        #[trigger] self.walked()[i],
                                    ) && self.visited()[m.face(self.walked()[i])] && self.reached(
                                        m.face(m.twin(self.walked()[i])),
                                    ) by {
                                        let w = before.walked()[i];
                                        assert(m.has_edge(w));
                                        assert(m.edge_ok(w));
                                        assert(m.edge_ok(m.twin(w)));
                                        assert(before.visited()[m.face(w)]);
                                        let g = m.face(m.twin(w));
                                        assert(before.reached(g));
                                        if !before.visited()[g] {
                                            let j = choose|j: int|
                                                0 <= j < before.pending().len()
                                                    && before.pending()[j] == g as usize;
                                            if j < k {
                                                assert(self.pending()[j] == g as usize);
                                            } else if j > k {
                                                assert(before.visited()[before.pending()[j] as int]);
                                            }
                                        }
                                    }
                                    assert forall|h: int|
                                        m.has_edge(h) && self.visited()[m.face(
                                            h,
                                        )] implies #[trigger] self.covered(h, rim) by {
                                        assert(m.edge_ok(h));
                                        if m.face(h) != face {
                                            assert(before.covered(h, before.current()));
                                        } else {
                                            assert(rim.contains(h));
                                        }
                                    }
                                    assert forall|i: int, j: int|
                                        0 <= i < self.walked().len() && 0 <= j < rim.len()
                                            implies #[trigger] self.walked()[i]
                                        != #[trigger] rim[j] by {
                                        assert(rim.contains(rim[j]));
                                        assert(before.visited()[m.face(before.walked()[i])]);
                                    }
                                }
                                self.note_face_across(halfedge, Ghost(rim.drop_first()));
                                Some(halfedge)
                            },
                            None => None,
                        }
                    },
                }
            },
        }
    }
}

impl<P> Mesh<P> {
    /// A walk over all vertices, those that only the outside touches
    /// included.
    pub fn iter_vertices(&self) -> (it: VertexIterator<'_, P>)
        ensures
            it.mesh() == self@,
            it@ == indices(0, self@.vertices.len() as int),
    {
        VertexIterator { mesh: self, index: 0 }
    }

    /// A walk over all triangles; the outside, holes and destroyed faces are
    /// passed over.
    pub fn iter_faces(&self) -> (it: FacesIterator<'_, P>)
        ensures
            it.mesh() == self@,
            it@ == triangles_from(self@, 0),
    {
        FacesIterator { mesh: self, index: 0 }
    }

    /// A walk over all half-edges, face by face, from the first triangle on.
    pub fn iter_edges(&self) -> (it: HalfedgeIterator<'_, P>)
        requires
            self@.wf(),
        ensures
            it.wf(),
            it.mesh() == self@,
            it.pending().len() == 0,
            it.visited().len() == self@.faces.len(),
            forall|f: int|
                self@.is_first_triangle(f) ==> it.current() == self@.face_rim(f) && forall|g: int|
                    0 <= g < self@.faces.len() ==> #[trigger] it.visited()[g] == (g == f),
            self@.has_no_triangle() ==> it.current().len() == 0 && forall|g: int|
                0 <= g < self@.faces.len() ==> !#[trigger] it.visited()[g],
    {
        HalfedgeIterator::new(self)
    }

    /// A walk once around the rim of `face`. For `EMPTY` it hands out
    /// nothing.
    pub fn iter_face(&self, face: usize) -> (it: FaceIterator<'_, P>)
        requires
            face != EMPTY ==> self@.wf() && self@.has_face(face as int) && self@.kind(face as int)
                != FaceType::Destroyed,
        ensures
            it.wf(),
            it.mesh() == self@,
            it@ == (if face == EMPTY {
                Seq::<int>::empty()
            } else {
                self@.face_rim(face as int)
            }),
    {
        proof {
            if face != EMPTY {
                let rim = self@.face_rim(face as int);
                assert(rim.subrange(0, rim.len() as int) =~= rim);
            }
        }
        FaceIterator { mesh: self, face, start: EMPTY, current: EMPTY, done: Ghost(0) }
    }
}

} // verus!
