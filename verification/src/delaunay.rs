//! Incremental Delaunay triangulation on a half-edge mesh: finding the border
//! edge that sees a new point, telling whether an edge breaks the Delaunay
//! condition, and flipping edges until it is restored.

use vstd::prelude::*;
use crate::iter::FaceIterator;
use crate::mesh::Mesh;
use crate::model::MeshView;
use crate::predicate::{is_in_circle_test, is_orientation_test, lies_inside, turns, Orientation};

verus! {

impl<P> MeshView<P> {
    /// `turn` is an answer of `orient` for the point `p`, the tail of the
    /// half-edge `h` and its head.
    pub open spec fn turn_at(
        self,
        h: int,
        p: P,
        orient: spec_fn(P, P, P, Orientation) -> bool,
        turn: Orientation,
    ) -> bool {
        orient(p, self.point(self.start(h)), self.point(self.end(h)), turn)
    }

    /// By an answer of `orient`, the point `p` sees the half-edge `h`: `p`,
    /// the tail of `h` and its head do not turn counter-clockwise, so `p`
    /// lies on the line of `h` or to its right.
    pub open spec fn sees(
        self,
        h: int,
        p: P,
        orient: spec_fn(P, P, P, Orientation) -> bool,
    ) -> bool {
        exists|turn: Orientation|
            turn != Orientation::CounterClockwise && #[trigger] self.turn_at(h, p, orient, turn)
    }

    /// By an answer of `orient`, the point `p` does not see the half-edge
    /// `h`: it lies to its left.
    pub open spec fn misses(
        self,
        h: int,
        p: P,
        orient: spec_fn(P, P, P, Orientation) -> bool,
    ) -> bool {
        self.turn_at(h, p, orient, Orientation::CounterClockwise)
    }

    /// For `h` the in-circle test is asked: `h` has neither the outside nor
    /// a hole on either side, and two different triangles on its two sides.
    pub open spec fn asks(self, h: int) -> bool {
        !self.is_border(self.twin(h)) && self.face(h) != self.face(self.twin(h))
    }

    /// `inside` is an answer of `in_circle` to whether the apex of the
    /// triangle on the side of `h` lies inside the circle through the
    /// corners of the triangle across `h`.
    pub open spec fn in_circle_at(
        self,
        h: int,
        in_circle: spec_fn(P, P, P, P, bool) -> bool,
        inside: bool,
    ) -> bool {
        let t = self.twin(h);
        in_circle(
            self.point(self.end(self.next(h))),
            self.point(self.end(self.prev(h))),
            self.point(self.end(self.next(t))),
            self.point(self.end(self.prev(t))),
            inside,
        )
    }

    /// `illegal` is what `is_illegal` finds for `h`: the answer of the
    /// in-circle test where it is asked, and `false` where it is not. A
    /// half-edge with the outside or a hole on either side is never illegal.
    pub open spec fn is_illegal(
        self,
        h: int,
        in_circle: spec_fn(P, P, P, P, bool) -> bool,
        illegal: bool,
    ) -> bool {
        if self.asks(h) {
            self.in_circle_at(h, in_circle, illegal)
        } else {
            !illegal
        }
    }

    /// The number of flips after which `legalize` gives up: the number of
    /// pairs of vertices, as far as a machine index can hold it. A run of
    /// flips that never brings back an edge it has removed cannot be longer.
    pub open spec fn flip_budget(self) -> nat {
        let v = self.vertices.len();
        let pairs = if v == 0 {
            0
        } else {
            v * (v - 1) / 2
        };
        if pairs <= usize::MAX {
            pairs as nat
        } else {
            usize::MAX as nat
        }
    }

    /// Legalizing the half-edges of `stack`, the last one first, with `fuel`
    /// flips at most, can lead from this mesh to the mesh `result`, with the
    /// half-edges `rest` left over.
    ///
    /// A half-edge that is found not to be illegal is dropped. One that is
    /// found illegal is flipped, and the two half-edges that follow and
    /// precede it on its new rim take its place, the preceding one first.
    /// Where a flip is due and the fuel is used up, the run ends, and the
    /// stack is left over. It also ends when the stack is empty.
    pub open spec fn legalizes(
        self,
        stack: Seq<usize>,
        fuel: nat,
        in_circle: spec_fn(P, P, P, P, bool) -> bool,
        result: MeshView<P>,
        rest: Seq<usize>,
    ) -> bool
        decreases fuel, stack.len(),
    {
        if stack.len() == 0 {
            result == self && rest == stack
        } else {
            let h = stack.last() as int;
            let below = stack.drop_last();
            ||| {
                &&& self.is_illegal(h, in_circle, false)
                &&& self.legalizes(below, fuel, in_circle, result, rest)
            }
            ||| {
                &&& self.is_illegal(h, in_circle, true)
                &&& if fuel == 0 {
                    result == self && rest == stack
                } else {
                    let m = self.flip(h);
                    m.legalizes(
                        below.push(m.halfedges[h].next).push(m.halfedges[h].prev),
                        (fuel - 1) as nat,
                        in_circle,
                        result,
                        rest,
                    )
                }
            }
        }
    }

    /// Legalizing a half-edge that the in-circle test cannot call illegal
    /// changes nothing, whatever the fuel. So where no half-edge can be
    /// called illegal before, none can after.
    pub proof fn lemma_legalize_legal(
        self,
        edge: usize,
        fuel: nat,
        in_circle: spec_fn(P, P, P, P, bool) -> bool,
        result: MeshView<P>,
        rest: Seq<usize>,
    )
        requires
            !self.is_illegal(edge as int, in_circle, true),
            self.legalizes(seq![edge], fuel, in_circle, result, rest),
        ensures
            result == self,
            rest.len() == 0,
    {
        let stack = seq![edge];
        assert(stack.last() == edge);
        assert(stack.drop_last() =~= Seq::<usize>::empty());
        assert(self.legalizes(stack.drop_last(), fuel, in_circle, result, rest));
    }

    /// Legalizing a half-edge that the in-circle test cannot call legal
    /// starts with its flip, if there is fuel for one.
    pub proof fn lemma_legalize_illegal(
        self,
        edge: usize,
        fuel: nat,
        in_circle: spec_fn(P, P, P, P, bool) -> bool,
        result: MeshView<P>,
        rest: Seq<usize>,
    )
        requires
            !self.is_illegal(edge as int, in_circle, false),
            fuel > 0,
            self.legalizes(seq![edge], fuel, in_circle, result, rest),
        ensures
            self.flip(edge as int).legalizes(
                seq![
                    self.flip(edge as int).halfedges[edge as int].next,
                    self.flip(edge as int).halfedges[edge as int].prev,
                ],
                (fuel - 1) as nat,
                in_circle,
                result,
                rest,
            ),
    {
        let stack = seq![edge];
        let m = self.flip(edge as int);
        assert(stack.last() == edge);
        assert(stack.drop_last().push(m.halfedges[edge as int].next).push(
            m.halfedges[edge as int].prev,
        ) =~= seq![m.halfedges[edge as int].next, m.halfedges[edge as int].prev]);
    }

    /// Legalizing turns diagonals and nothing else: the result is a mesh
    /// with the same vertices at the same points, as many faces and
    /// half-edges, and the same rims around the outside and the holes.
    pub proof fn lemma_legalize_keeps(
        self,
        stack: Seq<usize>,
        fuel: nat,
        in_circle: spec_fn(P, P, P, P, bool) -> bool,
        result: MeshView<P>,
        rest: Seq<usize>,
    )
        requires
            self.wf(),
            forall|i: int| 0 <= i < stack.len() ==> self.has_edge(#[trigger] stack[i] as int),
            self.legalizes(stack, fuel, in_circle, result, rest),
        ensures
            result.wf(),
            result.points() == self.points(),
            result.vertices.len() == self.vertices.len(),
            result.halfedges.len() == self.halfedges.len(),
            result.faces.len() == self.faces.len(),
            result.boundary == self.boundary,
            forall|f: int| 0 <= f < self.faces.len() ==> #[trigger] result.kind(f) == self.kind(f),
            forall|f: int|
                0 <= f < self.faces.len() && self.is_void(f) ==> #[trigger] result.face_rim(f)
                    == self.face_rim(f),
            forall|i: int| 0 <= i < rest.len() ==> result.has_edge(#[trigger] rest[i] as int),
        decreases fuel, stack.len(),
    {
        if stack.len() == 0 {
        } else {
            let h = stack.last() as int;
            let below = stack.drop_last();
            assert forall|i: int| 0 <= i < below.len() implies self.has_edge(
                #[trigger] below[i] as int,
            ) by {
                assert(below[i] == stack[i]);
            }
            if self.is_illegal(h, in_circle, false) && self.legalizes(
                below,
                fuel,
                in_circle,
                result,
                rest,
            ) {
                self.lemma_legalize_keeps(below, fuel, in_circle, result, rest);
            } else if fuel == 0 {
            } else {
                let m = self.flip(h);
                let next_stack = below.push(m.halfedges[h].next).push(m.halfedges[h].prev);
                self.lemma_asked_can_flip(h);
                self.lemma_flip_wf(h);
                self.lemma_flip_keeps_points(h);
                self.lemma_flip_keeps_kinds(h);
                assert(m.edge_ok(h));
                assert forall|i: int| 0 <= i < next_stack.len() implies m.has_edge(
                    #[trigger] next_stack[i] as int,
                ) by {
                    if i < below.len() {
                        assert(next_stack[i] == stack[i]);
                    }
                }
                m.lemma_legalize_keeps(next_stack, (fuel - 1) as nat, in_circle, result, rest);
                assert forall|f: int| 0 <= f < self.faces.len() implies #[trigger] result.kind(f)
                    == self.kind(f) by {
                    assert(m.kind(f) == self.kind(f));
                }
                assert forall|f: int|
                    0 <= f < self.faces.len() && self.is_void(f) implies #[trigger] result.face_rim(
                    f,
                ) == self.face_rim(f) by {
                    assert(m.kind(f) == self.kind(f));
                    self.lemma_flip_keeps_voids(h, f);
                    assert(result.face_rim(f) == m.face_rim(f));
                }
            }
        }
    }

    /// A half-edge for which the in-circle test is asked can be flipped.
    pub proof fn lemma_asked_can_flip(self, h: int)
        requires
            self.wf(),
            self.has_edge(h),
            self.asks(h),
        ensures
            self.can_flip(h),
    {
        assert(self.edge_ok(h));
        assert(self.edge_ok(self.twin(h)));
    }
}

impl<P> Mesh<P> {
    /// The first half-edge on the rim of the outside that `p` sees, or `None`
    /// if it sees none: then `p` lies to the left of every half-edge that
    /// runs along the outside.
    pub fn find_visible_edge<F: Fn(&P, &P, &P) -> Orientation>(&self, p: &P, orient: &F) -> (r:
        Option<usize>)
        requires
            self@.wf(),
            is_orientation_test(orient),
        ensures
            ({
                let rim = self@.face_rim(self@.boundary as int);
                match r {
                    Some(h) => exists|k: int|
                        {
                            &&& 0 <= k < rim.len()
                            &&& #[trigger] rim[k] == h
                            &&& self@.sees(h as int, *p, turns(orient))
                            &&& forall|j: int|
                                0 <= j < k ==> self@.misses(#[trigger] rim[j], *p, turns(orient))
                        },
                    None => forall|j: int|
                        0 <= j < rim.len() ==> self@.misses(#[trigger] rim[j], *p, turns(orient)),
                }
            }),
            r.is_none() ==> forall|h: int|
                self@.has_edge(h) && #[trigger] self@.face(h) == self@.boundary ==> self@.misses(
                    h,
                    *p,
                    turns(orient),
                ),
    {
        let ghost rim = self@.face_rim(self@.boundary as int);
        let mut walk: FaceIterator<'_, P> = self.iter_face(self.boundary());
        proof {
            assert(self@.face_ok(self@.boundary as int));
            self@.lemma_rim_once_around(self@.rim(self@.boundary as int));
        }
        let ghost mut k: int = 0;
        loop
            invariant
                self@.wf(),
                is_orientation_test(orient),
                walk.wf(),
                walk.mesh() == self@,
                rim == self@.face_rim(self@.boundary as int),
                0 <= k <= rim.len(),
                walk@ == rim.subrange(k, rim.len() as int),
                forall|i: int| 0 <= i < rim.len() ==> self@.has_edge(#[trigger] rim[i]),
                forall|j: int| 0 <= j < k ==> self@.misses(#[trigger] rim[j], *p, turns(orient)),
            decreases rim.len() - k,
        {
            match walk.next() {
                None => {
                    proof {
                        self@.lemma_face_rim_is_its_edges(self@.boundary as int);
                        assert forall|h: int|
                            self@.has_edge(h) && #[trigger] self@.face(h)
                                == self@.boundary implies self@.misses(h, *p, turns(orient)) by {
                            assert(rim.contains(h));
                            let j = choose|j: int| 0 <= j < rim.len() && rim[j] == h;
                            assert(self@.misses(rim[j], *p, turns(orient)));
                        }
                    }
                    return None;
                },
                Some(halfedge) => {
                    proof {
                        assert(rim.subrange(k, rim.len() as int)[0] == rim[k]);
                        assert(rim.subrange(k, rim.len() as int).drop_first() =~= rim.subrange(
                            k + 1,
                            rim.len() as int,
                        ));
                        assert(self@.has_edge(rim[k]));
                    }
                    let u2 = self.point_of_edge(halfedge);
                    let u1 = self.point_of_edge(self.twin(halfedge));
                    let turn = orient(p, u1, u2);
                    if !turn.is_ccw() {
                        proof {
                            assert(self@.turn_at(halfedge as int, *p, turns(orient), turn));
                        }
                        return Some(halfedge);
                    }
                    proof {
                        k = k + 1;
                    }
                },
            }
        }
    }

    /// Whether `a` breaks the Delaunay condition, by the in-circle test that
    /// the caller gives: whether the apex of the triangle on the side of `a`
    /// lies inside the circle through the corners of the triangle across
    /// `a`. A half-edge with the outside or a hole on either side never does.
    pub fn is_illegal<F: Fn(&P, &P, &P, &P) -> bool>(&self, a: usize, in_circle: &F) -> (r: bool)
        requires
            self@.wf(),
            self@.has_edge(a as int),
            is_in_circle_test(in_circle),
        ensures
            self@.is_illegal(a as int, lies_inside(in_circle), r),
            r ==> self@.can_flip(a as int),
    {
        let b = self.twin(a);
        let ar = self.prev(a);
        if self.is_border(b) {
            return false;
        }
        if self.face(a) == self.face(b) {
            return false;
        }
        proof {
            self@.lemma_asked_can_flip(a as int);
        }
        let al = self.next(a);
        let bl = self.prev(b);
        let br = self.next(b);

        let apex = self.point_of_edge(al);
        let right = self.point_of_edge(ar);
        let left = self.point_of_edge(bl);
        let far = self.point_of_edge(br);
        in_circle(apex, right, far, left)
    }

    /// The number of flips after which `legalize` gives up.
    pub fn flip_budget(&self) -> (budget: usize)
        ensures
            budget == self@.flip_budget(),
    {
        let v = self.number_of_vertices();
        if v == 0 {
            return 0;
        }
        assert((v as u128) * ((v - 1) as u128) <= 0xffff_ffff_ffff_ffff_ffff_ffff_ffff_ffff) by (nonlinear_arith)
            requires
                0 < v <= 0xffff_ffff_ffff_ffff,
        ;
        let pairs: u128 = (v as u128) * ((v - 1) as u128) / 2;
        if pairs <= usize::MAX as u128 {
            pairs as usize
        } else {
            usize::MAX
        }
    }

    /// Restores the Delaunay condition around `edge`: if `edge` is illegal it
    /// is flipped, and the same is done for the two half-edges next to it on
    /// its new rim, and so on. Returns whether that came to an end within the
    /// mesh's budget of flips. No point moves, and the rim of the outside
    /// stays as it is.
    pub fn legalize<F: Fn(&P, &P, &P, &P) -> bool>(&mut self, edge: usize, in_circle: &F) -> (done:
        bool)
        requires
            old(self)@.wf(),
            old(self)@.has_edge(edge as int),
            is_in_circle_test(in_circle),
        ensures
            final(self)@.wf(),
            exists|rest: Seq<usize>| #[trigger]
                old(self)@.legalizes(
                    seq![edge],
                    old(self)@.flip_budget(),
                    lies_inside(in_circle),
                    final(self)@,
                    rest,
                ) && done == (rest.len() == 0),
            final(self)@.points() == old(self)@.points(),
            final(self)@.face_rim(final(self)@.boundary as int) == old(self)@.face_rim(
                old(self)@.boundary as int,
            ),
    {
        let mut stack: Vec<usize> = Vec::new();
        stack.push(edge);
        let mut budget = self.flip_budget();
        let ghost start = old(self)@;
        let ghost first = seq![edge];
        let ghost fuel = start.flip_budget();
        proof {
            assert(stack@ =~= first);
        }
        let mut gave_up = false;
        while stack.len() > 0 && !gave_up
            invariant
                self@.wf(),
                start.wf(),
                forall|i: int| 0 <= i < first.len() ==> start.has_edge(#[trigger] first[i] as int),
                is_in_circle_test(in_circle),
                forall|i: int| 0 <= i < stack@.len() ==> self@.has_edge(#[trigger] stack@[i] as int),
                forall|result: MeshView<P>, rest: Seq<usize>| #[trigger]
                    self@.legalizes(stack@, budget as nat, lies_inside(in_circle), result, rest)
                        ==> start.legalizes(first, fuel, lies_inside(in_circle), result, rest),
                gave_up ==> stack@.len() > 0 && self@.legalizes(
                    stack@,
                    budget as nat,
                    lies_inside(in_circle),
                    self@,
                    stack@,
                ),
            decreases budget, stack@.len(), (if gave_up { 0int } else { 1int }),
        {
            let ghost before = self@;
            let ghost pending = stack@;
            let ghost had = budget as nat;
            let h = stack[stack.len() - 1];
            if !self.is_illegal(h, in_circle) {
                stack.pop();
                proof {
                    assert forall|result: MeshView<P>, rest: Seq<usize>| #[trigger]
                        self@.legalizes(
                            stack@,
                            budget as nat,
                            lies_inside(in_circle),
                            result,
                            rest,
                        ) implies start.legalizes(first, fuel, lies_inside(in_circle), result, rest) by {
                        assert(before.legalizes(pending, had, lies_inside(in_circle), result, rest));
                    }
                }
            } else if budget == 0 {
                gave_up = true;
            } else {
                proof {
                    before.lemma_quad_distinct(h as int);
                    before.lemma_flip_halfedges(h as int);
                }
                stack.pop();
                let twin = self.twin(h);
                let p = self.vertex(self.next(h));
                self.flip(h);
                budget = budget - 1;
                let vertex = self.vertex(h);
                let (e1, e2) = if vertex == p {
                    (self.prev(h), self.next(self.twin(twin)))
                } else {
                    (self.next(h), self.prev(self.twin(h)))
                };
                stack.push(e2);
                stack.push(e1);
                proof {
                    assert(stack@ =~= pending.drop_last().push(self@.halfedges[h as int].next).push(
                        self@.halfedges[h as int].prev,
                    ));
                    assert forall|result: MeshView<P>, rest: Seq<usize>| #[trigger]
                        self@.legalizes(
                            stack@,
                            budget as nat,
                            lies_inside(in_circle),
                            result,
                            rest,
                        ) implies start.legalizes(first, fuel, lies_inside(in_circle), result, rest) by {
                        assert(before.legalizes(pending, had, lies_inside(in_circle), result, rest));
                    }
                }
            }
        }
        proof {
            assert(self@.legalizes(stack@, budget as nat, lies_inside(in_circle), self@, stack@));
            assert(start.legalizes(first, fuel, lies_inside(in_circle), self@, stack@));
            start.lemma_legalize_keeps(first, fuel, lies_inside(in_circle), self@, stack@);
        }
        stack.len() == 0
    }
}

} // verus!
