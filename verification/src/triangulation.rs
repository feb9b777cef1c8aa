//! A bulk triangulation by index, as a Delaunay triangulator hands it out,
//! and the bars that the relaxation engine reads from it.

use vstd::prelude::*;
use crate::arena::EMPTY;

verus! {

/// `delaunator::next_halfedge`: the half-edge after `i` in its triangle,
/// where half-edges `3k`, `3k + 1`, `3k + 2` make triangle `k`. It is `i + 1`,
/// or `i - 2` for the third half-edge of a triangle. The index after the
/// largest one is left out: the sum would not fit.
pub assume_specification[ delaunator::next_halfedge ](i: usize) -> (r: usize)
    requires
        i % 3 != 2 ==> i + 1 <= usize::MAX,
    ensures
        r == next_in_triangle(i as int),
;

/// `delaunator::prev_halfedge`: the half-edge before `i` in its triangle. It
/// is `i - 1`, or `i + 2` for the first half-edge of a triangle. An index
/// whose sum with 2 would not fit is left out.
pub assume_specification[ delaunator::prev_halfedge ](i: usize) -> (r: usize)
    requires
        i % 3 == 0 ==> i + 2 <= usize::MAX,
    ensures
        r == prev_in_triangle(i as int),
;

/// The half-edge after `i` in its triangle.
pub open spec fn next_in_triangle(i: int) -> int {
    if i % 3 == 2 {
        i - 2
    } else {
        i + 1
    }
}

/// The half-edge before `i` in its triangle.
pub open spec fn prev_in_triangle(i: int) -> int {
    if i % 3 == 0 {
        i + 2
    } else {
        i - 1
    }
}

/// The steps along the sides of a triangle undo each other and stay in the
/// triangle: half-edge `i` belongs to triangle `i / 3`.
pub proof fn lemma_steps_in_triangle(i: int)
    requires
        0 <= i,
    ensures
        prev_in_triangle(next_in_triangle(i)) == i,
        next_in_triangle(prev_in_triangle(i)) == i,
        next_in_triangle(i) / 3 == i / 3,
        prev_in_triangle(i) / 3 == i / 3,
        next_in_triangle(next_in_triangle(next_in_triangle(i))) == i,
{
}

/// A bar: the spring between the points `u` and `v`, as it acts on `u`.
///
/// For a bar along a half-edge inside the triangulation, `hull_corner` is
/// the third corner of the triangle when the side after the bar lies on the
/// hull, where no neighbour pushes back. For a bar along the hull it is
/// `None`.
#[derive(Debug, Clone, Copy, PartialEq, Eq, Structural)]
pub struct Bar {
    pub u: usize,
    pub v: usize,
    pub hull_corner: Option<usize>,
}

/// A triangulation of points that are known by their indices.
///
/// `triangles[3k]`, `triangles[3k + 1]`, `triangles[3k + 2]` are the corners
/// of triangle `k`. `halfedges[i]` is the half-edge on the other side of
/// half-edge `i`, or `EMPTY` when `i` lies on the hull. `hull` lists the points
/// of the convex hull in order.
#[derive(Debug)]
pub struct Triangulation {
    pub triangles: Vec<usize>,
    pub halfedges: Vec<usize>,
    pub hull: Vec<usize>,
}

/// A triangulation as a value.
pub struct TriangulationView {
    pub triangles: Seq<usize>,
    pub halfedges: Seq<usize>,
    pub hull: Seq<usize>,
}

impl View for Triangulation {
    type V = TriangulationView;

    open spec fn view(&self) -> TriangulationView {
        TriangulationView {
            triangles: self.triangles@,
            halfedges: self.halfedges@,
            hull: self.hull@,
        }
    }
}

impl TriangulationView {
    /// The triangulation of no points.
    pub open spec fn empty() -> TriangulationView {
        TriangulationView { triangles: Seq::empty(), halfedges: Seq::empty(), hull: Seq::empty() }
    }

    /// Whether the half-edge `i` has a half-edge on its other side, which
    /// then names `i` as its own other side.
    pub open spec fn paired(self, i: int) -> bool {
        let t = self.halfedges[i];
        t != EMPTY ==> t < self.halfedges.len() && self.halfedges[t as int] == i
    }

    /// The triangulation is one of `npoints` points: its half-edges come in
    /// triangles, every corner and every hull entry names a point, and the
    /// half-edges that have another side are paired.
    pub open spec fn wf(self, npoints: nat) -> bool {
        &&& self.triangles.len() % 3 == 0
        &&& self.halfedges.len() == self.triangles.len()
        &&& forall|i: int| 0 <= i < self.triangles.len() ==> (#[trigger] self.triangles[i]) < npoints
        &&& forall|i: int| 0 <= i < self.halfedges.len() ==> #[trigger] self.paired(i)
        &&& forall|i: int| 0 <= i < self.hull.len() ==> (#[trigger] self.hull[i]) < npoints
    }

    /// The bar along half-edge `i`, which has another side: it acts on the
    /// corner that the other side starts at, and leads to the corner that `i`
    /// starts at.
    pub open spec fn bar_at(self, i: int) -> Bar {
        let e = self.halfedges[i] as int;
        Bar {
            u: self.triangles[e],
            v: self.triangles[i],
            hull_corner: if self.halfedges[next_in_triangle(e)] == EMPTY {
                Some(self.triangles[prev_in_triangle(e)])
            } else {
                None
            },
        }
    }

    /// The bars along the first `n` half-edges, in order: one for each that
    /// has another side.
    pub open spec fn interior_bars_upto(self, n: int) -> Seq<Bar>
        decreases n,
    {
        if n <= 0 {
            Seq::empty()
        } else if self.halfedges[n - 1] == EMPTY {
            self.interior_bars_upto(n - 1)
        } else {
            self.interior_bars_upto(n - 1).push(self.bar_at(n - 1))
        }
    }

    /// The bars inside the triangulation, by rising half-edge. An edge with
    /// a triangle on both sides gives two, one acting on each of its ends.
    pub open spec fn interior_bars(self) -> Seq<Bar> {
        self.interior_bars_upto(self.halfedges.len() as int)
    }

    /// The bars along the hull, by rising position on the hull: for each hull
    /// point the bar that acts on the point after it, then the bar that acts
    /// on the point itself. A hull of fewer than two points has none, nor has
    /// a triangulation without triangles.
    pub open spec fn hull_bars(self) -> Seq<Bar> {
        let len = self.hull.len() as int;
        if len < 2 || self.triangles.len() == 0 {
            Seq::empty()
        } else {
            Seq::new(
                (2 * len) as nat,
                |k: int|
                    {
                        let i = k / 2;
                        let here = self.hull[i];
                        let after = self.hull[(i + 1) % len];
                        if k % 2 == 0 {
                            Bar { u: after, v: here, hull_corner: None }
                        } else {
                            Bar { u: here, v: after, hull_corner: None }
                        }
                    },
            )
        }
    }

    /// All bars: those inside, then those along the hull. Every edge of the
    /// triangulation gives two bars, one acting on each of its ends.
    pub open spec fn bars(self) -> Seq<Bar> {
        self.interior_bars() + self.hull_bars()
    }

    /// Every bar joins two of the points.
    pub proof fn lemma_bars_name_points(self, npoints: nat)
        requires
            self.wf(npoints),
        ensures
            forall|k: int|
                0 <= k < self.bars().len() ==> {
                    let b = #[trigger] self.bars()[k];
                    &&& b.u < npoints
                    &&& b.v < npoints
                    &&& match b.hull_corner {
                        Some(w) => w < npoints,
                        None => true,
                    }
                },
    {
        self.lemma_interior_bars_name_points(npoints, self.halfedges.len() as int);
        let len = self.hull.len() as int;
        assert forall|k: int| 0 <= k < self.hull_bars().len() implies {
            let b = #[trigger] self.hull_bars()[k];
            b.u < npoints && b.v < npoints && b.hull_corner.is_none()
        } by {
            let i = k / 2;
            assert(0 <= i < len);
            assert(0 <= (i + 1) % len < len);
        }
    }

    /// Every bar along the first `n` half-edges joins two of the points.
    pub proof fn lemma_interior_bars_name_points(self, npoints: nat, n: int)
        requires
            self.wf(npoints),
            n <= self.halfedges.len(),
        ensures
            forall|k: int|
                0 <= k < self.interior_bars_upto(n).len() ==> {
                    let b = #[trigger] self.interior_bars_upto(n)[k];
                    &&& b.u < npoints
                    &&& b.v < npoints
                    &&& match b.hull_corner {
                        Some(w) => w < npoints,
                        None => true,
                    }
                },
        decreases n,
    {
        if n > 0 {
            self.lemma_interior_bars_name_points(npoints, n - 1);
            assert(self.paired(n - 1));
        }
    }

    /// The two bars of one edge run opposite ways: if the half-edge `i` has
    /// the other side `j`, the bar along `j` acts on the point that the bar
    /// along `i` leads to, and leads to the point that it acts on.
    pub proof fn lemma_bars_come_in_pairs(self, npoints: nat, i: int)
        requires
            self.wf(npoints),
            0 <= i < self.halfedges.len(),
            self.halfedges[i] != EMPTY,
        ensures
            ({
                let j = self.halfedges[i] as int;
                &&& 0 <= j < self.halfedges.len()
                &&& self.halfedges[j] == i
                &&& self.bar_at(j).u == self.bar_at(i).v
                &&& self.bar_at(j).v == self.bar_at(i).u
            }),
    {
        assert(self.paired(i));
    }
}

impl Triangulation {
    pub fn new(triangles: Vec<usize>, halfedges: Vec<usize>, hull: Vec<usize>) -> (t: Self)
        ensures
            t@ == (TriangulationView { triangles: triangles@, halfedges: halfedges@, hull: hull@ }),
    {
        Triangulation { triangles, halfedges, hull }
    }

    /// The triangulation of no points.
    pub fn empty() -> (t: Self)
        ensures
            t@ == TriangulationView::empty(),
            forall|n: nat| t@.wf(n),
    {
        Triangulation { triangles: Vec::new(), halfedges: Vec::new(), hull: Vec::new() }
    }

    /// The number of triangles.
    pub fn len(&self) -> (n: usize)
        ensures
            n == self@.triangles.len() / 3,
    {
        self.triangles.len() / 3
    }

    /// Whether there is no triangle: too few points, or all on one line.
    pub fn is_empty(&self) -> (r: bool)
        ensures
            r == (self@.triangles.len() == 0),
    {
        self.triangles.len() == 0
    }

    /// Whether the triangulation is one of `npoints` points.
    pub fn is_valid(&self, npoints: usize) -> (r: bool)
        ensures
            r == self@.wf(npoints as nat),
    {
        let n = self.triangles.len();
        if n % 3 != 0 || self.halfedges.len() != n {
            return false;
        }
        let mut i: usize = 0;
        while i < n
            invariant
                n == self@.triangles.len(),
                n == self@.halfedges.len(),
                i <= n,
                forall|j: int| 0 <= j < i ==> (#[trigger] self@.triangles[j]) < npoints,
                forall|j: int| 0 <= j < i ==> #[trigger] self@.paired(j),
            decreases n - i,
        {
            if self.triangles[i] >= npoints {
                assert(!(self@.triangles[i as int] < npoints));
                return false;
            }
            let t = self.halfedges[i];
            if t != EMPTY {
                if t >= n {
                    assert(!self@.paired(i as int));
                    return false;
                }
                if self.halfedges[t] != i {
                    assert(!self@.paired(i as int));
                    return false;
                }
            }
            i += 1;
        }
        let mut k: usize = 0;
        while k < self.hull.len()
            invariant
                k <= self@.hull.len(),
                forall|j: int| 0 <= j < k ==> (#[trigger] self@.hull[j]) < npoints,
            decreases self@.hull.len() - k,
        {
            if self.hull[k] >= npoints {
                assert(!(self@.hull[k as int] < npoints));
                return false;
            }
            k += 1;
        }
        true
    }

    /// Whether the half-edge `i` lies on the hull.
    pub fn on_hull(&self, i: usize) -> (r: bool)
        requires
            i < self@.halfedges.len(),
        ensures
            r == (self@.halfedges[i as int] == EMPTY),
    {
        self.halfedges[i] == EMPTY
    }

    /// The bars inside the triangulation, by rising half-edge.
    pub fn interior_bars(&self, npoints: usize) -> (bars: Vec<Bar>)
        requires
            self@.wf(npoints as nat),
        ensures
            bars@ == self@.interior_bars(),
    {
        let n = self.halfedges.len();
        let mut bars: Vec<Bar> = Vec::new();
        let mut i: usize = 0;
        while i < n
            invariant
                self@.wf(npoints as nat),
                n == self@.halfedges.len(),
                i <= n,
                bars@ == self@.interior_bars_upto(i as int),
            decreases n - i,
        {
            let iedge = self.halfedges[i];
            if iedge != EMPTY {
                proof {
                    assert(self@.paired(i as int));
                }
                let iu = self.triangles[iedge];
                let itwin = self.halfedges[iedge];
                let iv = self.triangles[itwin];
                let inext = delaunator::next_halfedge(iedge);
                let hull_corner = if self.halfedges[inext] == EMPTY {
                    let iprev = delaunator::prev_halfedge(iedge);
                    Some(self.triangles[iprev])
                } else {
                    None
                };
                bars.push(Bar { u: iu, v: iv, hull_corner });
            }
            i += 1;
        }
        bars
    }

    /// The bars along the hull, by rising position on the hull.
    pub fn hull_bars(&self) -> (bars: Vec<Bar>)
        ensures
            bars@ == self@.hull_bars(),
    {
        let len = self.hull.len();
        let mut bars: Vec<Bar> = Vec::new();
        if len < 2 || self.triangles.len() == 0 {
            return bars;
        }
        let mut i: usize = 0;
        while i < len
            invariant
                len == self@.hull.len(),
                len >= 2,
                self@.triangles.len() != 0,
                i <= len,
                bars@.len() == 2 * i,
                forall|k: int| 0 <= k < 2 * i ==> #[trigger] bars@[k] == self@.hull_bars()[k],
            decreases len - i,
        {
            let iv = self.hull[i];
            let iu = self.hull[(i + 1) % len];
            proof {
                assert((2 * i) / 2 == i && (2 * i) % 2 == 0);
                assert((2 * i + 1) / 2 == i && (2 * i + 1) % 2 == 1);
            }
            bars.push(Bar { u: iu, v: iv, hull_corner: None });
            bars.push(Bar { u: iv, v: iu, hull_corner: None });
            i += 1;
        }
        proof {
            assert(bars@ =~= self@.hull_bars());
        }
        bars
    }

    /// All bars: those inside, then those along the hull.
    pub fn bars(&self, npoints: usize) -> (bars: Vec<Bar>)
        requires
            self@.wf(npoints as nat),
        ensures
            bars@ == self@.bars(),
    {
        let mut bars = self.interior_bars(npoints);
        let mut hull = self.hull_bars();
        bars.append(&mut hull);
        bars
    }
}

} // verus!
