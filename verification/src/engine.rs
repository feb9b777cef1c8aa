//! The state of the relaxation engine and the bookkeeping of one step: which
//! points move, which stay, where new points go, and over which bars the
//! sums run.
//!
//! The engine does not compute with coordinates. `V` is a point or a force,
//! as the caller sees it; what is to be computed on them (the force of a bar,
//! a step of integration, the projection back onto the domain) the caller
//! hands in as functions.

use vstd::prelude::*;
use crate::arena::EMPTY;
use crate::triangulation::{Bar, Triangulation, TriangulationView};

verus! {

/// The state of the engine: the points, free ones first, then fixed ones; the
/// last triangulation of them; and the settings.
#[derive(Debug)]
pub struct DistMesh<V> {
    points: Vec<V>,
    triangulation: Triangulation,
    fixpoints: Vec<bool>,
    use_virtual_edges: bool,
    break_edges: bool,
    update_counter: usize,
}

/// The state of the engine as a value.
pub struct DistMeshView<V> {
    pub points: Seq<V>,
    /// For each point, whether it is fixed: then no step moves it.
    pub fixed: Seq<bool>,
    pub triangulation: TriangulationView,
    pub use_virtual_edges: bool,
    pub break_edges: bool,
    /// The number of steps done.
    pub steps: nat,
}

impl<V> DistMeshView<V> {
    /// Every point is marked fixed or free, and the triangulation is one of
    /// these points.
    pub open spec fn wf(self) -> bool {
        &&& self.fixed.len() == self.points.len()
        &&& self.triangulation.wf(self.points.len())
    }

    /// `sums` can be what `accumulate` builds up from `init` over the first
    /// `k` bars: each bar, in turn, makes a new sum of the sum so far and its
    /// two points.
    pub open spec fn sums_are<A>(
        self,
        k: int,
        init: A,
        accumulate: spec_fn(A, V, V, A) -> bool,
        sums: A,
    ) -> bool
        decreases k,
    {
        if k <= 0 {
            sums == init
        } else {
            let b = self.triangulation.bars()[k - 1];
            exists|so_far: A|
                self.sums_are(k - 1, init, accumulate, so_far) && #[trigger] accumulate(
                    so_far,
                    self.points[b.u as int],
                    self.points[b.v as int],
                    sums,
                )
        }
    }

    /// Whether the bar `b` brings the force of a virtual edge: virtual edges
    /// are in use, and the bar has a hull corner.
    pub open spec fn has_virtual_edge(self, b: Bar) -> bool {
        self.use_virtual_edges && b.hull_corner.is_some()
    }

    /// The virtual edge of the bar `b` can turn the force `before` into the
    /// force `after`: `combine` adds a force that `virtual_force` makes of
    /// the two points of the bar and its hull corner. A bar without a virtual
    /// edge leaves the force as it is.
    pub open spec fn virtual_edge_adds(
        self,
        b: Bar,
        before: V,
        virtual_force: spec_fn(V, V, V, V) -> bool,
        combine: spec_fn(V, V, V) -> bool,
        after: V,
    ) -> bool {
        if self.has_virtual_edge(b) {
            exists|pull: V|
                virtual_force(
                    self.points[b.u as int],
                    self.points[b.v as int],
                    self.points[b.hull_corner.unwrap() as int],
                    pull,
                ) && #[trigger] combine(before, pull, after)
        } else {
            after == before
        }
    }

    /// The bar `b` itself can turn the force `before` into the force
    /// `after`: `combine` adds a force that `force` makes of the two points
    /// of the bar.
    pub open spec fn edge_adds(
        self,
        b: Bar,
        before: V,
        force: spec_fn(V, V, V) -> bool,
        combine: spec_fn(V, V, V) -> bool,
        after: V,
    ) -> bool {
        exists|push: V|
            force(self.points[b.u as int], self.points[b.v as int], push) && #[trigger] combine(
                before,
                push,
                after,
            )
    }

    /// The bar `b` can turn the force `before` on the point it acts on into
    /// the force `after`: first its virtual edge adds its force, if it has
    /// one, then the bar itself.
    pub open spec fn bar_adds(
        self,
        b: Bar,
        before: V,
        force: spec_fn(V, V, V) -> bool,
        virtual_force: spec_fn(V, V, V, V) -> bool,
        combine: spec_fn(V, V, V) -> bool,
        after: V,
    ) -> bool {
        exists|between: V| #[trigger]
            self.virtual_edge_adds(b, before, virtual_force, combine, between) && self.edge_adds(
                b,
                between,
                force,
                combine,
                after,
            )
    }

    /// `forces` can be the forces on all points after the first `k` bars have
    /// acted: all forces start as `zero`, and each bar, in turn, adds to the
    /// force on the point it acts on.
    pub open spec fn forces_are(
        self,
        k: int,
        zero: V,
        force: spec_fn(V, V, V) -> bool,
        virtual_force: spec_fn(V, V, V, V) -> bool,
        combine: spec_fn(V, V, V) -> bool,
        forces: Seq<V>,
    ) -> bool
        decreases k,
    {
        if k <= 0 {
            forces == Seq::new(self.points.len(), |i: int| zero)
        } else {
            let b = self.triangulation.bars()[k - 1];
            exists|before: Seq<V>|
                {
                    &&& self.forces_are(k - 1, zero, force, virtual_force, combine, before)
                    &&& forces == before.update(b.u as int, forces[b.u as int])
                    &&& #[trigger] self.bar_adds(
                        b,
                        before[b.u as int],
                        force,
                        virtual_force,
                        combine,
                        forces[b.u as int],
                    )
                }
        }
    }

    /// `after` is this state after the hull edges have been split as
    /// `answers` says: `answers[i]` is what `split` answered for the point
    /// after the hull point `i` and that point itself, and the points it
    /// answered with have been added as free points, in order.
    pub open spec fn is_split_by(
        self,
        split: spec_fn(V, V, Option<V>) -> bool,
        answers: Seq<Option<V>>,
        after: DistMeshView<V>,
    ) -> bool {
        let bars = self.triangulation.hull_bars();
        &&& answers.len() * 2 == bars.len()
        &&& forall|i: int|
            0 <= i < answers.len() ==> split(
                self.points[bars[2 * i].u as int],
                self.points[bars[2 * i].v as int],
                #[trigger] answers[i],
            )
        &&& after == (DistMeshView {
            points: self.points + somes(answers),
            fixed: self.fixed + Seq::new(somes(answers).len(), |i: int| false),
            ..self
        })
    }
}

/// The points that `answers` holds, in order.
pub open spec fn somes<V>(answers: Seq<Option<V>>) -> Seq<V>
    decreases answers.len(),
{
    if answers.len() == 0 {
        Seq::empty()
    } else {
        match answers.last() {
            Some(p) => somes(answers.drop_last()).push(p),
            None => somes(answers.drop_last()),
        }
    }
}

/// What `f` can make of a sum and the two points of a bar, as a relation.
pub open spec fn accumulates<A, V, F: Fn(A, &V, &V) -> A>(f: &F) -> spec_fn(A, V, V, A) -> bool {
    |a: A, u: V, v: V, r: A| f.ensures((a, &u, &v), r)
}

/// What `f` can make of two values, as a relation.
pub open spec fn makes<V, F: Fn(&V, &V) -> V>(f: &F) -> spec_fn(V, V, V) -> bool {
    |u: V, v: V, r: V| f.ensures((&u, &v), r)
}

/// What `f` can make of three values, as a relation.
pub open spec fn makes_of_three<V, F: Fn(&V, &V, &V) -> V>(f: &F) -> spec_fn(V, V, V, V) -> bool {
    |u: V, v: V, w: V, r: V| f.ensures((&u, &v, &w), r)
}

/// What `f` can answer for two points, as a relation.
pub open spec fn answers_for<V, F: Fn(&V, &V) -> Option<V>>(f: &F) -> spec_fn(
    V,
    V,
    Option<V>,
) -> bool {
    |u: V, v: V, r: Option<V>| f.ensures((&u, &v), r)
}

impl<V> View for DistMesh<V> {
    type V = DistMeshView<V>;

    closed spec fn view(&self) -> DistMeshView<V> {
        DistMeshView {
            points: self.points@,
            fixed: self.fixpoints@,
            triangulation: self.triangulation@,
            use_virtual_edges: self.use_virtual_edges,
            break_edges: self.break_edges,
            steps: self.update_counter as nat,
        }
    }
}

impl<V> DistMesh<V> {
    /// An engine on the free points `free` and the fixed points `fixed`,
    /// which come after the free ones. It has no triangulation yet and has
    /// done no step.
    pub fn new(free: Vec<V>, fixed: Vec<V>, use_virtual_edges: bool, break_edges: bool) -> (engine:
        Self)
        ensures
            engine@.wf(),
            engine@ == (DistMeshView {
                points: free@ + fixed@,
                fixed: Seq::new((free@.len() + fixed@.len()) as nat, |i: int| i >= free@.len()),
                triangulation: TriangulationView::empty(),
                use_virtual_edges,
                break_edges,
                steps: 0,
            }),
    {
        let nfree = free.len();
        let nfixed = fixed.len();
        let ghost free_points = free@;
        let ghost fixed_points = fixed@;
        let mut points = free;
        let mut rest = fixed;
        points.append(&mut rest);
        let mut fixpoints: Vec<bool> = Vec::new();
        while fixpoints.len() < points.len()
            invariant
                points@.len() == nfree + nfixed,
                fixpoints@.len() <= points@.len(),
                forall|i: int| 0 <= i < fixpoints@.len() ==> #[trigger] fixpoints@[i] == (i >= nfree),
            decreases points@.len() - fixpoints@.len(),
        {
            let is_fixed = fixpoints.len() >= nfree;
            fixpoints.push(is_fixed);
        }
        let engine = DistMesh {
            points,
            triangulation: Triangulation::empty(),
            fixpoints,
            use_virtual_edges,
            break_edges,
            update_counter: 0,
        };
        proof {
            assert(engine@.fixed =~= Seq::new(
                (free_points.len() + fixed_points.len()) as nat,
                |i: int| i >= free_points.len(),
            ));
        }
        engine
    }

    /// The points, free ones first.
    pub fn points(&self) -> (points: &Vec<V>)
        ensures
            points@ == self@.points,
    {
        &self.points
    }

    /// The last triangulation of the points.
    pub fn triangulation(&self) -> (triangulation: &Triangulation)
        ensures
            triangulation@ == self@.triangulation,
    {
        &self.triangulation
    }

    /// Whether the point `iu` is fixed.
    pub fn is_fixpoint(&self, iu: usize) -> (r: bool)
        requires
            iu < self@.fixed.len(),
        ensures
            r == self@.fixed[iu as int],
    {
        self.fixpoints[iu]
    }

    /// Whether `halfedge` names no half-edge, as the other side of a
    /// half-edge on the hull does.
    pub fn is_empty(&self, halfedge: usize) -> (r: bool)
        ensures
            r == (halfedge == EMPTY),
    {
        halfedge == EMPTY
    }

    /// Whether the force of virtual edges is added along the hull.
    pub fn uses_virtual_edges(&self) -> (r: bool)
        ensures
            r == self@.use_virtual_edges,
    {
        self.use_virtual_edges
    }

    /// Whether hull edges that are too long are to be split.
    pub fn breaks_edges(&self) -> (r: bool)
        ensures
            r == self@.break_edges,
    {
        self.break_edges
    }

    /// The number of steps done.
    pub fn steps(&self) -> (n: usize)
        ensures
            n == self@.steps,
    {
        self.update_counter
    }

    /// All bars of the triangulation: those inside, then those along the
    /// hull. Each joins two of the points.
    pub fn bars(&self) -> (bars: Vec<Bar>)
        requires
            self@.wf(),
        ensures
            bars@ == self@.triangulation.bars(),
            forall|k: int|
                0 <= k < bars@.len() ==> (#[trigger] bars@[k]).u < self@.points.len() && bars@[k].v
                    < self@.points.len(),
    {
        proof {
            self@.triangulation.lemma_bars_name_points(self@.points.len());
        }
        self.triangulation.bars(self.points.len())
    }

    /// The sums that the scale factor of a step is made of: `accumulate` is
    /// called for every bar, in the order of `bars`, with the sum so far and
    /// the two points of the bar.
    pub fn compute_scaling<A, F: Fn(A, &V, &V) -> A>(&self, init: A, accumulate: &F) -> (sums: A)
        requires
            self@.wf(),
            forall|a: A, u: &V, v: &V| #[trigger] accumulate.requires((a, u, v)),
        ensures
            self@.sums_are(
                self@.triangulation.bars().len() as int,
                init,
                accumulates(accumulate),
                sums,
            ),
    {
        let bars = self.bars();
        let mut sums = init;
        let mut k: usize = 0;
        while k < bars.len()
            invariant
                self@.wf(),
                forall|a: A, u: &V, v: &V| #[trigger] accumulate.requires((a, u, v)),
                bars@ == self@.triangulation.bars(),
                forall|j: int|
                    0 <= j < bars@.len() ==> (#[trigger] bars@[j]).u < self@.points.len()
                        && bars@[j].v < self@.points.len(),
                k <= bars@.len(),
                self@.sums_are(k as int, init, accumulates(accumulate), sums),
            decreases bars@.len() - k,
        {
            let bar = bars[k];
            let u = &self.points[bar.u];
            let v = &self.points[bar.v];
            let ghost so_far = sums;
            sums = accumulate(sums, u, v);
            k += 1;
            proof {
                assert(self@.sums_are(k - 1, init, accumulates(accumulate), so_far));
                assert(accumulates(accumulate)(
                    so_far,
                    self@.points[bar.u as int],
                    self@.points[bar.v as int],
                    sums,
                ));
            }
        }
        sums
    }

    /// Splits the hull edges that `split` finds too long: for each hull point
    /// in turn, `split` is asked about the point after it and the point
    /// itself, and the point that it answers with, if any, is added as a free
    /// point after all others. Returns how many points were added.
    pub fn break_edges<F: Fn(&V, &V) -> Option<V>>(&mut self, split: &F) -> (added: usize)
        requires
            old(self)@.wf(),
            forall|u: &V, v: &V| #[trigger] split.requires((u, v)),
        ensures
            final(self)@.wf(),
            exists|answers: Seq<Option<V>>| #[trigger]
                old(self)@.is_split_by(answers_for(split), answers, final(self)@) && added == somes(
                    answers,
                ).len(),
    {
        let len = self.triangulation.hull.len();
        let ghost before = self@;
        let ghost bars = before.triangulation.hull_bars();
        let ghost mut answers: Seq<Option<V>> = Seq::empty();
        let mut added: usize = 0;
        if len < 2 || self.triangulation.is_empty() {
            proof {
                assert(self@.points =~= before.points + somes(answers));
                assert(self@.fixed =~= before.fixed + Seq::new(
                    somes(answers).len(),
                    |i: int| false,
                ));
                assert(before.is_split_by(answers_for(split), answers, self@));
            }
            return added;
        }
        let mut i: usize = 0;
        while i < len
            invariant
                forall|u: &V, v: &V| #[trigger] split.requires((u, v)),
                before.wf(),
                bars == before.triangulation.hull_bars(),
                bars.len() == 2 * len,
                len == before.triangulation.hull.len(),
                self.triangulation@ == before.triangulation,
                i <= len,
                answers.len() == i,
                added <= i,
                added == somes(answers).len(),
                forall|j: int|
                    0 <= j < i ==> split.ensures(
                        (&before.points[bars[2 * j].u as int], &before.points[bars[2 * j].v as int]),
                        #[trigger] answers[j],
                    ),
                self@ == (DistMeshView {
                    points: before.points + somes(answers),
                    fixed: before.fixed + Seq::new(somes(answers).len(), |i: int| false),
                    ..before
                }),
            decreases len - i,
        {
            let iv = self.triangulation.hull[i];
            let iu = self.triangulation.hull[(i + 1) % len];
            proof {
                assert((2 * i) / 2 == i && (2 * i) % 2 == 0);
                assert(bars[2 * i].u == iu && bars[2 * i].v == iv);
                assert(0 <= (i + 1) % (len as int) < len);
            }
            let answer = split(&self.points[iu], &self.points[iv]);
            let ghost old_answers = answers;
            proof {
                answers = answers.push(answer);
                assert(answers.drop_last() =~= old_answers);
            }
            match answer {
                Some(center) => {
                    self.points.push(center);
                    self.fixpoints.push(false);
                    added = added + 1;
                    proof {
                        assert(self@.points =~= before.points + somes(answers));
                        assert(self@.fixed =~= before.fixed + Seq::new(
                            somes(answers).len(),
                            |i: int| false,
                        ));
                    }
                },
                None => {},
            }
            i += 1;
        }
        proof {
            assert(before.is_split_by(answers_for(split), answers, self@));
        }
        added
    }

    /// Moves the free points: the point `i` becomes what `advance` makes of
    /// it and of `forces[i]`. Fixed points stay, and so do points that
    /// `forces` does not reach.
    pub fn update_points<F: Fn(&V, &V) -> V>(&mut self, forces: &Vec<V>, advance: &F)
        requires
            old(self)@.wf(),
            forces@.len() <= old(self)@.points.len(),
            forall|p: &V, f: &V| #[trigger] advance.requires((p, f)),
        ensures
            final(self)@.wf(),
            final(self)@.points.len() == old(self)@.points.len(),
            final(self)@ == (DistMeshView { points: final(self)@.points, ..old(self)@ }),
            forall|i: int|
                0 <= i < old(self)@.points.len() ==> if old(self)@.fixed[i] || i >= forces@.len() {
                    #[trigger] final(self)@.points[i] == old(self)@.points[i]
                } else {
                    advance.ensures((&old(self)@.points[i], &forces@[i]), final(self)@.points[i])
                },
    {
        let ghost before = self@;
        let mut iu: usize = 0;
        while iu < forces.len()
            invariant
                forall|p: &V, f: &V| #[trigger] advance.requires((p, f)),
                before.wf(),
                forces@.len() <= before.points.len(),
                iu <= forces@.len(),
                self@ == (DistMeshView { points: self@.points, ..before }),
                self@.points.len() == before.points.len(),
                forall|i: int|
                    0 <= i < before.points.len() ==> if before.fixed[i] || i >= iu {
                        #[trigger] self@.points[i] == before.points[i]
                    } else {
                        advance.ensures((&before.points[i], &forces@[i]), self@.points[i])
                    },
            decreases forces@.len() - iu,
        {
            if !self.fixpoints[iu] {
                let moved = advance(&self.points[iu], &forces[iu]);
                self.points[iu] = moved;
            }
            iu += 1;
        }
    }

    /// Brings the free points that have left the domain back: the point `i`
    /// becomes the point that `project` answers with, if any. Fixed points
    /// stay.
    pub fn pushback_points<F: Fn(&V) -> Option<V>>(&mut self, project: &F)
        requires
            old(self)@.wf(),
            forall|p: &V| #[trigger] project.requires((p,)),
        ensures
            final(self)@.wf(),
            final(self)@.points.len() == old(self)@.points.len(),
            final(self)@ == (DistMeshView { points: final(self)@.points, ..old(self)@ }),
            forall|i: int|
                0 <= i < old(self)@.points.len() ==> if old(self)@.fixed[i] {
                    #[trigger] final(self)@.points[i] == old(self)@.points[i]
                } else {
                    ||| project.ensures((&old(self)@.points[i],), Some(final(self)@.points[i]))
                    ||| (project.ensures((&old(self)@.points[i],), None) && final(self)@.points[i]
                        == old(self)@.points[i])
                },
    {
        let ghost before = self@;
        let mut iu: usize = 0;
        while iu < self.points.len()
            invariant
                forall|p: &V| #[trigger] project.requires((p,)),
                before.wf(),
                iu <= before.points.len(),
                self@ == (DistMeshView { points: self@.points, ..before }),
                self@.points.len() == before.points.len(),
                forall|i: int|
                    0 <= i < before.points.len() ==> if before.fixed[i] || i >= iu {
                        #[trigger] self@.points[i] == before.points[i]
                    } else {
                        ||| project.ensures((&before.points[i],), Some(self@.points[i]))
                        ||| (project.ensures((&before.points[i],), None) && self@.points[i]
                            == before.points[i])
                    },
            decreases before.points.len() - iu,
        {
            if !self.fixpoints[iu] {
                match project(&self.points[iu]) {
                    Some(inside) => {
                        self.points[iu] = inside;
                    },
                    None => {},
                }
            }
            iu += 1;
        }
    }

    /// Takes `triangulation` as the triangulation of the points. One that is
    /// not a triangulation of these points is taken for the empty one.
    pub fn retriangulate(&mut self, triangulation: Triangulation)
        requires
            old(self)@.wf(),
        ensures
            final(self)@.wf(),
            final(self)@ == (DistMeshView {
                triangulation: if triangulation@.wf(old(self)@.points.len()) {
                    triangulation@
                } else {
                    TriangulationView::empty()
                },
                ..old(self)@
            }),
    {
        if triangulation.is_valid(self.points.len()) {
            self.triangulation = triangulation;
        } else {
            self.triangulation = Triangulation::empty();
        }
    }

    /// Ends a step: takes `triangulation` as the triangulation of the points,
    /// as `retriangulate` does, and counts the step.
    pub fn finish_update(&mut self, triangulation: Triangulation)
        requires
            old(self)@.wf(),
            old(self)@.steps < usize::MAX,
        ensures
            final(self)@.wf(),
            final(self)@ == (DistMeshView {
                triangulation: if triangulation@.wf(old(self)@.points.len()) {
                    triangulation@
                } else {
                    TriangulationView::empty()
                },
                steps: old(self)@.steps + 1,
                ..old(self)@
            }),
    {
        self.retriangulate(triangulation);
        self.update_counter = self.update_counter + 1;
    }
}

impl<V: Copy> DistMesh<V> {
    /// The force on every point: `zero` where no bar acts; else what
    /// `combine` makes, bar by bar in the order of `bars`, of the force so
    /// far and the `force` of the bar. Where virtual edges are in use, a bar
    /// with a hull corner first adds its `virtual_force`.
    pub fn compute_forces<F: Fn(&V, &V) -> V, G: Fn(&V, &V, &V) -> V, H: Fn(&V, &V) -> V>(
        &self,
        zero: V,
        force: &F,
        virtual_force: &G,
        combine: &H,
    ) -> (forces: Vec<V>)
        requires
            self@.wf(),
            forall|u: &V, v: &V| #[trigger] force.requires((u, v)),
            forall|u: &V, v: &V, w: &V| #[trigger] virtual_force.requires((u, v, w)),
            forall|a: &V, b: &V| #[trigger] combine.requires((a, b)),
        ensures
            forces@.len() == self@.points.len(),
            self@.forces_are(
                self@.triangulation.bars().len() as int,
                zero,
                makes(force),
                makes_of_three(virtual_force),
                makes(combine),
                forces@,
            ),
    {
        let n = self.points.len();
        let mut forces: Vec<V> = Vec::new();
        while forces.len() < n
            invariant
                n == self@.points.len(),
                forces@.len() <= n,
                forall|i: int| 0 <= i < forces@.len() ==> #[trigger] forces@[i] == zero,
            decreases n - forces@.len(),
        {
            forces.push(zero);
        }
        proof {
            assert(forces@ =~= Seq::new(self@.points.len(), |i: int| zero));
            self@.triangulation.lemma_bars_name_points(self@.points.len());
        }
        let bars = self.bars();
        let mut k: usize = 0;
        while k < bars.len()
            invariant
                self@.wf(),
                forall|u: &V, v: &V| #[trigger] force.requires((u, v)),
                forall|u: &V, v: &V, w: &V| #[trigger] virtual_force.requires((u, v, w)),
                forall|a: &V, b: &V| #[trigger] combine.requires((a, b)),
                n == self@.points.len(),
                bars@ == self@.triangulation.bars(),
                forall|j: int|
                    0 <= j < bars@.len() ==> {
                        let b = #[trigger] self@.triangulation.bars()[j];
                        &&& b.u < n
                        &&& b.v < n
                        &&& match b.hull_corner {
                            Some(w) => w < n,
                            None => true,
                        }
                    },
                k <= bars@.len(),
                forces@.len() == n,
                self@.forces_are(
                    k as int,
                    zero,
                    makes(force),
                    makes_of_three(virtual_force),
                    makes(combine),
                    forces@,
                ),
            decreases bars@.len() - k,
        {
            let bar = bars[k];
            proof {
                assert(bar == self@.triangulation.bars()[k as int]);
            }
            let ghost before = forces@;
            let u = &self.points[bar.u];
            let v = &self.points[bar.v];
            let mut sum = forces[bar.u];
            if self.use_virtual_edges {
                match bar.hull_corner {
                    Some(iw) => {
                        let w = &self.points[iw];
                        let pull = virtual_force(u, v, w);
                        let ghost start = sum;
                        sum = combine(&sum, &pull);
                        proof {
                            assert(makes_of_three(virtual_force)(
                                self@.points[bar.u as int],
                                self@.points[bar.v as int],
                                self@.points[bar.hull_corner.unwrap() as int],
                                pull,
                            ));
                            assert(makes(combine)(start, pull, sum));
                        }
                    },
                    None => {},
                }
            }
            proof {
                assert(self@.virtual_edge_adds(
                    bar,
                    before[bar.u as int],
                    makes_of_three(virtual_force),
                    makes(combine),
                    sum,
                ));
            }
            let ghost between = sum;
            let push = force(u, v);
            sum = combine(&sum, &push);
            forces[bar.u] = sum;
            k += 1;
            proof {
                assert(makes(force)(self@.points[bar.u as int], self@.points[bar.v as int], push));
                assert(makes(combine)(between, push, sum));
                assert(self@.edge_adds(bar, between, makes(force), makes(combine), sum));
                assert(self@.bar_adds(
                    bar,
                    before[bar.u as int],
                    makes(force),
                    makes_of_three(virtual_force),
                    makes(combine),
                    sum,
                ));
                assert(forces@ =~= before.update(bar.u as int, forces@[bar.u as int]));
                assert(self@.forces_are(
                    k - 1,
                    zero,
                    makes(force),
                    makes_of_three(virtual_force),
                    makes(combine),
                    before,
                ));
            }
        }
        forces
    }
}

} // verus!
