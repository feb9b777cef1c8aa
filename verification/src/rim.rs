//! Rims: the closed walks that `next` makes around the faces of a mesh.

use vstd::prelude::*;
use vstd::set_lib::{lemma_int_range, lemma_len_subset, set_int_range};
use crate::arena::FaceType;
use crate::model::MeshView;

verus! {

impl<P> MeshView<P> {
    /// The half-edge reached from `h` by `k` steps along `next`.
    pub open spec fn walk(self, h: int, k: nat) -> int
        decreases k,
    {
        if k == 0 {
            h
        } else {
            self.next(self.walk(h, (k - 1) as nat))
        }
    }

    /// The walk from `h` comes back to `h` after `k` steps, and not before.
    pub open spec fn returns_after(self, h: int, k: nat) -> bool {
        &&& k > 0
        &&& self.walk(h, k) == h
        &&& forall|j: nat| 0 < j < k ==> self.walk(h, j) != h
    }

    /// The number of half-edges on the rim that `h` lies on.
    pub open spec fn rim_len(self, h: int) -> nat {
        choose|k: nat| self.returns_after(h, k)
    }

    /// The rim that `h` lies on, once around from `h` in the direction of
    /// `next`.
    pub open spec fn rim_of(self, h: int) -> Seq<int> {
        Seq::new(self.rim_len(h), |i: int| self.walk(h, i as nat))
    }

    /// The rim of face `f`, once around from the half-edge that names it.
    pub open spec fn face_rim(self, f: int) -> Seq<int> {
        self.rim_of(self.rim(f))
    }

    /// Whether `h` lies on the rim of its face, as walked from the half-edge
    /// that names the face.
    pub open spec fn on_rim(self, h: int) -> bool {
        self.face_rim(self.face(h)).contains(h)
    }

    /// A walk stays inside the arena, and on the face it started on.
    pub proof fn lemma_walk_stays(self, h: int, k: nat)
        requires
            self.links_ok(),
            self.has_edge(h),
        ensures
            self.has_edge(self.walk(h, k)),
            self.face(self.walk(h, k)) == self.face(h),
        decreases k,
    {
        if k > 0 {
            self.lemma_walk_stays(h, (k - 1) as nat);
            assert(self.edge_ok(self.walk(h, (k - 1) as nat)));
        }
    }

    /// Two walks from `h` that meet have met `h` itself: the longer one
    /// passed `h` again when the shorter one started.
    pub proof fn lemma_walk_back(self, h: int, i: nat, j: nat)
        requires
            self.links_ok(),
            self.has_edge(h),
            i <= j,
            self.walk(h, i) == self.walk(h, j),
        ensures
            self.walk(h, (j - i) as nat) == h,
        decreases i,
    {
        if i > 0 {
            let x = self.walk(h, (i - 1) as nat);
            let y = self.walk(h, (j - 1) as nat);
            self.lemma_walk_stays(h, (i - 1) as nat);
            self.lemma_walk_stays(h, (j - 1) as nat);
            assert(self.edge_ok(x));
            assert(self.edge_ok(y));
            assert(self.prev(self.next(x)) == x);
            assert(self.prev(self.next(y)) == y);
            self.lemma_walk_back(h, (i - 1) as nat, (j - 1) as nat);
        }
    }

    /// Every walk comes back to where it started, after no more steps than
    /// there are half-edges.
    pub proof fn lemma_walk_returns(self, h: int)
        requires
            self.links_ok(),
            self.has_edge(h),
        ensures
            exists|k: nat| 0 < k <= self.halfedges.len() && self.walk(h, k) == h,
    {
        let n = self.halfedges.len();
        let s = Seq::new(n + 1, |i: int| self.walk(h, i as nat));
        assert forall|i: int| 0 <= i < s.len() implies 0 <= #[trigger] s[i] < n by {
            self.lemma_walk_stays(h, i as nat);
        }
        if s.no_duplicates() {
            s.unique_seq_to_set();
            lemma_int_range(0, n as int);
            assert(s.to_set().subset_of(set_int_range(0, n as int))) by {
                assert forall|x: int| s.to_set().contains(x) implies set_int_range(
                    0,
                    n as int,
                ).contains(x) by {
                    let i = choose|i: int| 0 <= i < s.len() && s[i] == x;
                    assert(0 <= s[i] < n);
                }
            }
            lemma_len_subset(s.to_set(), set_int_range(0, n as int));
            assert(false);
        }
        let (i, j) = choose|i: int, j: int|
            0 <= i < s.len() && 0 <= j < s.len() && i != j && s[i] == s[j];
        if i < j {
            self.lemma_walk_back(h, i as nat, j as nat);
            assert(self.walk(h, (j - i) as nat) == h);
        } else {
            self.lemma_walk_back(h, j as nat, i as nat);
            assert(self.walk(h, (i - j) as nat) == h);
        }
    }

    /// If a walk is back at `h` after `k` steps, it was first back after some
    /// number of steps up to `k`.
    pub proof fn lemma_first_return(self, h: int, k: nat)
        requires
            k > 0,
            self.walk(h, k) == h,
        ensures
            exists|m: nat| m <= k && self.returns_after(h, m),
        decreases k,
    {
        if forall|j: nat| 0 < j < k ==> self.walk(h, j) != h {
            assert(self.returns_after(h, k));
        } else {
            let j = choose|j: nat| 0 < j < k && self.walk(h, j) == h;
            self.lemma_first_return(h, j);
        }
    }

    /// The length of a rim is the number of steps after which the walk along
    /// it first comes back; a rim has at least one half-edge and no more than
    /// the mesh has.
    pub proof fn lemma_rim_len(self, h: int)
        requires
            self.links_ok(),
            self.has_edge(h),
        ensures
            self.returns_after(h, self.rim_len(h)),
            0 < self.rim_len(h) <= self.halfedges.len(),
    {
        self.lemma_walk_returns(h);
        let k = choose|k: nat| 0 < k <= self.halfedges.len() && self.walk(h, k) == h;
        self.lemma_first_return(h, k);
        let m = choose|m: nat| m <= k && self.returns_after(h, m);
        assert(self.returns_after(h, m));
        let r = self.rim_len(h);
        assert(self.returns_after(h, r));
        if r > m {
            assert(self.walk(h, m) != h);
        }
    }

    /// A rim goes once around: it starts at `h`, each of its half-edges is
    /// followed by its `next`, the last one by `h` again; all lie on the face
    /// of `h`, and none occurs twice.
    pub proof fn lemma_rim_once_around(self, h: int)
        requires
            self.links_ok(),
            self.has_edge(h),
        ensures
            0 < self.rim_of(h).len() <= self.halfedges.len(),
            self.rim_of(h)[0] == h,
            forall|i: int|
                0 <= i < self.rim_of(h).len() ==> self.has_edge(#[trigger] self.rim_of(h)[i])
                    && self.face(self.rim_of(h)[i]) == self.face(h),
            forall|i: int|
                0 <= i < self.rim_of(h).len() - 1 ==> self.next(#[trigger] self.rim_of(h)[i])
                    == self.rim_of(h)[i + 1],
            self.next(self.rim_of(h).last()) == h,
            self.rim_of(h).no_duplicates(),
    {
        self.lemma_rim_len(h);
        let r = self.rim_of(h);
        let n = self.rim_len(h);
        assert forall|i: int| 0 <= i < r.len() implies self.has_edge(#[trigger] r[i]) && self.face(
            r[i],
        ) == self.face(h) by {
            self.lemma_walk_stays(h, i as nat);
        }
        assert forall|i: int| 0 <= i < r.len() - 1 implies self.next(#[trigger] r[i]) == r[i
            + 1] by {
            assert(self.walk(h, (i + 1) as nat) == self.next(self.walk(h, i as nat)));
        }
        assert(self.walk(h, n) == self.next(self.walk(h, (n - 1) as nat)));
        assert forall|i: int, j: int| 0 <= i < r.len() && 0 <= j < r.len() && i != j implies r[i]
            != r[j] by {
            if r[i] == r[j] {
                if i < j {
                    self.lemma_walk_back(h, i as nat, j as nat);
                    assert(self.walk(h, (j - i) as nat) != h);
                } else {
                    self.lemma_walk_back(h, j as nat, i as nat);
                    assert(self.walk(h, (i - j) as nat) != h);
                }
            }
        }
    }

    /// The walk from `h` goes along `s` as far as `s` describes a walk: each
    /// of its half-edges is followed by its `next`.
    pub proof fn lemma_walk_along(self, h: int, s: Seq<int>, i: nat)
        requires
            s.len() > 0,
            s[0] == h,
            forall|j: int| 0 <= j < s.len() - 1 ==> self.next(#[trigger] s[j]) == s[j + 1],
            i < s.len(),
        ensures
            self.walk(h, i) == s[i as int],
        decreases i,
    {
        if i > 0 {
            self.lemma_walk_along(h, s, (i - 1) as nat);
            assert(self.next(s[i - 1]) == s[i - 1 + 1]);
        }
    }

    /// A sequence that goes once around from `h` is the rim of `h`: it starts
    /// at `h`, each of its half-edges is followed by its `next`, the last one
    /// by `h`, and `h` does not come again.
    pub proof fn lemma_rim_is(self, h: int, s: Seq<int>)
        requires
            s.len() > 0,
            s[0] == h,
            forall|j: int| 0 <= j < s.len() - 1 ==> self.next(#[trigger] s[j]) == s[j + 1],
            self.next(s.last()) == h,
            forall|j: int| 0 < j < s.len() ==> #[trigger] s[j] != h,
        ensures
            self.rim_len(h) == s.len(),
            self.rim_of(h) == s,
    {
        let n = s.len();
        assert forall|j: nat| j < n implies self.walk(h, j) == s[j as int] by {
            self.lemma_walk_along(h, s, j);
        }
        self.lemma_walk_along(h, s, (n - 1) as nat);
        assert(self.walk(h, n) == self.next(self.walk(h, (n - 1) as nat)));
        assert forall|j: nat| 0 < j < n implies self.walk(h, j) != h by {
            self.lemma_walk_along(h, s, j);
        }
        assert(self.returns_after(h, n));
        let k = self.rim_len(h);
        assert(self.returns_after(h, k));
        if k < n {
            assert(self.walk(h, k) != h);
        }
        if k > n {
            assert(self.walk(h, n) != h);
        }
        assert(self.rim_of(h) =~= s);
    }

    /// The rim of a half-edge on the rim of `x` is the same rim, started
    /// elsewhere.
    pub proof fn lemma_rim_rotates(self, x: int, k: int)
        requires
            self.links_ok(),
            self.has_edge(x),
            0 <= k < self.rim_len(x),
        ensures
            self.rim_of(self.rim_of(x)[k]) == self.rim_of(x).subrange(
                k,
                self.rim_len(x) as int,
            ) + self.rim_of(x).subrange(0, k),
    {
        self.lemma_rim_once_around(x);
        let r = self.rim_of(x);
        let n = r.len() as int;
        let s = r.subrange(k, n) + r.subrange(0, k);
        assert(s.len() == n);
        assert forall|j: int| 0 <= j < n implies #[trigger] s[j] == (if j < n - k {
            r[k + j]
        } else {
            r[j - (n - k)]
        }) by {}
        assert forall|j: int| 0 <= j < s.len() - 1 implies self.next(#[trigger] s[j]) == s[j
            + 1] by {
            if j < n - k - 1 {
                assert(self.next(r[k + j]) == r[k + j + 1]);
            } else if j == n - k - 1 {
                assert(r[k + j] == r.last());
            } else {
                assert(self.next(r[j - (n - k)]) == r[j - (n - k) + 1]);
            }
        }
        if k == 0 {
            assert(s.last() == r.last());
        } else {
            assert(s.last() == r[k - 1]);
            assert(self.next(r[k - 1]) == r[k - 1 + 1]);
        }
        self.lemma_rim_is(r[k], s);
    }

    /// Two half-edges on the rim of `x` lie on each other's rims.
    pub proof fn lemma_rim_shared(self, x: int, y: int, z: int)
        requires
            self.links_ok(),
            self.has_edge(x),
            self.rim_of(x).contains(y),
            self.rim_of(x).contains(z),
        ensures
            self.rim_of(y).contains(z),
    {
        let r = self.rim_of(x);
        let n = r.len() as int;
        let k = choose|k: int| 0 <= k < r.len() && r[k] == y;
        let i = choose|i: int| 0 <= i < r.len() && r[i] == z;
        self.lemma_rim_rotates(x, k);
        let s = r.subrange(k, n) + r.subrange(0, k);
        if i >= k {
            assert(s[i - k] == z);
        } else {
            assert(s[n - k + i] == z);
        }
    }

    /// The rim of a face holds the half-edges that run along the face, and
    /// no others, each once.
    pub proof fn lemma_face_rim_is_its_edges(self, f: int)
        requires
            self.wf(),
            self.has_face(f),
            self.kind(f) != FaceType::Destroyed,
        ensures
            self.face_rim(f).no_duplicates(),
            forall|x: int|
                #[trigger] self.face_rim(f).contains(x) <==> self.has_edge(x) && self.face(x) == f,
    {
        assert(self.face_ok(f));
        self.lemma_rim_once_around(self.rim(f));
        assert forall|x: int| self.has_edge(x) && self.face(x) == f implies self.face_rim(
            f,
        ).contains(x) by {
            assert(self.on_rim(x));
        }
    }

    /// The rim of a triangle has three half-edges.
    pub proof fn lemma_triangle_rim(self, h: int)
        requires
            self.links_ok(),
            self.has_edge(h),
            self.kind(self.face(h)) == FaceType::Normal,
        ensures
            self.rim_len(h) == 3,
            self.rim_of(h) == seq![h, self.next(h), self.next(self.next(h))],
    {
        self.lemma_rim_len(h);
        assert(self.edge_ok(h));
        assert(self.edge_ok(self.next(h)));
        assert(self.walk(h, 0) == h);
        assert(self.walk(h, 1) == self.next(h));
        assert(self.walk(h, 2) == self.next(self.next(h)));
        assert(self.walk(h, 3) == h);
        let n = self.rim_len(h);
        if n > 3 {
            assert(self.walk(h, 3) != h);
        }
        assert(n != 1);
        if n == 2 {
            assert(self.next(self.next(self.next(h))) == self.next(h));
        }
        assert(self.rim_of(h) =~= seq![h, self.next(h), self.next(self.next(h))]);
    }
}

} // verus!
