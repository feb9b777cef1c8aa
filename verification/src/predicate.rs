//! The two geometric tests that the mesh asks of its points. The mesh does
//! not look into a point: the caller hands it the tests as functions, and
//! the mesh promises what it does with their answers.

use core::cmp::Ordering;
use vstd::prelude::*;

verus! {

/// How three points `p`, `q`, `r` turn, in this order.
#[derive(Debug, Clone, Copy, PartialEq, Eq, Structural)]
pub enum Orientation {
    /// `r` lies to the right of the line from `p` to `q`.
    Clockwise,
    /// The three points lie on one line.
    Collinear,
    /// `r` lies to the left of the line from `p` to `q`.
    CounterClockwise,
}

impl Orientation {
    /// The turn that the sign of an orientation determinant stands for:
    /// positive is counter-clockwise, negative is clockwise, zero is on a
    /// line. `sign` is how the determinant compares with zero.
    pub fn from_sign(sign: Ordering) -> (turn: Orientation)
        ensures
            turn == (match sign {
                Ordering::Greater => Orientation::CounterClockwise,
                Ordering::Less => Orientation::Clockwise,
                Ordering::Equal => Orientation::Collinear,
            }),
            turn.is_ccw_spec() <==> sign == Ordering::Greater,
    {
        match sign {
            Ordering::Greater => Orientation::CounterClockwise,
            Ordering::Less => Orientation::Clockwise,
            Ordering::Equal => Orientation::Collinear,
        }
    }

    /// Whether the points turn counter-clockwise; on a line they do not.
    pub open spec fn is_ccw_spec(self) -> bool {
        self == Orientation::CounterClockwise
    }

    /// Whether the points turn counter-clockwise; on a line they do not.
    #[verifier::when_used_as_spec(is_ccw_spec)]
    pub fn is_ccw(self) -> (r: bool)
        ensures
            r == self.is_ccw_spec(),
    {
        match self {
            Orientation::CounterClockwise => true,
            _ => false,
        }
    }
}

/// The orientation test `f` can be asked of any three points.
pub open spec fn is_orientation_test<P, F: Fn(&P, &P, &P) -> Orientation>(f: &F) -> bool {
    forall|p: &P, q: &P, r: &P| #[trigger] f.requires((p, q, r))
}

/// The in-circle test `f` can be asked of any four points.
pub open spec fn is_in_circle_test<P, F: Fn(&P, &P, &P, &P) -> bool>(f: &F) -> bool {
    forall|p: &P, a: &P, b: &P, c: &P| #[trigger] f.requires((p, a, b, c))
}

/// The answers of the orientation test `f`, as a relation: `f` can answer
/// `turn` for `p`, `q`, `r`.
pub open spec fn turns<P, F: Fn(&P, &P, &P) -> Orientation>(f: &F) -> spec_fn(
    P,
    P,
    P,
    Orientation,
) -> bool {
    |p: P, q: P, r: P, turn: Orientation| f.ensures((&p, &q, &r), turn)
}

/// The answers of the in-circle test `f`, as a relation: `f` can answer
/// `inside` to whether `p` lies inside the circle through `a`, `b`, `c`.
pub open spec fn lies_inside<P, F: Fn(&P, &P, &P, &P) -> bool>(f: &F) -> spec_fn(
    P,
    P,
    P,
    P,
    bool,
) -> bool {
    |p: P, a: P, b: P, c: P, inside: bool| f.ensures((&p, &a, &b, &c), inside)
}

} // verus!
