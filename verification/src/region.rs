//! The square in which the point starts and is watched until it leaves.
//!
//! A coordinate is held as a rank: a signed integer that stands for a
//! position on one axis, such that a greater rank is a position further
//! along the axis. Whoever measures positions chooses the ranks; the square
//! only ever compares them. Ranks carry order and no distance, so a square
//! is made from its two opposite corners together with its centre.

use vstd::prelude::*;

verus! {

/// A position: its rank on each of the two axes.
#[derive(Copy, Clone, Debug, PartialEq, Eq, Structural)]
pub struct Point {
    pub x: i64,
    pub y: i64,
}

/// An axis-aligned square: the corner at which it begins, the opposite
/// corner, and its centre. The opposite corner lies beyond the first on both
/// axes, and the centre lies between the two.
#[derive(Copy, Clone, Debug, PartialEq, Eq)]
pub struct Region {
    origin: Point,
    corner: Point,
    center: Point,
}

/// Whether `p` lies between `low` and `high` on both axes, the bounds
/// included.
pub open spec fn between(low: Point, p: Point, high: Point) -> bool {
    low.x <= p.x <= high.x && low.y <= p.y <= high.y
}

/// Whether a square can span from `origin` to `corner` around `center`: its
/// sides have a length above zero, and the centre lies within it.
pub open spec fn spans(origin: Point, corner: Point, center: Point) -> bool {
    origin.x < corner.x && origin.y < corner.y && between(origin, center, corner)
}

impl Region {
    #[verifier::type_invariant]
    closed spec fn valid(&self) -> bool {
        spans(self.origin, self.corner, self.center)
    }

    /// The corner at which the square begins.
    pub closed spec fn low(&self) -> Point {
        self.origin
    }

    /// The corner opposite to the one at which the square begins.
    pub closed spec fn high(&self) -> Point {
        self.corner
    }

    /// The centre of the square.
    pub closed spec fn middle(&self) -> Point {
        self.center
    }

    /// Whether `p` lies in the square. A point on its boundary does.
    pub open spec fn encloses(&self, p: Point) -> bool {
        between(self.low(), p, self.high())
    }

    /// The square from `origin` to `corner` with the centre `center`; `None`
    /// unless such a square exists.
    pub fn new(origin: Point, corner: Point, center: Point) -> (made: Option<Region>)
        ensures
            made is Some <==> spans(origin, corner, center),
            made is Some ==> made->0.low() == origin && made->0.high() == corner
                && made->0.middle() == center,
    {
        if origin.x < corner.x && origin.y < corner.y && origin.x <= center.x && center.x
            <= corner.x && origin.y <= center.y && center.y <= corner.y {
            Some(Region { origin, corner, center })
        } else {
            None
        }
    }

    /// The corner at which the square begins.
    pub fn origin(&self) -> (p: Point)
        ensures
            p == self.low(),
    {
        self.origin
    }

    /// The corner opposite to the one at which the square begins.
    pub fn corner(&self) -> (p: Point)
        ensures
            p == self.high(),
            p.x > self.low().x,
            p.y > self.low().y,
    {
        proof {
            use_type_invariant(self);
        }
        self.corner
    }

    /// The centre of the square. It lies in the square.
    pub fn center(&self) -> (p: Point)
        ensures
            p == self.middle(),
            self.encloses(p),
    {
        proof {
            use_type_invariant(self);
        }
        self.center
    }

    /// Whether `p` lies in the square, its boundary included.
    pub fn contains(&self, p: Point) -> (inside: bool)
        ensures
            inside == self.encloses(p),
    {
        self.origin.x <= p.x && p.x <= self.corner.x && self.origin.y <= p.y && p.y
            <= self.corner.y
    }

    /// Whether `p` lies outside the square.
    pub fn is_outside(&self, p: Point) -> (outside: bool)
        ensures
            outside == !self.encloses(p),
    {
        !self.contains(p)
    }
}

} // verus!
