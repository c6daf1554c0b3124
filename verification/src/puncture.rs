//! Punctures of the plane and the three tests that a path asks of them.

use vstd::prelude::*;
use crate::point::{area2, Point};
use crate::word::{to_upper, upper};

verus! {

/// How far, in grid steps, a puncture may sit from a node's column and still
/// hold that node in place.
pub const BAND: i32 = 1;

/// The weight `n / d` lies between 0 and 1, both included.
pub open spec fn unit_weight(n: int, d: int) -> bool {
    if d > 0 {
        0 <= n <= d
    } else {
        d <= n <= 0
    }
}

/// `p` lies in the triangle `p1 p2 p3`, its boundary included.
///
/// With `d` twice the triangle's signed area, the barycentric weights of `p`
/// are `area2(p, p2, p3) / d`, `area2(p1, p, p3) / d` and what is left to 1.
/// A triangle without area contains nothing.
pub open spec fn in_triangle(p: Point, p1: Point, p2: Point, p3: Point) -> bool {
    let d = area2(p1, p2, p3);
    let a = area2(p, p2, p3);
    let b = area2(p1, p, p3);
    d != 0 && unit_weight(a, d) && unit_weight(b, d) && unit_weight(d - a - b, d)
}

/// The three weights that `in_triangle` tests are the barycentric coordinates
/// of `p`, each times `d`: they add up to `d`, and weighing the corners with
/// them gives `p` times `d`.
pub proof fn lemma_weights_locate_point(p: Point, p1: Point, p2: Point, p3: Point)
    ensures
        ({
            let d = area2(p1, p2, p3);
            let a = area2(p, p2, p3);
            let b = area2(p1, p, p3);
            let c = d - a - b;
            &&& c == area2(p1, p2, p)
            &&& a * p1.x + b * p2.x + c * p3.x == d * p.x
            &&& a * p1.y + b * p2.y + c * p3.y == d * p.y
        }),
{
    let (ux, uy) = (p1.x - p3.x, p1.y - p3.y);
    let (vx, vy) = (p2.x - p3.x, p2.y - p3.y);
    let (qx, qy) = (p.x - p3.x, p.y - p3.y);
    let d = ux * vy - vx * uy;
    let a = qx * vy - vx * qy;
    let b = ux * qy - qx * uy;
    let c = d - a - b;
    assert(c == (ux - qx) * (vy - qy) - (vx - qx) * (uy - qy)) by (nonlinear_arith)
        requires
            d == ux * vy - vx * uy,
            a == qx * vy - vx * qy,
            b == ux * qy - qx * uy,
            c == d - a - b,
    ;
    assert(p1.x - p.x == ux - qx && p2.y - p.y == vy - qy);
    assert(p2.x - p.x == vx - qx && p1.y - p.y == uy - qy);
    lemma_weights_balance(ux, uy, vx, vy, qx, qy);
    assert(a * p1.x + b * p2.x + c * p3.x == d * p.x) by (nonlinear_arith)
        requires
            a * ux + b * vx == d * qx,
            c == d - a - b,
            ux == p1.x - p3.x,
            vx == p2.x - p3.x,
            qx == p.x - p3.x,
    ;
    assert(a * p1.y + b * p2.y + c * p3.y == d * p.y) by (nonlinear_arith)
        requires
            a * uy + b * vy == d * qy,
            c == d - a - b,
            uy == p1.y - p3.y,
            vy == p2.y - p3.y,
            qy == p.y - p3.y,
    ;
}

/// Cramer's rule for two vectors `u`, `v` and a third one `q`: with the cross
/// products as weights, `u` and `v` add up to `q` times the cross product of
/// `u` and `v`.
proof fn lemma_weights_balance(ux: int, uy: int, vx: int, vy: int, qx: int, qy: int)
    ensures
        (qx * vy - vx * qy) * ux + (ux * qy - qx * uy) * vx == (ux * vy - vx * uy) * qx,
        (qx * vy - vx * qy) * uy + (ux * qy - qx * uy) * vy == (ux * vy - vx * uy) * qy,
{
    assert((qx * vy - vx * qy) * ux == qx * vy * ux - vx * qy * ux) by (nonlinear_arith);
    assert((ux * qy - qx * uy) * vx == ux * qy * vx - qx * uy * vx) by (nonlinear_arith);
    assert((ux * vy - vx * uy) * qx == ux * vy * qx - vx * uy * qx) by (nonlinear_arith);
    assert(qx * vy * ux == ux * vy * qx) by (nonlinear_arith);
    assert(vx * qy * ux == ux * qy * vx) by (nonlinear_arith);
    assert(qx * uy * vx == vx * uy * qx) by (nonlinear_arith);
    assert((qx * vy - vx * qy) * uy == qx * vy * uy - vx * qy * uy) by (nonlinear_arith);
    assert((ux * qy - qx * uy) * vy == ux * qy * vy - qx * uy * vy) by (nonlinear_arith);
    assert((ux * vy - vx * uy) * qy == ux * vy * qy - vx * uy * qy) by (nonlinear_arith);
    assert(qx * vy * uy == qx * uy * vy) by (nonlinear_arith);
    assert(vx * qy * uy == vx * uy * qy) by (nonlinear_arith);
    assert(ux * qy * vy == ux * vy * qy) by (nonlinear_arith);
}

/// The column `x` lies strictly between `p1` and `p2`, within `BAND` of `p2`,
/// and the path goes on past `p2` in the same direction.
pub open spec fn in_band(x: int, p1: Point, p2: Point, p3: Point) -> bool {
    ||| (p1.x < x < p2.x && p2.x < p3.x && p2.x - x <= BAND)
    ||| (p2.x < x < p1.x && p3.x < p2.x && x - p2.x <= BAND)
}

/// A puncture at `p` holds the middle node of `p1 p2 p3` in place.
pub open spec fn holds_node(p: Point, p1: Point, p2: Point, p3: Point) -> bool {
    in_triangle(p, p1, p2, p3) || in_band(p.x as int, p1, p2, p3)
}

/// What the segment from `start` to `end` adds to the winding around `p`.
///
/// Only a segment that passes above `p` counts, and only where `p`'s column
/// lies in the half-open span from `start.x` to `end.x`: `1` for a passage
/// from left to right, `-1` for one from right to left.
pub open spec fn winding(p: Point, start: Point, end: Point) -> Option<i32> {
    let c = area2(p, end, start);
    if c > 0 && start.x <= p.x < end.x {
        Some(1i32)
    } else if c < 0 && end.x <= p.x < start.x {
        Some(-1i32)
    } else {
        None
    }
}

/// Reversing a segment turns each winding contribution into its opposite.
pub proof fn lemma_winding_reversed(p: Point, start: Point, end: Point)
    ensures
        winding(p, end, start) == (match winding(p, start, end) {
            Some(n) => Some((-n) as i32),
            None => None,
        }),
{
    assert(area2(p, start, end) == -area2(p, end, start)) by (nonlinear_arith);
}

/// A segment that does not change column adds nothing to any winding.
pub proof fn lemma_winding_vertical(p: Point, start: Point, end: Point)
    requires
        start.x == end.x,
    ensures
        winding(p, start, end) is None,
{
}

/// A labelled point taken out of the plane.
///
/// The label is kept in upper case. In a word, the label in lower case stands
/// for a passage from left to right above the puncture and the label in upper
/// case for a passage from right to left.
#[derive(Clone, Copy, Debug, PartialEq, Eq, Structural)]
pub struct PuncturePoint {
    position: Point,
    name: char,
}

impl PuncturePoint {
    #[verifier::type_invariant]
    spec fn normalized(self) -> bool {
        upper(self.name) == self.name
    }

    /// Where the puncture lies.
    pub closed spec fn location(self) -> Point {
        self.position
    }

    /// The puncture's label.
    pub closed spec fn label(self) -> char {
        self.name
    }

    /// A puncture at `position`, labelled with the upper-case form of `name`.
    pub fn new(position: Point, name: char) -> (p: PuncturePoint)
        ensures
            p.location() == position,
            p.label() == upper(name),
    {
        PuncturePoint { position, name: to_upper(name) }
    }

    /// Where the puncture lies.
    pub fn position(&self) -> (p: &Point)
        ensures
            *p == self.location(),
    {
        &self.position
    }

    /// The puncture's label, which is never a lower-case ASCII letter.
    pub fn name(&self) -> (c: char)
        ensures
            c == self.label(),
            upper(c) == c,
    {
        proof {
            use_type_invariant(self);
        }
        self.name
    }

    /// Tells whether the puncture lies in the triangle `p1 p2 p3` or on its
    /// boundary. A triangle without area contains no puncture.
    pub fn is_in_triangle(&self, p1: &Point, p2: &Point, p3: &Point) -> (r: bool)
        ensures
            r == in_triangle(self.location(), *p1, *p2, *p3),
    {
        let d = Point::area2(p1, p2, p3);
        if d == 0 {
            return false;
        }
        let a = Point::area2(&self.position, p2, p3);
        let b = Point::area2(p1, &self.position, p3);
        let c = d - a - b;
        if d > 0 {
            0 <= a && a <= d && 0 <= b && b <= d && 0 <= c && c <= d
        } else {
            d <= a && a <= 0 && d <= b && b <= 0 && d <= c && c <= 0
        }
    }

    /// Tells whether the middle node of the path `p1 p2 p3` has to stay
    /// because of this puncture: the puncture lies in the triangle that the
    /// shortcut from `p1` to `p3` would sweep, or in the band beside `p2`.
    pub fn should_not_remove(&self, p1: &Point, p2: &Point, p3: &Point) -> (r: bool)
        ensures
            r == holds_node(self.location(), *p1, *p2, *p3),
    {
        if self.is_in_triangle(p1, p2, p3) {
            return true;
        }
        let x: i64 = self.position.x as i64;
        let x1: i64 = p1.x as i64;
        let x2: i64 = p2.x as i64;
        let x3: i64 = p3.x as i64;
        let band: i64 = BAND as i64;
        (x1 < x && x < x2 && x2 < x3 && x2 - x <= band) || (x2 < x && x < x1 && x3 < x2 && x - x2
            <= band)
    }

    /// Tells whether this puncture lets the middle node of `p1 p2 p3` go.
    pub fn should_remove(&self, p1: &Point, p2: &Point, p3: &Point) -> (r: bool)
        ensures
            r == !holds_node(self.location(), *p1, *p2, *p3),
    {
        !self.should_not_remove(p1, p2, p3)
    }

    /// The winding that the segment from `start` to `end` adds around this
    /// puncture: `Some(1)` where it passes above the puncture from left to
    /// right, `Some(-1)` where it passes above it from right to left, `None`
    /// otherwise.
    pub fn winding_update(&self, start: &Point, end: &Point) -> (r: Option<i32>)
        ensures
            r == winding(self.location(), *start, *end),
    {
        let c = Point::area2(&self.position, end, start);
        let x: i32 = self.position.x;
        if c > 0 && start.x <= x && x < end.x {
            Some(1)
        } else if c < 0 && end.x <= x && x < start.x {
            Some(-1)
        } else {
            None
        }
    }
}

/// No puncture holds the middle node of `p1 p2 p3`.
pub open spec fn removable(
    p1: Point,
    p2: Point,
    p3: Point,
    punctures: Seq<PuncturePoint>,
) -> bool {
    forall|i: int|
        0 <= i < punctures.len() ==> !holds_node(
            (#[trigger] punctures[i]).location(),
            p1,
            p2,
            p3,
        )
}

/// Tells whether every puncture lets the middle node of `p1 p2 p3` go.
pub fn should_remove(p1: &Point, p2: &Point, p3: &Point, punctures: &[PuncturePoint]) -> (r:
    bool)
    ensures
        r == removable(*p1, *p2, *p3, punctures@),
{
    let mut k: usize = 0;
    while k < punctures.len()
        invariant
            k <= punctures.len(),
            forall|i: int|
                0 <= i < k ==> !holds_node((#[trigger] punctures@[i]).location(), *p1, *p2, *p3),
        decreases punctures.len() - k,
    {
        if !punctures[k].should_remove(p1, p2, p3) {
            return false;
        }
        k += 1;
    }
    true
}

} // verus!
