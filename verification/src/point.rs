//! Grid points and the exact orientation test on them.
//!
//! Coordinates are whole numbers of grid steps. Every predicate is decided in
//! integer arithmetic wide enough for any three points, so none of them
//! rounds.

use vstd::prelude::*;

verus! {

/// A point of the grid.
#[derive(Clone, Copy, Debug, PartialEq, Eq, Structural)]
pub struct Point {
    pub x: i32,
    pub y: i32,
}

/// Twice the signed area of the triangle `a b c`: the cross product of
/// `a - c` and `b - c`. It is positive where `a`, `b`, `c` turn
/// counter-clockwise, negative where they turn clockwise, and zero where they
/// lie on one line.
pub open spec fn area2(a: Point, b: Point, c: Point) -> int {
    (a.x - c.x) * (b.y - c.y) - (b.x - c.x) * (a.y - c.y)
}

/// The product of two coordinate differences stays within 65 bits.
proof fn lemma_product_bound(u: int, v: int)
    requires
        -0x1_0000_0000 < u < 0x1_0000_0000,
        -0x1_0000_0000 < v < 0x1_0000_0000,
    ensures
        -0x1_0000_0000_0000_0000 < u * v < 0x1_0000_0000_0000_0000,
{
    assert(-0x1_0000_0000_0000_0000 < u * v < 0x1_0000_0000_0000_0000) by (nonlinear_arith)
        requires
            -0x1_0000_0000 < u < 0x1_0000_0000,
            -0x1_0000_0000 < v < 0x1_0000_0000,
    ;
}

impl Point {
    /// The point with the given coordinates.
    pub fn new(x: i32, y: i32) -> (p: Point)
        ensures
            p.x == x,
            p.y == y,
    {
        Point { x, y }
    }

    /// Twice the signed area of the triangle `a b c`.
    pub fn area2(a: &Point, b: &Point, c: &Point) -> (r: i128)
        ensures
            r == area2(*a, *b, *c),
            -0x2_0000_0000_0000_0000 < r < 0x2_0000_0000_0000_0000,
    {
        let ux: i64 = a.x as i64 - c.x as i64;
        let uy: i64 = a.y as i64 - c.y as i64;
        let vx: i64 = b.x as i64 - c.x as i64;
        let vy: i64 = b.y as i64 - c.y as i64;
        proof {
            lemma_product_bound(ux as int, vy as int);
            lemma_product_bound(vx as int, uy as int);
        }
        let left: i128 = (ux as i128) * (vy as i128);
        let right: i128 = (vx as i128) * (uy as i128);
        left - right
    }
}

} // verus!
