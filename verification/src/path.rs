//! Piecewise-linear paths: polylines that always hold at least one node.

use vstd::prelude::*;
use vstd::std_specs::cmp::PartialEqSpecImpl;
use crate::point::Point;

verus! {

/// The segments between neighbouring nodes, in travel order. A step between
/// two equal nodes has no length and yields no segment.
pub open spec fn steps(nodes: Seq<Point>) -> Seq<(Point, Point)>
    decreases nodes.len(),
{
    if nodes.len() < 2 {
        Seq::empty()
    } else {
        let a = nodes[nodes.len() - 2];
        let b = nodes[nodes.len() - 1];
        if a == b {
            steps(nodes.drop_last())
        } else {
            steps(nodes.drop_last()).push((a, b))
        }
    }
}

/// The segment that leads from the end of the path back to its start, where
/// the two differ.
pub open spec fn closing_step(nodes: Seq<Point>) -> Seq<(Point, Point)> {
    if nodes.len() > 0 && nodes.last() != nodes.first() {
        seq![(nodes.last(), nodes.first())]
    } else {
        Seq::empty()
    }
}

/// The segments of the loop that the path closes: its steps, then the way
/// back to the start.
pub open spec fn loop_segments(nodes: Seq<Point>) -> Seq<(Point, Point)> {
    steps(nodes) + closing_step(nodes)
}

/// A polyline through grid points, in travel order.
///
/// The start is held apart from the nodes that follow it, so a path cannot be
/// without a node.
#[derive(Debug)]
pub struct PLPath {
    first: Point,
    rest: Vec<Point>,
}

impl View for PLPath {
    type V = Seq<Point>;

    closed spec fn view(&self) -> Seq<Point> {
        seq![self.first] + self.rest@
    }
}

impl Clone for PLPath {
    fn clone(&self) -> (path: PLPath)
        ensures
            path@ == self@,
    {
        let mut rest: Vec<Point> = Vec::new();
        let mut k: usize = 0;
        while k < self.rest.len()
            invariant
                k <= self.rest@.len(),
                rest@ == self.rest@.take(k as int),
            decreases self.rest@.len() - k,
        {
            rest.push(self.rest[k]);
            k += 1;
            proof {
                assert(self.rest@.take(k as int) =~= self.rest@.take(k - 1).push(
                    self.rest@[k - 1],
                ));
            }
        }
        proof {
            assert(self.rest@.take(k as int) =~= self.rest@);
        }
        PLPath { first: self.first, rest }
    }
}

impl PartialEq for PLPath {
    fn eq(&self, other: &Self) -> (equal: bool) {
        let n = self.rest.len();
        if self.first != other.first || n != other.rest.len() {
            proof {
                if self.first != other.first {
                    assert(self@[0] != other@[0]);
                } else {
                    assert(self@.len() != other@.len());
                }
            }
            return false;
        }
        let mut k: usize = 0;
        while k < n
            invariant
                n == self.rest@.len(),
                n == other.rest@.len(),
                k <= n,
                self.rest@.take(k as int) == other.rest@.take(k as int),
            decreases n - k,
        {
            if self.rest[k] != other.rest[k] {
                proof {
                    assert(self@[k + 1] != other@[k + 1]);
                }
                return false;
            }
            k += 1;
            proof {
                assert(self.rest@.take(k as int) =~= self.rest@.take(k - 1).push(
                    self.rest@[k - 1],
                ));
                assert(other.rest@.take(k as int) =~= other.rest@.take(k - 1).push(
                    other.rest@[k - 1],
                ));
            }
        }
        proof {
            assert(self.rest@.take(n as int) =~= self.rest@);
            assert(other.rest@.take(n as int) =~= other.rest@);
        }
        true
    }
}

impl PartialEqSpecImpl for PLPath {
    open spec fn obeys_eq_spec() -> bool {
        true
    }

    open spec fn eq_spec(&self, other: &Self) -> bool {
        self@ == other@
    }
}

impl PLPath {
    /// A path is never empty.
    pub proof fn lemma_inhabited(&self)
        ensures
            self@.len() >= 1,
    {
    }

    /// A path through the given nodes, of which there is at least one.
    pub fn new(nodes: Vec<Point>) -> (path: PLPath)
        requires
            nodes@.len() >= 1,
        ensures
            path@ == nodes@,
    {
        let mut rest = nodes;
        let first = rest.remove(0);
        proof {
            assert(seq![first] + rest@ =~= nodes@);
        }
        PLPath { first, rest }
    }

    /// The path that stays at `start`.
    pub fn at(start: Point) -> (path: PLPath)
        ensures
            path@ == seq![start],
    {
        let path = PLPath { first: start, rest: Vec::new() };
        proof {
            assert(path@ =~= seq![start]);
        }
        path
    }

    /// The straight path from `start` to `end`.
    pub fn line(start: Point, end: Point) -> (path: PLPath)
        ensures
            path@ == seq![start, end],
    {
        let mut rest: Vec<Point> = Vec::new();
        rest.push(end);
        proof {
            assert(seq![start] + rest@ =~= seq![start, end]);
        }
        PLPath { first: start, rest }
    }

    /// The last two nodes, the later one second, where the path has two.
    pub fn last_two(&self) -> (pair: Option<(Point, Point)>)
        ensures
            self@.len() >= 2 ==> pair == Some((self@[self@.len() - 2], self@[self@.len() - 1])),
            self@.len() < 2 ==> pair is None,
    {
        let n = self.rest.len();
        if n == 0 {
            None
        } else if n == 1 {
            Some((self.first, self.rest[0]))
        } else {
            Some((self.rest[n - 2], self.rest[n - 1]))
        }
    }

    /// The nodes in travel order.
    pub fn nodes(&self) -> (nodes: Vec<Point>)
        ensures
            nodes@ == self@,
    {
        let mut nodes: Vec<Point> = Vec::new();
        nodes.push(self.first);
        let mut k: usize = 0;
        while k < self.rest.len()
            invariant
                k <= self.rest@.len(),
                nodes@ == seq![self.first] + self.rest@.take(k as int),
            decreases self.rest@.len() - k,
        {
            nodes.push(self.rest[k]);
            k += 1;
            proof {
                assert(seq![self.first] + self.rest@.take(k as int) =~= (seq![self.first]
                    + self.rest@.take(k - 1)).push(self.rest@[k - 1]));
            }
        }
        proof {
            assert(self.rest@.take(k as int) =~= self.rest@);
        }
        nodes
    }

    /// The nodes in travel order, followed by the start once more.
    pub fn closed_loop(&self) -> (nodes: Vec<Point>)
        ensures
            nodes@ == self@.push(self@.first()),
    {
        let mut nodes = self.nodes();
        nodes.push(self.first);
        nodes
    }

    /// The first node.
    pub fn start(&self) -> (p: &Point)
        ensures
            *p == self@.first(),
    {
        &self.first
    }

    /// The last node.
    pub fn end(&self) -> (p: &Point)
        ensures
            *p == self@.last(),
    {
        let n = self.rest.len();
        if n == 0 {
            &self.first
        } else {
            &self.rest[n - 1]
        }
    }

    /// Puts `position` behind the last node.
    pub fn push(&mut self, position: &Point)
        ensures
            final(self)@ == old(self)@.push(*position),
    {
        self.rest.push(*position);
        proof {
            assert(seq![self.first] + self.rest@ =~= (seq![self.first] + old(self).rest@).push(
                *position,
            ));
        }
    }

    /// Takes the last node off and returns it, unless it is the only one:
    /// then the path stays as it is and nothing is returned.
    pub fn pop(&mut self) -> (last: Option<Point>)
        ensures
            old(self)@.len() >= 2 ==> last == Some(old(self)@.last()) && final(self)@ == old(
                self,
            )@.drop_last(),
            old(self)@.len() < 2 ==> last is None && final(self)@ == old(self)@,
    {
        let last = self.rest.pop();
        proof {
            if old(self).rest@.len() > 0 {
                assert(seq![self.first] + self.rest@ =~= (seq![self.first] + old(
                    self,
                ).rest@).drop_last());
            }
        }
        last
    }

    /// The path with its nodes in the opposite order.
    pub fn reverse(&self) -> (path: PLPath)
        ensures
            path@ == self@.reverse(),
    {
        let n = self.rest.len();
        if n == 0 {
            let path = PLPath { first: self.first, rest: Vec::new() };
            proof {
                assert(path@ =~= self@.reverse());
            }
            return path;
        }
        let mut rest: Vec<Point> = Vec::new();
        let mut k: usize = n - 1;
        while k > 0
            invariant
                n == self.rest@.len(),
                k < n,
                rest@.len() == n - 1 - k,
                forall|i: int| 0 <= i < rest@.len() ==> rest@[i] == self.rest@[n - 2 - i],
            decreases k,
        {
            k -= 1;
            rest.push(self.rest[k]);
        }
        rest.push(self.first);
        let path = PLPath { first: self.rest[n - 1], rest };
        proof {
            assert(path@ =~= self@.reverse());
        }
        path
    }

    /// The path through the nodes of `self` and then those of `other`. The
    /// node at the seam is kept twice where the two paths meet in it.
    pub fn concatenate(&self, other: &PLPath) -> (path: PLPath)
        ensures
            path@ == self@ + other@,
    {
        let mut path = self.clone();
        path.rest.push(other.first);
        let mut j: usize = 0;
        while j < other.rest.len()
            invariant
                j <= other.rest@.len(),
                path@ == self@ + seq![other.first] + other.rest@.take(j as int),
            decreases other.rest@.len() - j,
        {
            path.rest.push(other.rest[j]);
            j += 1;
            proof {
                assert(self@ + seq![other.first] + other.rest@.take(j as int) =~= (self@
                    + seq![other.first] + other.rest@.take(j - 1)).push(other.rest@[j - 1]));
            }
        }
        proof {
            assert(other.rest@.take(j as int) =~= other.rest@);
            assert(self@ + seq![other.first] + other.rest@ =~= self@ + other@);
        }
        path
    }

    /// The segments of the loop that the path closes, each as its two ends:
    /// every step between two different neighbours, then the way from the end
    /// back to the start where the two differ.
    pub fn segments(&self) -> (segments: Vec<(Point, Point)>)
        ensures
            segments@ == loop_segments(self@),
    {
        let n = self.rest.len();
        let mut segments: Vec<(Point, Point)> = Vec::new();
        let mut k: usize = 0;
        let mut a = self.first;
        proof {
            assert(self@.take(1) =~= seq![self.first]);
        }
        while k < n
            invariant
                n == self.rest@.len(),
                k <= n,
                a == self@[k as int],
                segments@ == steps(self@.take(k + 1)),
            decreases n - k,
        {
            let b = self.rest[k];
            proof {
                assert(self@.take(k + 2).drop_last() =~= self@.take(k + 1));
            }
            if a != b {
                segments.push((a, b));
            }
            a = b;
            k += 1;
        }
        proof {
            assert(self@.take(n + 1) =~= self@);
        }
        if a != self.first {
            segments.push((a, self.first));
        }
        proof {
            assert(segments@ =~= steps(self@) + closing_step(self@));
        }
        segments
    }
}

} // verus!
