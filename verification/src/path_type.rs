//! The homotopy type of a growing path: its nodes after pruning, and the
//! reduced word of the loop that they close.

use std::sync::Arc;
use vstd::prelude::*;
use crate::path::{loop_segments, PLPath};
use crate::point::Point;
use crate::puncture::{removable, should_remove, winding, PuncturePoint};
use crate::word::{
    lemma_reduce_is_reduced, lower, reduce, reduce_letters, reduced, string_of, to_lower,
    to_upper, upper,
};

verus! {

/// The letter that one puncture gets from one segment: its label in lower
/// case for a winding of `1`, in upper case for a winding of `-1`, and none
/// where the segment adds no winding.
pub open spec fn letter(puncture: PuncturePoint, start: Point, end: Point) -> Seq<char> {
    match winding(puncture.location(), start, end) {
        Some(n) => if n == 1 {
            seq![lower(puncture.label())]
        } else if n == -1 {
            seq![upper(puncture.label())]
        } else {
            Seq::empty()
        },
        None => Seq::empty(),
    }
}

/// The letters of one segment: one for each puncture that it winds around,
/// in the order of the puncture list.
pub open spec fn segment_word(punctures: Seq<PuncturePoint>, start: Point, end: Point) -> Seq<
    char,
>
    decreases punctures.len(),
{
    if punctures.len() == 0 {
        Seq::empty()
    } else {
        segment_word(punctures.drop_last(), start, end) + letter(punctures.last(), start, end)
    }
}

/// The letters of a polyline: those of its segments, in travel order.
pub open spec fn trail_word(points: Seq<Point>, punctures: Seq<PuncturePoint>) -> Seq<char>
    decreases points.len(),
{
    if points.len() < 2 {
        Seq::empty()
    } else {
        trail_word(points.drop_last(), punctures) + segment_word(
            punctures,
            points[points.len() - 2],
            points[points.len() - 1],
        )
    }
}

/// The unreduced word of the loop that `nodes` closes: the letters of the
/// path, then those of the way from its end back to its start.
pub open spec fn raw_word(nodes: Seq<Point>, punctures: Seq<PuncturePoint>) -> Seq<char> {
    trail_word(nodes.push(nodes.first()), punctures)
}

/// The word of the loop that `nodes` closes, reduced.
pub open spec fn homotopy_word(nodes: Seq<Point>, punctures: Seq<PuncturePoint>) -> Seq<char> {
    reduce(raw_word(nodes, punctures))
}

/// What is left of `nodes` before `point` is put behind them: the last node
/// goes, again and again, as long as there are two and no puncture holds the
/// later one against the step to `point`.
pub open spec fn pruned(nodes: Seq<Point>, point: Point, punctures: Seq<PuncturePoint>) -> Seq<
    Point,
>
    decreases nodes.len(),
{
    if nodes.len() >= 2 && removable(
        nodes[nodes.len() - 2],
        nodes[nodes.len() - 1],
        point,
        punctures,
    ) {
        pruned(nodes.drop_last(), point, punctures)
    } else {
        nodes
    }
}

/// The nodes after `point` was pushed onto `nodes`.
pub open spec fn pushed(nodes: Seq<Point>, point: Point, punctures: Seq<PuncturePoint>) -> Seq<
    Point,
> {
    pruned(nodes, point, punctures).push(point)
}

/// The nodes after each of `points` was pushed onto `nodes`, in order.
pub open spec fn pushed_all(
    nodes: Seq<Point>,
    points: Seq<Point>,
    punctures: Seq<PuncturePoint>,
) -> Seq<Point>
    decreases points.len(),
{
    if points.len() == 0 {
        nodes
    } else {
        pushed(pushed_all(nodes, points.drop_last(), punctures), points.last(), punctures)
    }
}

/// Pruning yields a prefix of the nodes that still holds their start.
pub proof fn lemma_pruned_is_prefix(
    nodes: Seq<Point>,
    point: Point,
    punctures: Seq<PuncturePoint>,
)
    requires
        nodes.len() >= 1,
    ensures
        1 <= pruned(nodes, point, punctures).len() <= nodes.len(),
        pruned(nodes, point, punctures) == nodes.take(
            pruned(nodes, point, punctures).len() as int,
        ),
    decreases nodes.len(),
{
    let kept = pruned(nodes, point, punctures);
    if kept != nodes {
        lemma_pruned_is_prefix(nodes.drop_last(), point, punctures);
        assert(nodes.drop_last().take(kept.len() as int) =~= nodes.take(kept.len() as int));
    } else {
        assert(nodes.take(nodes.len() as int) =~= nodes);
    }
}

/// Pruning stops at the first node, counted from the end, that is the only
/// one left or that a puncture holds: every node behind the kept ones could
/// go, and the last kept one cannot.
pub proof fn lemma_pruned_stops_at_held_node(
    nodes: Seq<Point>,
    point: Point,
    punctures: Seq<PuncturePoint>,
)
    requires
        nodes.len() >= 1,
    ensures
        ({
            let kept = pruned(nodes, point, punctures).len() as int;
            &&& kept >= 2 ==> !removable(nodes[kept - 2], nodes[kept - 1], point, punctures)
            &&& forall|j: int|
                kept < j <= nodes.len() ==> removable(
                    #[trigger] nodes[j - 2],
                    nodes[j - 1],
                    point,
                    punctures,
                )
        }),
    decreases nodes.len(),
{
    let n = nodes.len() as int;
    let kept = pruned(nodes, point, punctures).len() as int;
    if n >= 2 && removable(nodes[n - 2], nodes[n - 1], point, punctures) {
        let front = nodes.drop_last();
        lemma_pruned_stops_at_held_node(front, point, punctures);
        lemma_pruned_is_prefix(front, point, punctures);
        assert forall|j: int| kept < j <= nodes.len() implies removable(
            #[trigger] nodes[j - 2],
            nodes[j - 1],
            point,
            punctures,
        ) by {
            if j < n {
                assert(front[j - 2] == nodes[j - 2] && front[j - 1] == nodes[j - 1]);
            }
        }
        if kept >= 2 {
            assert(front[kept - 2] == nodes[kept - 2] && front[kept - 1] == nodes[kept - 1]);
        }
    }
}

/// A push keeps the start of the path and ends the path in the pushed point.
pub proof fn lemma_push_keeps_ends(
    nodes: Seq<Point>,
    point: Point,
    punctures: Seq<PuncturePoint>,
)
    requires
        nodes.len() >= 1,
    ensures
        pushed(nodes, point, punctures).len() >= 2,
        pushed(nodes, point, punctures).first() == nodes.first(),
        pushed(nodes, point, punctures).last() == point,
{
    lemma_pruned_is_prefix(nodes, point, punctures);
}

/// Whatever is pushed and in whatever number, the start of the path stays,
/// and the path ends in the point that was pushed last.
pub proof fn lemma_pushes_keep_ends(
    nodes: Seq<Point>,
    points: Seq<Point>,
    punctures: Seq<PuncturePoint>,
)
    requires
        nodes.len() >= 1,
    ensures
        pushed_all(nodes, points, punctures).len() >= 1,
        pushed_all(nodes, points, punctures).first() == nodes.first(),
        points.len() > 0 ==> pushed_all(nodes, points, punctures).last() == points.last(),
    decreases points.len(),
{
    if points.len() > 0 {
        lemma_pushes_keep_ends(nodes, points.drop_last(), punctures);
        lemma_push_keeps_ends(
            pushed_all(nodes, points.drop_last(), punctures),
            points.last(),
            punctures,
        );
    }
}

/// A path that never left its start closes a loop with the empty word.
pub proof fn lemma_still_path_has_empty_word(start: Point, punctures: Seq<PuncturePoint>)
    ensures
        homotopy_word(seq![start], punctures) == Seq::<char>::empty(),
{
    let points = seq![start].push(start);
    lemma_still_segment(punctures, start);
    assert(trail_word(points.drop_last(), punctures) =~= Seq::<char>::empty());
    assert(points[0] == start && points[1] == start);
    assert(trail_word(points, punctures) =~= Seq::<char>::empty());
    assert(reduce(Seq::<char>::empty()) =~= Seq::<char>::empty());
}

/// A segment without length has no letters.
pub proof fn lemma_still_segment(punctures: Seq<PuncturePoint>, at: Point)
    ensures
        segment_word(punctures, at, at) == Seq::<char>::empty(),
    decreases punctures.len(),
{
    if punctures.len() > 0 {
        lemma_still_segment(punctures.drop_last(), at);
    }
}

/// The letters that the punctures get from the segment from `start` to `end`,
/// put behind `raw`.
fn push_segment_letters(
    raw: &mut Vec<char>,
    punctures: &[PuncturePoint],
    start: &Point,
    end: &Point,
)
    ensures
        final(raw)@ == old(raw)@ + segment_word(punctures@, *start, *end),
{
    let mut k: usize = 0;
    proof {
        assert(punctures@.take(0) =~= Seq::<PuncturePoint>::empty());
        assert(raw@ =~= old(raw)@ + Seq::<char>::empty());
    }
    while k < punctures.len()
        invariant
            k <= punctures@.len(),
            raw@ == old(raw)@ + segment_word(punctures@.take(k as int), *start, *end),
        decreases punctures@.len() - k,
    {
        let puncture = &punctures[k];
        let ghost before = raw@;
        proof {
            assert(punctures@.take(k + 1).drop_last() =~= punctures@.take(k as int));
        }
        match puncture.winding_update(start, end) {
            Some(n) => {
                if n == 1 {
                    raw.push(to_lower(puncture.name()));
                } else if n == -1 {
                    raw.push(to_upper(puncture.name()));
                }
            },
            None => {},
        }
        proof {
            assert(raw@ =~= before + letter(punctures@[k as int], *start, *end));
            assert(raw@ =~= old(raw)@ + segment_word(punctures@.take(k + 1), *start, *end));
        }
        k += 1;
    }
    proof {
        assert(punctures@.take(k as int) =~= punctures@);
    }
}

/// The reduced word of the loop that `path` closes around `punctures`.
pub fn loop_word(path: &PLPath, punctures: &[PuncturePoint]) -> (word: String)
    ensures
        word@ == homotopy_word(path@, punctures@),
        reduced(word@),
{
    let points = path.closed_loop();
    let mut raw: Vec<char> = Vec::new();
    let mut k: usize = 1;
    proof {
        path.lemma_inhabited();
        assert(trail_word(points@.take(1), punctures@) =~= Seq::<char>::empty());
    }
    while k < points.len()
        invariant
            1 <= k <= points@.len(),
            raw@ == trail_word(points@.take(k as int), punctures@),
        decreases points@.len() - k,
    {
        proof {
            assert(points@.take(k + 1).drop_last() =~= points@.take(k as int));
        }
        push_segment_letters(&mut raw, punctures, &points[k - 1], &points[k]);
        k += 1;
    }
    proof {
        assert(points@.take(k as int) =~= points@);
        lemma_reduce_is_reduced(raw@);
    }
    let kept = reduce_letters(&raw);
    string_of(&kept)
}

/// `Arc::from` moves the elements of a vector, in their order, into a slice
/// that its holders share.
#[verifier::external_body]
fn share(punctures: Vec<PuncturePoint>) -> (shared: Arc<[PuncturePoint]>)
    ensures
        (*shared)@ == punctures@,
{
    Arc::from(punctures)
}

/// `Arc::clone` hands out one more pointer to the same slice.
#[verifier::external_body]
fn share_again(punctures: &Arc<[PuncturePoint]>) -> (shared: Arc<[PuncturePoint]>)
    ensures
        (*shared)@ == (**punctures)@,
{
    Arc::clone(punctures)
}

/// A path in a punctured plane together with the word of the loop it closes.
///
/// The word is kept beside the path and is at every moment the reduced word
/// of the path as it stands.
#[derive(Debug)]
pub struct PathType {
    current_path: PLPath,
    puncture_points: Arc<[PuncturePoint]>,
    word: String,
}

impl Clone for PathType {
    fn clone(&self) -> (copy: PathType)
        ensures
            copy.path() == self.path(),
            copy.punctures() == self.punctures(),
    {
        proof {
            use_type_invariant(self);
        }
        PathType {
            current_path: self.current_path.clone(),
            puncture_points: share_again(&self.puncture_points),
            word: self.word.clone(),
        }
    }
}

impl PathType {
    #[verifier::type_invariant]
    spec fn word_is_current(self) -> bool {
        self.word@ == homotopy_word(self.current_path@, (*self.puncture_points)@)
    }

    /// The nodes of the path, in travel order.
    pub closed spec fn path(self) -> Seq<Point> {
        self.current_path@
    }

    /// The punctures, in the order in which they were given.
    pub closed spec fn punctures(self) -> Seq<PuncturePoint> {
        (*self.puncture_points)@
    }

    /// The reduced word of the loop that the path closes.
    pub fn word_as_str(&self) -> (word: &str)
        ensures
            word@ == homotopy_word(self.path(), self.punctures()),
    {
        proof {
            use_type_invariant(self);
        }
        self.word.as_str()
    }

    /// The reduced word of the loop that the path closes, as a string of its
    /// own.
    pub fn word(&self) -> (word: String)
        ensures
            word@ == homotopy_word(self.path(), self.punctures()),
    {
        proof {
            use_type_invariant(self);
        }
        self.word.clone()
    }

    /// The path that stays at `start`, among the given punctures. Its word is
    /// empty.
    pub fn new(start: Point, puncture_points: Vec<PuncturePoint>) -> (path_type: PathType)
        ensures
            path_type.path() == seq![start],
            path_type.punctures() == puncture_points@,
            homotopy_word(path_type.path(), path_type.punctures()) == Seq::<char>::empty(),
    {
        proof {
            lemma_still_path_has_empty_word(start, puncture_points@);
        }
        PathType {
            current_path: PLPath::at(start),
            puncture_points: share(puncture_points),
            word: String::new(),
        }
    }

    /// The given path among the given punctures, with its word.
    pub fn from_path(path: PLPath, puncture_points: Arc<[PuncturePoint]>) -> (path_type: PathType)
        ensures
            path_type.path() == path@,
            path_type.punctures() == (*puncture_points)@,
    {
        let word = loop_word(&path, &puncture_points);
        PathType { current_path: path, puncture_points, word }
    }

    /// The path followed by `other`, among the same punctures, with its word.
    /// Nothing is pruned at the seam.
    pub fn concatenate(&self, other: &PLPath) -> (path_type: PathType)
        ensures
            path_type.path() == self.path() + other@,
            path_type.punctures() == self.punctures(),
    {
        PathType::from_path(
            self.current_path.concatenate(other),
            share_again(&self.puncture_points),
        )
    }

    /// The path as it stands.
    pub fn current_path(&self) -> (path: &PLPath)
        ensures
            path@ == self.path(),
    {
        &self.current_path
    }

    /// The punctures, in the order in which they were given.
    pub fn puncture_points(&self) -> (punctures: &[PuncturePoint])
        ensures
            punctures@ == self.punctures(),
    {
        &self.puncture_points
    }

    /// The segments of the loop that the path closes, for drawing.
    pub fn segments(&self) -> (segments: Vec<(Point, Point)>)
        ensures
            segments@ == loop_segments(self.path()),
    {
        self.current_path.segments()
    }

    /// Moves the end of the path to `point`.
    ///
    /// First the path loses its last node, again and again, as long as it has
    /// two nodes and no puncture holds the last one against the step to
    /// `point`. Then `point` goes behind what is left, and the word is
    /// computed anew. The start of the path stays where it was.
    pub fn push(&mut self, point: &Point)
        ensures
            final(self).punctures() == old(self).punctures(),
            final(self).path() == pushed(old(self).path(), *point, old(self).punctures()),
            final(self).path().first() == old(self).path().first(),
            final(self).path().last() == *point,
    {
        proof {
            lemma_still_path_has_empty_word(*point, self.punctures());
            old(self).current_path.lemma_inhabited();
            lemma_push_keeps_ends(old(self).path(), *point, old(self).punctures());
        }
        let mut taken = PathType {
            current_path: PLPath::at(*point),
            puncture_points: share_again(&self.puncture_points),
            word: String::new(),
        };
        core::mem::swap(self, &mut taken);
        let PathType { current_path, puncture_points, word: _ } = taken;
        let mut path = current_path;
        loop
            invariant
                path@.len() >= 1,
                pruned(path@, *point, (*puncture_points)@) == pruned(
                    old(self).path(),
                    *point,
                    (*puncture_points)@,
                ),
            ensures
                path@ == pruned(old(self).path(), *point, (*puncture_points)@),
            decreases path@.len(),
        {
            match path.last_two() {
                Some((p1, p2)) => {
                    if should_remove(&p1, &p2, point, &puncture_points) {
                        path.pop();
                    } else {
                        break ;
                    }
                },
                None => {
                    break ;
                },
            }
        }
        path.push(point);
        let word = loop_word(&path, &puncture_points);
        *self = PathType { current_path: path, puncture_points, word };
    }

    /// Computes the word of the loop that the path closes anew, keeps it and
    /// returns it. The path and the punctures stay as they are.
    pub fn update_word(&mut self) -> (word: String)
        ensures
            word@ == homotopy_word(old(self).path(), old(self).punctures()),
            final(self).path() == old(self).path(),
            final(self).punctures() == old(self).punctures(),
    {
        let word = loop_word(&self.current_path, &self.puncture_points);
        self.word = word.clone();
        word
    }
}

} // verus!
