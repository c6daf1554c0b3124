use charred_path::path::PLPath;
use charred_path::point::Point;
use charred_path::puncture::{should_remove, PuncturePoint, BAND};

fn pt(x: i32, y: i32) -> Point {
    Point::new(x, y)
}

#[test]
fn test_is_point_in_triangle() {
    let p1 = &Point::new(0, 0);
    let p2 = &Point::new(4, 0);
    let p3 = &Point::new(2, 4);

    let puncture_point_inside = PuncturePoint::new(*p1, 'A');
    let puncture_point_inside_2 = PuncturePoint::new(*p2, 'B');
    let puncture_point_on_apex = PuncturePoint::new(*p3, 'A');

    assert!(puncture_point_inside.is_in_triangle(p1, p2, p3));
    assert!(puncture_point_inside_2.is_in_triangle(p1, p2, p3));
    assert!(puncture_point_on_apex.is_in_triangle(p1, p2, p3));
}

#[test]
fn containment_inside_and_outside() {
    let (p1, p2, p3) = (pt(0, 0), pt(4, 0), pt(2, 4));
    assert!(PuncturePoint::new(pt(2, 2), 'A').is_in_triangle(&p1, &p2, &p3));
    assert!(!PuncturePoint::new(pt(5, 5), 'A').is_in_triangle(&p1, &p2, &p3));
    assert!(PuncturePoint::new(pt(2, 1), 'A').is_in_triangle(&p1, &p2, &p3));
    assert!(!PuncturePoint::new(pt(0, 1), 'A').is_in_triangle(&p1, &p2, &p3));
    assert!(!PuncturePoint::new(pt(2, -1), 'A').is_in_triangle(&p1, &p2, &p3));
    assert!(!PuncturePoint::new(pt(4, 4), 'A').is_in_triangle(&p1, &p2, &p3));
}

#[test]
fn containment_does_not_depend_on_the_order_of_the_corners() {
    let inside = PuncturePoint::new(pt(2, 2), 'A');
    let outside = PuncturePoint::new(pt(5, 5), 'A');
    let corners = [pt(0, 0), pt(4, 0), pt(2, 4)];
    for order in [[0, 1, 2], [0, 2, 1], [1, 0, 2], [1, 2, 0], [2, 0, 1], [2, 1, 0]] {
        let (a, b, c) = (corners[order[0]], corners[order[1]], corners[order[2]]);
        assert!(inside.is_in_triangle(&a, &b, &c));
        assert!(!outside.is_in_triangle(&a, &b, &c));
    }
}

#[test]
fn points_on_an_edge_are_contained() {
    let (p1, p2, p3) = (pt(0, 0), pt(4, 0), pt(2, 4));
    assert!(PuncturePoint::new(pt(2, 0), 'A').is_in_triangle(&p1, &p2, &p3));
    assert!(PuncturePoint::new(pt(1, 2), 'A').is_in_triangle(&p1, &p2, &p3));
    assert!(PuncturePoint::new(pt(3, 2), 'A').is_in_triangle(&p1, &p2, &p3));
}

#[test]
fn a_triangle_without_area_contains_nothing() {
    let on_the_line = PuncturePoint::new(pt(2, 2), 'A');
    assert!(!on_the_line.is_in_triangle(&pt(0, 0), &pt(2, 2), &pt(4, 4)));
    assert!(!on_the_line.is_in_triangle(&pt(2, 2), &pt(2, 2), &pt(2, 2)));
    assert!(!on_the_line.is_in_triangle(&pt(0, 0), &pt(0, 0), &pt(4, 4)));
}

#[test]
fn doubled_area_is_exact() {
    assert_eq!(Point::area2(&pt(0, 0), &pt(4, 0), &pt(2, 4)), 16);
    assert_eq!(Point::area2(&pt(4, 0), &pt(0, 0), &pt(2, 4)), -16);
    assert_eq!(Point::area2(&pt(0, 0), &pt(1, 1), &pt(2, 2)), 0);
    assert_eq!(Point::area2(&pt(1, 0), &pt(0, 1), &pt(0, 0)), 1);
}

#[test]
fn doubled_area_at_the_limits_of_the_grid() {
    let (lo, hi) = (i32::MIN, i32::MAX);
    let side: i128 = hi as i128 - lo as i128;
    assert_eq!(Point::area2(&pt(hi, lo), &pt(lo, hi), &pt(lo, lo)), side * side);
    assert_eq!(Point::area2(&pt(lo, hi), &pt(hi, lo), &pt(lo, lo)), -side * side);
    assert_eq!(Point::area2(&pt(hi, lo), &pt(lo, hi), &pt(hi, hi)), -side * side);
    let far = PuncturePoint::new(pt(0, 0), 'A');
    assert!(far.is_in_triangle(&pt(lo, lo), &pt(hi, lo), &pt(0, hi)));
    assert!(!far.is_in_triangle(&pt(lo, hi), &pt(hi, hi), &pt(hi, hi - 1)));
}

#[test]
fn label_is_stored_in_upper_case() {
    assert_eq!(PuncturePoint::new(pt(1, 2), 'a').name(), 'A');
    assert_eq!(PuncturePoint::new(pt(1, 2), 'A').name(), 'A');
    assert_eq!(PuncturePoint::new(pt(1, 2), 'z').name(), 'Z');
    assert_eq!(PuncturePoint::new(pt(1, 2), 'ß').name(), 'ß');
    assert_eq!(PuncturePoint::new(pt(1, 2), '3').name(), '3');
}

#[test]
fn position_is_kept() {
    let position = pt(1, 2);
    let puncture_point = PuncturePoint::new(position, 'a');
    assert_eq!(puncture_point.position(), &position);
    assert_eq!(puncture_point.name(), 'A');
    assert_eq!(puncture_point, PuncturePoint::new(pt(1, 2), 'A'));
}

#[test]
fn winding_counts_passages_above_the_puncture() {
    let p = PuncturePoint::new(pt(5, 5), 'A');
    assert_eq!(p.winding_update(&pt(3, 6), &pt(7, 6)), Some(1));
    assert_eq!(p.winding_update(&pt(7, 6), &pt(3, 6)), Some(-1));
    assert_eq!(p.winding_update(&pt(3, 4), &pt(7, 4)), None);
    assert_eq!(p.winding_update(&pt(7, 4), &pt(3, 4)), None);
    assert_eq!(p.winding_update(&pt(0, 0), &pt(10, 20)), Some(1));
    assert_eq!(p.winding_update(&pt(0, 0), &pt(10, 10)), None);
}

#[test]
fn winding_needs_the_segment_to_span_the_column() {
    let p = PuncturePoint::new(pt(5, 5), 'A');
    assert_eq!(p.winding_update(&pt(6, 9), &pt(9, 9)), None);
    assert_eq!(p.winding_update(&pt(1, 9), &pt(4, 9)), None);
    assert_eq!(p.winding_update(&pt(5, 6), &pt(5, 9)), None);
    assert_eq!(p.winding_update(&pt(5, 9), &pt(5, 6)), None);
    assert_eq!(p.winding_update(&pt(5, 9), &pt(5, 9)), None);
}

#[test]
fn winding_takes_the_left_end_of_a_span_and_leaves_the_right_one() {
    let p = PuncturePoint::new(pt(5, 5), 'A');
    assert_eq!(p.winding_update(&pt(5, 9), &pt(8, 9)), Some(1));
    assert_eq!(p.winding_update(&pt(2, 9), &pt(5, 9)), None);
    assert_eq!(p.winding_update(&pt(8, 9), &pt(5, 9)), Some(-1));
    assert_eq!(p.winding_update(&pt(5, 9), &pt(2, 9)), None);
}

#[test]
fn reversing_a_segment_negates_its_winding() {
    let p = PuncturePoint::new(pt(5, 5), 'A');
    let ends = [pt(3, 6), pt(7, 6), pt(4, 4), pt(10, 0), pt(0, 0), pt(5, 9), pt(6, 2)];
    for a in ends {
        for b in ends {
            let there = p.winding_update(&a, &b);
            let back = p.winding_update(&b, &a);
            assert_eq!(back, there.map(|n| -n));
        }
    }
}

#[test]
fn a_puncture_in_the_triangle_holds_the_node() {
    let p = PuncturePoint::new(pt(5, 5), 'A');
    assert!(p.should_not_remove(&pt(3, 6), &pt(7, 6), &pt(4, 4)));
    assert!(!p.should_remove(&pt(3, 6), &pt(7, 6), &pt(4, 4)));
    assert!(!p.should_not_remove(&pt(0, 0), &pt(1, 0), &pt(2, 0)));
    assert!(p.should_remove(&pt(0, 0), &pt(1, 0), &pt(2, 0)));
    assert!(!p.should_not_remove(&pt(0, 0), &pt(3, 0), &pt(3, 3)));
}

#[test]
fn a_puncture_in_the_band_holds_the_node() {
    assert_eq!(BAND, 1);
    let (p1, p2, p3) = (pt(0, 0), pt(5, 0), pt(9, 0));
    assert!(PuncturePoint::new(pt(4, 10), 'A').should_not_remove(&p1, &p2, &p3));
    assert!(!PuncturePoint::new(pt(3, 10), 'A').should_not_remove(&p1, &p2, &p3));
    assert!(!PuncturePoint::new(pt(5, 10), 'A').should_not_remove(&p1, &p2, &p3));
    assert!(!PuncturePoint::new(pt(6, 10), 'A').should_not_remove(&p1, &p2, &p3));
    let (q1, q2, q3) = (pt(9, 0), pt(5, 0), pt(0, 0));
    assert!(PuncturePoint::new(pt(6, -10), 'A').should_not_remove(&q1, &q2, &q3));
    assert!(!PuncturePoint::new(pt(7, -10), 'A').should_not_remove(&q1, &q2, &q3));
    assert!(!PuncturePoint::new(pt(5, -10), 'A').should_not_remove(&q1, &q2, &q3));
    assert!(!PuncturePoint::new(pt(4, -10), 'A').should_not_remove(&q1, &q2, &q3));
}

#[test]
fn the_band_needs_the_path_to_go_on_in_its_direction() {
    let p = PuncturePoint::new(pt(4, 10), 'A');
    assert!(p.should_not_remove(&pt(0, 0), &pt(5, 0), &pt(6, 0)));
    assert!(!p.should_not_remove(&pt(0, 0), &pt(5, 0), &pt(5, 3)));
    assert!(!p.should_not_remove(&pt(0, 0), &pt(5, 0), &pt(2, 0)));
    assert!(!p.should_not_remove(&pt(4, 0), &pt(5, 0), &pt(6, 0)));
    assert!(p.should_not_remove(&pt(i32::MIN, 0), &pt(5, 0), &pt(i32::MAX, 0)));
}

#[test]
fn a_node_goes_only_if_every_puncture_lets_it_go() {
    let holding = PuncturePoint::new(pt(5, 5), 'A');
    let idle = PuncturePoint::new(pt(50, 50), 'B');
    let (p1, p2, p3) = (pt(3, 6), pt(7, 6), pt(4, 4));
    assert!(should_remove(&p1, &p2, &p3, &[]));
    assert!(should_remove(&p1, &p2, &p3, &[idle]));
    assert!(!should_remove(&p1, &p2, &p3, &[holding]));
    assert!(!should_remove(&p1, &p2, &p3, &[idle, holding]));
    assert!(!should_remove(&p1, &p2, &p3, &[holding, idle]));
}

#[test]
fn a_path_knows_its_ends() {
    let path = PLPath::new(vec![pt(1, 1), pt(2, 3), pt(5, 8)]);
    assert_eq!(path.start(), &pt(1, 1));
    assert_eq!(path.end(), &pt(5, 8));
    assert_eq!(path.nodes(), vec![pt(1, 1), pt(2, 3), pt(5, 8)]);
    assert_eq!(path.last_two(), Some((pt(2, 3), pt(5, 8))));
    let seed = PLPath::new(vec![pt(7, 7)]);
    assert_eq!(seed.start(), &pt(7, 7));
    assert_eq!(seed.end(), &pt(7, 7));
    assert_eq!(seed.last_two(), None);
    assert_eq!(PLPath::at(pt(7, 7)).nodes(), vec![pt(7, 7)]);
    assert_eq!(PLPath::line(pt(0, 0), pt(1, 1)).last_two(), Some((pt(0, 0), pt(1, 1))));
}

#[test]
fn line_joins_two_points() {
    let path = PLPath::line(pt(0, 0), pt(3, 4));
    assert_eq!(path.nodes(), vec![pt(0, 0), pt(3, 4)]);
    assert_eq!(path.start(), &pt(0, 0));
    assert_eq!(path.end(), &pt(3, 4));
}

#[test]
fn push_appends_and_pop_takes_back() {
    let mut path = PLPath::at(pt(0, 0));
    path.push(&pt(1, 0));
    path.push(&pt(1, 0));
    path.push(&pt(2, 5));
    assert_eq!(path.nodes(), vec![pt(0, 0), pt(1, 0), pt(1, 0), pt(2, 5)]);
    assert_eq!(path.pop(), Some(pt(2, 5)));
    assert_eq!(path.pop(), Some(pt(1, 0)));
    assert_eq!(path.pop(), Some(pt(1, 0)));
    assert_eq!(path.nodes(), vec![pt(0, 0)]);
}

#[test]
fn pop_leaves_the_only_node() {
    let mut path = PLPath::at(pt(3, 3));
    assert_eq!(path.pop(), None);
    assert_eq!(path.pop(), None);
    assert_eq!(path.nodes(), vec![pt(3, 3)]);
    assert_eq!(path.start(), &pt(3, 3));
}

#[test]
fn reverse_flips_the_travel_order() {
    let path = PLPath::new(vec![pt(1, 1), pt(2, 3), pt(5, 8), pt(13, 21)]);
    assert_eq!(path.reverse().nodes(), vec![pt(13, 21), pt(5, 8), pt(2, 3), pt(1, 1)]);
    assert_eq!(path.reverse().reverse().nodes(), path.nodes());
    assert_eq!(PLPath::at(pt(4, 4)).reverse().nodes(), vec![pt(4, 4)]);
    assert_eq!(PLPath::line(pt(0, 0), pt(1, 2)).reverse().nodes(), vec![pt(1, 2), pt(0, 0)]);
    assert_eq!(path.nodes(), vec![pt(1, 1), pt(2, 3), pt(5, 8), pt(13, 21)]);
}

#[test]
fn concatenate_keeps_the_seam_twice() {
    let head = PLPath::new(vec![pt(0, 0), pt(1, 1)]);
    let tail = PLPath::new(vec![pt(1, 1), pt(2, 0)]);
    assert_eq!(head.concatenate(&tail).nodes(), vec![pt(0, 0), pt(1, 1), pt(1, 1), pt(2, 0)]);
    assert_eq!(tail.concatenate(&head).nodes(), vec![pt(1, 1), pt(2, 0), pt(0, 0), pt(1, 1)]);
    let seed = PLPath::at(pt(9, 9));
    assert_eq!(seed.concatenate(&seed).nodes(), vec![pt(9, 9), pt(9, 9)]);
    assert_eq!(head.nodes(), vec![pt(0, 0), pt(1, 1)]);
}

#[test]
fn clone_copies_the_nodes() {
    let path = PLPath::new(vec![pt(1, 1), pt(2, 3), pt(5, 8)]);
    let mut copy = path.clone();
    assert_eq!(copy.nodes(), path.nodes());
    copy.push(&pt(0, 0));
    assert_eq!(path.nodes(), vec![pt(1, 1), pt(2, 3), pt(5, 8)]);
}

#[test]
fn closed_loop_returns_to_the_start() {
    let path = PLPath::new(vec![pt(1, 1), pt(2, 3), pt(5, 8)]);
    assert_eq!(path.closed_loop(), vec![pt(1, 1), pt(2, 3), pt(5, 8), pt(1, 1)]);
    assert_eq!(PLPath::at(pt(1, 1)).closed_loop(), vec![pt(1, 1), pt(1, 1)]);
}

#[test]
fn segments_close_an_open_path() {
    let path = PLPath::new(vec![pt(0, 0), pt(4, 0), pt(2, 4)]);
    assert_eq!(
        path.segments(),
        vec![(pt(0, 0), pt(4, 0)), (pt(4, 0), pt(2, 4)), (pt(2, 4), pt(0, 0))]
    );
    assert_eq!(path.segments(), path.segments());
}

#[test]
fn segments_of_a_closed_path_have_no_closing_step() {
    let path = PLPath::new(vec![pt(0, 0), pt(4, 0), pt(2, 4), pt(0, 0)]);
    assert_eq!(
        path.segments(),
        vec![(pt(0, 0), pt(4, 0)), (pt(4, 0), pt(2, 4)), (pt(2, 4), pt(0, 0))]
    );
}

#[test]
fn segments_skip_steps_without_length() {
    let path = PLPath::new(vec![pt(0, 0), pt(0, 0), pt(4, 0), pt(4, 0), pt(4, 0), pt(2, 4)]);
    assert_eq!(
        path.segments(),
        vec![(pt(0, 0), pt(4, 0)), (pt(4, 0), pt(2, 4)), (pt(2, 4), pt(0, 0))]
    );
    assert_eq!(PLPath::at(pt(1, 1)).segments(), vec![]);
    assert_eq!(PLPath::line(pt(1, 1), pt(1, 1)).segments(), vec![]);
    assert_eq!(
        PLPath::line(pt(1, 1), pt(2, 2)).segments(),
        vec![(pt(1, 1), pt(2, 2)), (pt(2, 2), pt(1, 1))]
    );
}
