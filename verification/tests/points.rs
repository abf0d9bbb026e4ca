use ordered_tree::points::cab_distance;
use ordered_tree::points::find_nearest;
use ordered_tree::points::left_most;
use ordered_tree::points::Point;

#[test]
fn left_most_picks_smaller_x() {
    let p1 = Point(1, 2);
    let p2 = Point(3, 4);
    let p = left_most(&p1, &p2);
    assert_eq!(p.0, 1);
    assert_eq!(p.1, 2);
}

#[test]
fn left_most_ties_go_to_the_second() {
    let p1 = Point(5, 1);
    let p2 = Point(5, 9);
    let p = left_most(&p1, &p2);
    assert_eq!(p.1, 9);
}

#[test]
fn cab_distance_sums_axis_steps() {
    assert_eq!(cab_distance(&Point(1, 2), &Point(3, 4)), 4);
    assert_eq!(cab_distance(&Point(3, 4), &Point(1, 2)), 4);
    assert_eq!(cab_distance(&Point(0, 0), &Point(0, 0)), 0);
    assert_eq!(cab_distance(&Point(-3, 7), &Point(2, -1)), 13);
}

#[test]
fn find_nearest_scans_the_whole_slice() {
    let points = vec![Point(1, 2), Point(3, 4), Point(5, 6)];
    let p = Point(2, 3);
    let nearest = find_nearest(&points, &p);
    assert_eq!(nearest.0, 1);
    assert_eq!(nearest.1, 2);
}

#[test]
fn find_nearest_keeps_the_first_of_equals() {
    // both ends are at distance 2 from the probe; the scan keeps the first
    let points = vec![Point(0, 0), Point(2, 2), Point(0, 2)];
    let p = Point(1, 1);
    let nearest = find_nearest(&points, &p);
    assert_eq!(nearest.0, 0);
    assert_eq!(nearest.1, 0);
}
