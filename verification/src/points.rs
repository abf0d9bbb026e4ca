//! Points on the integer grid and taxicab geometry over them.

use vstd::prelude::*;

verus! {

use vstd::math::abs;

/// A point on the integer grid.
#[derive(Debug)]
pub struct Point(pub i32, pub i32);

/// The taxicab distance between two points: how far apart they are when
/// only axis-parallel steps count.
pub open spec fn spec_cab_distance(p1: Point, p2: Point) -> int {
    abs(p1.0 - p2.0) as int + abs(p1.1 - p2.1) as int
}

/// True when machine arithmetic can compute the taxicab distance: both
/// coordinate differences and their absolute sum stay in range.
pub open spec fn cab_distance_fits(p1: Point, p2: Point) -> bool {
    &&& -i32::MAX <= p1.0 - p2.0 <= i32::MAX
    &&& -i32::MAX <= p1.1 - p2.1 <= i32::MAX
    &&& spec_cab_distance(p1, p2) <= i32::MAX
}

/// Of two points, the one further to the left; ties go to the second.
pub fn left_most<'a>(p1: &'a Point, p2: &'a Point) -> (r: &'a Point)
    ensures
        *r == if p1.0 < p2.0 {
            *p1
        } else {
            *p2
        },
{
    if p1.0 < p2.0 {
        p1
    } else {
        p2
    }
}

/// Computes the taxicab distance between two points.
pub fn cab_distance(p1: &Point, p2: &Point) -> (d: i32)
    requires
        cab_distance_fits(*p1, *p2),
    ensures
        d == spec_cab_distance(*p1, *p2),
{
    let dx = p1.0 - p2.0;
    let dy = p1.1 - p2.1;
    let ax = if dx < 0 {
        -dx
    } else {
        dx
    };
    let ay = if dy < 0 {
        -dy
    } else {
        dy
    };
    ax + ay
}

/// The index of the first point of the sequence that lies nearest to `p`
/// in taxicab distance.
pub open spec fn first_nearest_index(points: Seq<Point>, p: Point) -> int
    decreases points.len(),
{
    if points.len() <= 1 {
        0
    } else {
        let r = first_nearest_index(points.drop_last(), p);
        if spec_cab_distance(points.last(), p) < spec_cab_distance(points[r], p) {
            points.len() - 1
        } else {
            r
        }
    }
}

/// The first nearest index is in range, no point beats it, and every point
/// before it is strictly further away.
pub proof fn lemma_first_nearest_index(points: Seq<Point>, p: Point)
    requires
        points.len() > 0,
    ensures
        0 <= first_nearest_index(points, p) < points.len(),
        forall|j: int|
            0 <= j < points.len() ==> spec_cab_distance(#[trigger] points[j], p)
                >= spec_cab_distance(points[first_nearest_index(points, p)], p),
        forall|j: int|
            0 <= j < first_nearest_index(points, p) ==> spec_cab_distance(
                #[trigger] points[j],
                p,
            ) > spec_cab_distance(points[first_nearest_index(points, p)], p),
    decreases points.len(),
{
    if points.len() > 1 {
        lemma_first_nearest_index(points.drop_last(), p);
        assert(forall|j: int|
            0 <= j < points.len() - 1 ==> points.drop_last()[j] == #[trigger] points[j]);
    }
}

/// Scans the whole slice and returns the first point at the least taxicab
/// distance from `p`. The slice must not be empty, and every distance must
/// be computable in machine arithmetic.
pub fn find_nearest<'a>(points: &'a [Point], p: &Point) -> (nearest: &'a Point)
    requires
        points@.len() > 0,
        forall|i: int| 0 <= i < points@.len() ==> cab_distance_fits(#[trigger] points@[i], *p),
    ensures
        *nearest == points@[first_nearest_index(points@, *p)],
        forall|j: int|
            0 <= j < points@.len() ==> spec_cab_distance(#[trigger] points@[j], *p)
                >= spec_cab_distance(*nearest, *p),
{
    let mut nearest: &Point = &points[0];
    let ghost mut best: int = 0;
    proof {
        assert(points@.subrange(0, 1).len() == 1);
        assert(points@.subrange(0, 1)[0] == points@[0]);
    }
    let mut k: usize = 1;
    while k < points.len()
        invariant
            1 <= k <= points@.len(),
            forall|i: int| 0 <= i < points@.len() ==> cab_distance_fits(#[trigger] points@[i], *p),
            0 <= best < k,
            *nearest == points@[best],
            best == first_nearest_index(points@.subrange(0, k as int), *p),
        decreases points@.len() - k,
    {
        proof {
            let prefix = points@.subrange(0, k as int);
            let grown = points@.subrange(0, k + 1);
            assert(grown.drop_last() =~= prefix);
            assert(grown.last() == points@[k as int]);
            assert(grown[best] == points@[best]);
        }
        if cab_distance(&points[k], p) < cab_distance(nearest, p) {
            nearest = &points[k];
            proof {
                best = k as int;
            }
        }
        k += 1;
    }
    proof {
        assert(points@.subrange(0, points@.len() as int) =~= points@);
        lemma_first_nearest_index(points@, *p);
    }
    nearest
}

} // verus!
