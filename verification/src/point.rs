use vstd::prelude::*;

verus! {

/// A cell of the playing field, identified by integer grid coordinates.
/// `y` grows downwards, matching the row order of level maps.
#[derive(Clone, Copy, Debug, PartialEq, Eq, Structural, Hash)]
pub struct Point {
    pub x: i32,
    pub y: i32,
}

impl Point {
    pub fn new(x: i32, y: i32) -> (p: Point)
        ensures
            p == (Point { x, y }),
    {
        Point { x, y }
    }
}

/// `p` lies on a `width` by `height` field.
pub open spec fn in_field(p: Point, width: int, height: int) -> bool {
    0 <= p.x < width && 0 <= p.y < height
}

/// Every point of `s` lies on the field.
pub open spec fn all_in_field(s: Seq<Point>, width: int, height: int) -> bool {
    forall|i: int| 0 <= i < s.len() ==> in_field(#[trigger] s[i], width, height)
}

/// An element-wise copy of a vector of points.
pub fn clone_points(points: &Vec<Point>) -> (r: Vec<Point>)
    ensures
        r@ == points@,
{
    let mut r: Vec<Point> = Vec::new();
    let mut i: usize = 0;
    while i < points.len()
        invariant
            0 <= i <= points@.len(),
            r@ == points@.subrange(0, i as int),
        decreases points@.len() - i,
    {
        r.push(points[i]);
        assert(r@ =~= points@.subrange(0, i as int + 1));
        i = i + 1;
    }
    assert(r@ =~= points@);
    r
}

/// Membership test for a point in a slice of points.
pub fn contains_point(points: &[Point], p: Point) -> (r: bool)
    ensures
        r == points@.contains(p),
{
    let mut i: usize = 0;
    while i < points.len()
        invariant
            0 <= i <= points@.len(),
            forall|j: int| 0 <= j < i ==> points@[j] != p,
        decreases points@.len() - i,
    {
        if points[i] == p {
            assert(points@.contains(p)) by {
                assert(points@[i as int] == p);
            }
            return true;
        }
        i = i + 1;
    }
    false
}

} // verus!
