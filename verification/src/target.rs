use vstd::prelude::*;

use crate::point::{contains_point, in_field, Point};
use crate::rng::random_in_range;

verus! {

/// `p` is a cell of the field that avoids both blocked sets.
pub open spec fn free_cell(
    p: Point,
    obstacles: Seq<Point>,
    body: Seq<Point>,
    width: int,
    height: int,
) -> bool {
    &&& in_field(p, width, height)
    &&& !obstacles.contains(p)
    &&& !body.contains(p)
}

/// `p` comes before the cell `(x, y)` in row-major order.
spec fn before_cell(p: Point, x: int, y: int) -> bool {
    p.y < y || (p.y == y && p.x < x)
}

/// Collects, in row-major order, every cell of the field that avoids both
/// blocked sets.
fn free_cells(obstacles: &[Point], body: &[Point], width: i32, height: i32) -> (v: Vec<Point>)
    requires
        1 <= width,
        1 <= height,
    ensures
        v@.len() <= width as int * height as int,
        forall|j: int|
            0 <= j < v@.len() ==> free_cell(
                #[trigger] v@[j],
                obstacles@,
                body@,
                width as int,
                height as int,
            ),
        forall|p: Point|
            free_cell(p, obstacles@, body@, width as int, height as int) ==> v@.contains(p),
{
    let mut v: Vec<Point> = Vec::new();
    let mut y: i32 = 0;
    while y < height
        invariant
            1 <= width,
            0 <= y <= height,
            v@.len() <= y as int * width as int,
            forall|j: int|
                0 <= j < v@.len() ==> free_cell(
                    #[trigger] v@[j],
                    obstacles@,
                    body@,
                    width as int,
                    height as int,
                ),
            forall|p: Point|
                free_cell(p, obstacles@, body@, width as int, height as int) && before_cell(
                    p,
                    0,
                    y as int,
                ) ==> v@.contains(p),
        decreases height - y,
    {
        let mut x: i32 = 0;
        while x < width
            invariant
                1 <= width,
                0 <= x <= width,
                0 <= y < height,
                v@.len() <= y as int * width as int + x as int,
                forall|j: int|
                    0 <= j < v@.len() ==> free_cell(
                        #[trigger] v@[j],
                        obstacles@,
                        body@,
                        width as int,
                        height as int,
                    ),
                forall|p: Point|
                    free_cell(p, obstacles@, body@, width as int, height as int) && before_cell(
                        p,
                        x as int,
                        y as int,
                    ) ==> v@.contains(p),
            decreases width - x,
        {
            let cell = Point { x, y };
            let ghost v0 = v@;
            let was_free = !contains_point(obstacles, cell) && !contains_point(body, cell);
            if was_free {
                v.push(cell);
            }
            proof {
                assert forall|p: Point|
                    free_cell(p, obstacles@, body@, width as int, height as int) && before_cell(
                        p,
                        x as int + 1,
                        y as int,
                    ) implies v@.contains(p) by {
                    if p.y == y as int && p.x == x as int {
                        assert(p == cell);
                        assert(was_free);
                        assert(v@[v@.len() - 1] == p);
                    } else {
                        assert(before_cell(p, x as int, y as int));
                        assert(v0.contains(p));
                        let j = choose|j: int| 0 <= j < v0.len() && v0[j] == p;
                        assert(v@[j] == p);
                    }
                }
            }
            x = x + 1;
        }
        proof {
            assert((y as int + 1) * width as int == y as int * width as int + width as int)
                by (nonlinear_arith);
        }
        y = y + 1;
    }
    proof {
        assert((height as int) * (width as int) == (width as int) * (height as int))
            by (nonlinear_arith);
    }
    v
}

/// The consumable the snake grows by: a single cell that never coincides with
/// an obstacle.
#[derive(Clone, Copy, Debug, PartialEq, Eq, Structural)]
pub struct Target {
    pub position: Point,
}

impl Target {
    /// Places a target on a cell drawn uniformly at random among the cells of
    /// the field that avoid every obstacle. At least one such cell must
    /// exist, which the level-validity rules guarantee; an obstacle set
    /// covering the whole field would leave the placement with nothing to
    /// return.
    pub fn new(obstacles: &[Point], width: i32, height: i32) -> (t: Target)
        requires
            1 <= width,
            1 <= height,
            exists|p: Point| in_field(p, width as int, height as int) && !obstacles@.contains(p),
        ensures
            in_field(t.position, width as int, height as int),
            !obstacles@.contains(t.position),
    {
        proof {
            let q = choose|q: Point|
                in_field(q, width as int, height as int) && !obstacles@.contains(q);
            assert(free_cell(q, obstacles@, obstacles@, width as int, height as int));
        }
        let position = pick_free_cell(obstacles, obstacles, width, height);
        Target { position }
    }

    /// Like `new`, but the drawn cell also avoids every cell of `body`: the
    /// placement policy for sessions where a relocated target must not appear
    /// under the snake.
    pub fn new_avoiding(obstacles: &[Point], body: &[Point], width: i32, height: i32) -> (t:
        Target)
        requires
            1 <= width,
            1 <= height,
            exists|p: Point| free_cell(p, obstacles@, body@, width as int, height as int),
        ensures
            in_field(t.position, width as int, height as int),
            !obstacles@.contains(t.position),
            !body@.contains(t.position),
    {
        let position = pick_free_cell(obstacles, body, width, height);
        Target { position }
    }
}

/// Decides whether any cell of the field avoids both blocked sets: the
/// executable test for the placement functions' free-cell precondition.
pub fn exists_free_cell(obstacles: &[Point], body: &[Point], width: i32, height: i32) -> (r: bool)
    requires
        1 <= width,
        1 <= height,
    ensures
        r == exists|p: Point| free_cell(p, obstacles@, body@, width as int, height as int),
{
    let cells = free_cells(obstacles, body, width, height);
    if cells.len() > 0 {
        proof {
            assert(free_cell(cells@[0], obstacles@, body@, width as int, height as int));
        }
        true
    } else {
        proof {
            assert(!exists|p: Point|
                free_cell(p, obstacles@, body@, width as int, height as int)) by {
                if exists|p: Point| free_cell(p, obstacles@, body@, width as int, height as int) {
                    let p = choose|p: Point|
                        free_cell(p, obstacles@, body@, width as int, height as int);
                    assert(cells@.contains(p));
                }
            }
        }
        false
    }
}

/// Draws one cell uniformly at random among the free cells of the field.
fn pick_free_cell(obstacles: &[Point], body: &[Point], width: i32, height: i32) -> (p: Point)
    requires
        1 <= width,
        1 <= height,
        exists|q: Point| free_cell(q, obstacles@, body@, width as int, height as int),
    ensures
        free_cell(p, obstacles@, body@, width as int, height as int),
{
    let cells = free_cells(obstacles, body, width, height);
    proof {
        let q = choose|q: Point| free_cell(q, obstacles@, body@, width as int, height as int);
        assert(cells@.contains(q));
        assert((width as int) * (height as int) < 0x7fffffffffffffff) by (nonlinear_arith)
            requires
                1 <= width <= 0x7fffffff,
                1 <= height <= 0x7fffffff;
    }
    let idx = random_in_range(0, cells.len() as i64) as usize;
    cells[idx]
}

} // verus!
