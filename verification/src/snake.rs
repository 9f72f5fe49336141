use vstd::arithmetic::div_mod::{lemma_mod_multiples_vanish, lemma_mod_self_0, lemma_small_mod};
use vstd::prelude::*;

use crate::point::{all_in_field, in_field, Point};
use crate::rng::random_in_range;

verus! {

/// How many movement directions exist; start directions are drawn from this range.
pub const NUMBER_OF_DIRECTIONS: u8 = 4;

/// One of the four orthogonal movement directions on the grid.
#[derive(Clone, Copy, Debug, PartialEq, Eq, Structural)]
pub enum Direction {
    Up,
    Down,
    Left,
    Right,
}

/// The direction opposite to `d`. `Snake::set_direction` refuses it, since the
/// head must not reverse into its own neck.
pub open spec fn opposite(d: Direction) -> Direction {
    match d {
        Direction::Up => Direction::Down,
        Direction::Down => Direction::Up,
        Direction::Left => Direction::Right,
        Direction::Right => Direction::Left,
    }
}

/// A fixed numbering of the four directions, used when a start direction is
/// drawn at random from a sub-range of them.
pub open spec fn direction_index(d: Direction) -> int {
    match d {
        Direction::Up => 0,
        Direction::Down => 1,
        Direction::Left => 2,
        Direction::Right => 3,
    }
}

/// The direction numbered `i`; inverse of `direction_index`.
pub fn direction_from_index(i: u8) -> (d: Direction)
    requires
        i < 4,
    ensures
        direction_index(d) == i as int,
{
    if i == 0 {
        Direction::Up
    } else if i == 1 {
        Direction::Down
    } else if i == 2 {
        Direction::Left
    } else {
        Direction::Right
    }
}

/// One movement step from `p` in direction `d` on a toroidal `width` by
/// `height` field: the moved coordinate becomes
/// `(old + delta + extent) % extent`, so leaving the field over one edge
/// re-enters it from the opposite edge.
pub open spec fn step_point(p: Point, d: Direction, width: int, height: int) -> Point {
    match d {
        Direction::Up => Point { x: p.x, y: ((p.y + height - 1) % height) as i32 },
        Direction::Down => Point { x: p.x, y: ((p.y + 1) % height) as i32 },
        Direction::Left => Point { x: ((p.x + width - 1) % width) as i32, y: p.y },
        Direction::Right => Point { x: ((p.x + 1) % width) as i32, y: p.y },
    }
}

/// How one tick transforms the body: the head advances one step in `d`, every
/// other segment takes the place of its predecessor, and on growth one new
/// segment appears at the cell the old tail occupied before the tick.
pub open spec fn stepped_body(
    old_body: Seq<Point>,
    new_body: Seq<Point>,
    d: Direction,
    grew: bool,
    width: int,
    height: int,
) -> bool {
    &&& new_body.len() == old_body.len() + (if grew {
        1int
    } else {
        0int
    })
    &&& new_body[0] == step_point(old_body[0], d, width, height)
    &&& forall|i: int| 1 <= i < old_body.len() ==> new_body[i] == old_body[i - 1]
    &&& grew ==> new_body[new_body.len() - 1] == old_body[old_body.len() - 1]
}

/// The cell one movement step from `p` in direction `d`, wrapping at the
/// field's edges.
pub fn step_cell(p: Point, d: Direction, width: i32, height: i32) -> (q: Point)
    requires
        1 <= width,
        1 <= height,
        in_field(p, width as int, height as int),
    ensures
        q == step_point(p, d, width as int, height as int),
        in_field(q, width as int, height as int),
{
    match d {
        Direction::Up => {
            let ny = if p.y == 0 {
                height - 1
            } else {
                p.y - 1
            };
            proof {
                lemma_wrap_decrement(p.y as int, height as int);
            }
            Point { x: p.x, y: ny }
        },
        Direction::Down => {
            let ny = (p.y + 1) % height;
            proof {
                lemma_wrap_increment(p.y as int, height as int);
            }
            Point { x: p.x, y: ny }
        },
        Direction::Left => {
            let nx = if p.x == 0 {
                width - 1
            } else {
                p.x - 1
            };
            proof {
                lemma_wrap_decrement(p.x as int, width as int);
            }
            Point { x: nx, y: p.y }
        },
        Direction::Right => {
            let nx = (p.x + 1) % width;
            proof {
                lemma_wrap_increment(p.x as int, width as int);
            }
            Point { x: nx, y: p.y }
        },
    }
}

/// The snake's head shares a cell with one of its non-head segments.
pub open spec fn overlapping(s: Snake) -> bool {
    exists|i: int| 1 <= i < s.position@.len() && #[trigger] s.position@[i] == s.position@[0]
}

/// The player-controlled snake: its body cells (head first, tail last), the
/// direction requested for the next tick, and the direction applied on the
/// most recent tick.
#[derive(Debug, PartialEq)]
pub struct Snake {
    pub position: Vec<Point>,
    pub direction: Direction,
    pub current_direction: Direction,
}

impl Snake {
    /// The body is never empty and stays on the field.
    pub open spec fn wf(self, width: int, height: int) -> bool {
        &&& self.position@.len() >= 1
        &&& all_in_field(self.position@, width, height)
    }

    /// Builds a single-segment snake; a missing start position or direction is
    /// drawn at random from the given half-open ranges.
    pub fn new_inner(
        start_position: Option<Point>,
        start_direction: Option<Direction>,
        width: (i32, i32),
        height: (i32, i32),
        direction_range: (u8, u8),
    ) -> (s: Snake)
        requires
            start_position is None ==> width.0 < width.1 && height.0 < height.1,
            start_direction is None ==> direction_range.0 < direction_range.1
                && direction_range.1 <= 4,
        ensures
            s.position@.len() == 1,
            match start_position {
                Some(p) => s.position@[0] == p,
                None => width.0 <= s.position@[0].x < width.1 && height.0 <= s.position@[0].y
                    < height.1,
            },
            match start_direction {
                Some(d) => s.direction == d,
                None => direction_range.0 <= direction_index(s.direction) < direction_range.1,
            },
            s.current_direction == s.direction,
    {
        let position = match start_position {
            Some(p) => p,
            None => {
                let x = random_in_range(width.0 as i64, width.1 as i64);
                let y = random_in_range(height.0 as i64, height.1 as i64);
                Point { x: x as i32, y: y as i32 }
            },
        };

        let direction = match start_direction {
            Some(d) => d,
            None => {
                let i = random_in_range(direction_range.0 as i64, direction_range.1 as i64);
                direction_from_index(i as u8)
            },
        };

        Snake { position: vec![position], direction, current_direction: direction }
    }

    /// Builds a snake for a `width` by `height` field; a missing start
    /// position or direction is drawn at random from the whole field or from
    /// all four directions.
    pub fn new(
        start_position: Option<Point>,
        start_direction: Option<Direction>,
        width: i32,
        height: i32,
    ) -> (s: Snake)
        requires
            1 <= width,
            1 <= height,
            start_position matches Some(p) ==> in_field(p, width as int, height as int),
        ensures
            s.wf(width as int, height as int),
            s.position@.len() == 1,
            start_position matches Some(p) ==> s.position@[0] == p,
            start_position is None ==> in_field(s.position@[0], width as int, height as int),
            start_direction matches Some(d) ==> s.direction == d,
            s.current_direction == s.direction,
    {
        Snake::new_inner(start_position, start_direction, (0, width), (0, height), (0, NUMBER_OF_DIRECTIONS))
    }

    /// Requests the direction to apply on the next tick. The request is a
    /// no-op exactly when it is the opposite of the direction applied on the
    /// most recent tick.
    pub fn set_direction(&mut self, direction: Direction)
        ensures
            final(self).position@ == old(self).position@,
            final(self).current_direction == old(self).current_direction,
            final(self).direction == (if direction == opposite(old(self).current_direction) {
                old(self).direction
            } else {
                direction
            }),
    {
        match direction {
            Direction::Up => {
                if self.current_direction != Direction::Down {
                    self.direction = Direction::Up;
                }
            },
            Direction::Down => {
                if self.current_direction != Direction::Up {
                    self.direction = Direction::Down;
                }
            },
            Direction::Left => {
                if self.current_direction != Direction::Right {
                    self.direction = Direction::Left;
                }
            },
            Direction::Right => {
                if self.current_direction != Direction::Left {
                    self.direction = Direction::Right;
                }
            },
        }
    }

    /// One tick: locks in the pending direction, shifts the body, grows the
    /// tail when `snake_hit_target` holds, and moves the head one step with
    /// toroidal wraparound.
    pub fn move_snake(&mut self, snake_hit_target: bool, width: i32, height: i32)
        requires
            1 <= width,
            1 <= height,
            old(self).wf(width as int, height as int),
        ensures
            final(self).wf(width as int, height as int),
            final(self).direction == old(self).direction,
            final(self).current_direction == old(self).direction,
            stepped_body(
                old(self).position@,
                final(self).position@,
                old(self).direction,
                snake_hit_target,
                width as int,
                height as int,
            ),
    {
        self.current_direction = self.direction;
        self.propagate_position(snake_hit_target);
        self.adjust_head(width, height);
        proof {
            assert forall|i: int| 0 <= i < self.position@.len() implies in_field(
                #[trigger] self.position@[i],
                width as int,
                height as int,
            ) by {
                if i >= 1 && i < old(self).position@.len() {
                    assert(self.position@[i] == old(self).position@[i - 1]);
                }
            }
        }
    }

    /// Shifts every segment to its predecessor's cell (tail to head, so no
    /// cell is overwritten before it is read); when `keep_tail` holds, the old
    /// tail cell is kept as a new last segment.
    fn propagate_position(&mut self, keep_tail: bool)
        requires
            old(self).position@.len() >= 1,
        ensures
            final(self).position@.len() == old(self).position@.len() + (if keep_tail {
                1int
            } else {
                0int
            }),
            final(self).position@[0] == old(self).position@[0],
            forall|i: int|
                1 <= i < old(self).position@.len() ==> final(self).position@[i] == old(
                    self,
                ).position@[i - 1],
            keep_tail ==> final(self).position@[final(self).position@.len() - 1] == old(
                self,
            ).position@[old(self).position@.len() - 1],
            final(self).direction == old(self).direction,
            final(self).current_direction == old(self).current_direction,
    {
        let ghost orig = self.position@;
        let n = self.position.len();
        let tail = self.position[n - 1];
        let mut i: usize = n - 1;
        while i >= 1
            invariant
                0 <= i < n,
                n == orig.len(),
                self.position@.len() == n,
                self.direction == old(self).direction,
                self.current_direction == old(self).current_direction,
                orig == old(self).position@,
                forall|j: int| 0 <= j <= i ==> self.position@[j] == orig[j],
                forall|j: int| i < j < n ==> self.position@[j] == orig[j - 1],
            decreases i,
        {
            let prev = self.position[i - 1];
            self.position[i] = prev;
            i = i - 1;
        }
        if keep_tail {
            self.position.push(tail);
        }
    }

    /// Moves the head one step in the pending direction, wrapping at the
    /// field's edges.
    fn adjust_head(&mut self, width: i32, height: i32)
        requires
            1 <= width,
            1 <= height,
            old(self).position@.len() >= 1,
            in_field(old(self).position@[0], width as int, height as int),
        ensures
            final(self).position@.len() == old(self).position@.len(),
            final(self).position@[0] == step_point(
                old(self).position@[0],
                old(self).direction,
                width as int,
                height as int,
            ),
            forall|i: int|
                1 <= i < old(self).position@.len() ==> final(self).position@[i] == old(
                    self,
                ).position@[i],
            final(self).direction == old(self).direction,
            final(self).current_direction == old(self).current_direction,
            in_field(final(self).position@[0], width as int, height as int),
    {
        let p = self.position[0];
        let np = step_cell(p, self.direction, width, height);
        self.position[0] = np;
    }

    /// The head's cell equals the cell of some non-head segment.
    pub fn is_overlapping(&self) -> (r: bool)
        requires
            self.position@.len() >= 1,
        ensures
            r == overlapping(*self),
    {
        let head = self.position[0];
        let mut i: usize = 1;
        while i < self.position.len()
            invariant
                1 <= i <= self.position@.len(),
                self.position@.len() >= 1,
                head == self.position@[0],
                forall|j: int| 1 <= j < i ==> self.position@[j] != head,
            decreases self.position@.len() - i,
        {
            if self.position[i] == head {
                assert(self.position@[i as int] == self.position@[0]);
                return true;
            }
            i = i + 1;
        }
        false
    }
}

/// For a value `v` in `[0, m)`, stepping down by one with wraparound gives
/// `(v + m - 1) % m`.
proof fn lemma_wrap_decrement(v: int, m: int)
    requires
        1 <= m,
        0 <= v < m,
    ensures
        v == 0 ==> (v + m - 1) % m == m - 1,
        v > 0 ==> (v + m - 1) % m == v - 1,
{
    if v == 0 {
        lemma_small_mod((m - 1) as nat, m as nat);
    } else {
        lemma_mod_multiples_vanish(1, v - 1, m);
        lemma_small_mod((v - 1) as nat, m as nat);
    }
}

/// For a value `v` in `[0, m)`, stepping up by one with wraparound gives
/// `(v + 1) % m`.
proof fn lemma_wrap_increment(v: int, m: int)
    requires
        1 <= m,
        0 <= v < m,
    ensures
        v + 1 == m ==> (v + 1) % m == 0,
        v + 1 < m ==> (v + 1) % m == v + 1,
{
    if v + 1 == m {
        lemma_mod_self_0(m);
    } else {
        lemma_small_mod((v + 1) as nat, m as nat);
    }
}

/// Law: toroidal wraparound at the field's edges: a head at the left edge
/// moving left reappears at the right edge, one at the right edge moving
/// right reappears at the left edge, and the same holds at the top and
/// bottom; the other coordinate never changes.
pub proof fn lemma_wraparound_edges(p: Point, width: int, height: int)
    requires
        1 <= width <= 0x7fffffff,
        1 <= height <= 0x7fffffff,
        in_field(p, width, height),
    ensures
        p.x == 0 ==> step_point(p, Direction::Left, width, height).x == width - 1,
        p.x == width - 1 ==> step_point(p, Direction::Right, width, height).x == 0,
        p.y == 0 ==> step_point(p, Direction::Up, width, height).y == height - 1,
        p.y == height - 1 ==> step_point(p, Direction::Down, width, height).y == 0,
        step_point(p, Direction::Left, width, height).y == p.y,
        step_point(p, Direction::Right, width, height).y == p.y,
        step_point(p, Direction::Up, width, height).x == p.x,
        step_point(p, Direction::Down, width, height).x == p.x,
{
    lemma_wrap_decrement(p.x as int, width);
    lemma_wrap_increment(p.x as int, width);
    lemma_wrap_decrement(p.y as int, height);
    lemma_wrap_increment(p.y as int, height);
}

/// Law: one tick changes the body length by exactly one when the snake grew
/// and not at all otherwise, and the grown segment sits at the cell the tail
/// occupied before the tick.
pub proof fn lemma_advance_length(
    old_body: Seq<Point>,
    new_body: Seq<Point>,
    d: Direction,
    grew: bool,
    width: int,
    height: int,
)
    requires
        old_body.len() >= 1,
        stepped_body(old_body, new_body, d, grew, width, height),
    ensures
        !grew ==> new_body.len() == old_body.len(),
        grew ==> new_body.len() == old_body.len() + 1 && new_body.last() == old_body.last(),
{
}

/// Law: a snake with a single segment is never self-colliding; a collision
/// needs a non-head segment that shares the head's cell.
pub proof fn lemma_single_segment_not_colliding(s: Snake)
    requires
        s.position@.len() == 1,
    ensures
        !overlapping(s),
{
}

} // verus!
