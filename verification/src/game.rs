use vstd::prelude::*;

use crate::input::{direction_request, Key};
use crate::level::Level;
use crate::point::{all_in_field, clone_points, contains_point, in_field, Point};
use crate::snake::{
    opposite, overlapping, step_cell, step_point, stepped_body, Direction, Snake,
};
use crate::target::{exists_free_cell, free_cell, Target};

verus! {

/// A running play session: the snake, the current target, the level's fixed
/// obstacles, the field dimensions, and the target-placement policy.
pub struct Game {
    pub snake: Snake,
    pub target: Target,
    pub obstacles: Vec<Point>,
    pub width: i32,
    pub height: i32,
    /// When set, a relocated target also avoids the snake's body, so a target
    /// never appears under a cell the snake occupies.
    pub avoid_snake_body: bool,
}

/// How a whole session ends.
#[derive(Clone, Copy, Debug, PartialEq, Eq, Structural)]
pub enum GameOutcome {
    Lose,
    Win,
    Exit,
}

/// What one simulation tick produced.
#[derive(Clone, Copy, Debug, PartialEq, Eq, Structural)]
pub enum UpdateResult {
    Continue,
    Collision,
    TargetHit,
}

/// Whether a key press asks to leave the session.
#[derive(Clone, Copy, Debug, PartialEq, Eq, Structural)]
pub enum KeyPressResult {
    Exit,
    Continue,
}

/// What the level-sequencing loop does after a session ends with `outcome`:
/// a win moves on to the next level, an exit abandons the sequence, and a
/// loss (`None`) replays the same level.
pub fn level_action_for_outcome(outcome: GameOutcome) -> (r: Option<LevelAction>)
    ensures
        r == match outcome {
            GameOutcome::Win => Some(LevelAction::LoadNextLevel),
            GameOutcome::Exit => Some(LevelAction::UserWantsToStop),
            GameOutcome::Lose => None::<LevelAction>,
        },
{
    match outcome {
        GameOutcome::Win => Some(LevelAction::LoadNextLevel),
        GameOutcome::Exit => Some(LevelAction::UserWantsToStop),
        GameOutcome::Lose => None,
    }
}

/// What the top-level sequencing does between levels.
#[derive(Clone, Copy, Debug, PartialEq, Eq, Structural)]
pub enum LevelAction {
    UserWantsToStop,
    AllLevelsComplete,
    LoadNextLevel,
}

/// How one tick's result advances the running score and, possibly, ends the
/// session: a collision loses; a consumed target scores one point and wins as
/// soon as a configured win-score is reached; otherwise play continues.
pub open spec fn score_tick_spec(
    result: UpdateResult,
    point_counter: i32,
    target_points: Option<i32>,
) -> (Option<GameOutcome>, i32) {
    match result {
        UpdateResult::Collision => (Some(GameOutcome::Lose), point_counter),
        UpdateResult::TargetHit => {
            let new_points = (point_counter + 1) as i32;
            match target_points {
                Some(t) => if new_points >= t {
                    (Some(GameOutcome::Win), new_points)
                } else {
                    (None, new_points)
                },
                None => (None, new_points),
            }
        },
        UpdateResult::Continue => (None, point_counter),
    }
}

/// Applies one tick's simulation result to the running score and decides
/// whether the session ends.
pub fn score_tick(result: UpdateResult, point_counter: i32, target_points: Option<i32>) -> (r: (
    Option<GameOutcome>,
    i32,
))
    requires
        result == UpdateResult::TargetHit ==> point_counter < i32::MAX,
    ensures
        r == score_tick_spec(result, point_counter, target_points),
{
    match result {
        UpdateResult::Collision => (Some(GameOutcome::Lose), point_counter),
        UpdateResult::TargetHit => {
            let new_points = point_counter + 1;
            match target_points {
                Some(t) => {
                    if new_points >= t {
                        (Some(GameOutcome::Win), new_points)
                    } else {
                        (None, new_points)
                    }
                },
                None => (None, new_points),
            }
        },
        UpdateResult::Continue => (None, point_counter),
    }
}

impl Game {
    /// The session invariant: a positive field, a well-formed snake on it,
    /// obstacles on it, and a target on a free cell.
    pub open spec fn wf(self) -> bool {
        &&& 1 <= self.width && 1 <= self.height
        &&& self.snake.wf(self.width as int, self.height as int)
        &&& in_field(self.target.position, self.width as int, self.height as int)
        &&& !self.obstacles@.contains(self.target.position)
        &&& all_in_field(self.obstacles@, self.width as int, self.height as int)
    }

    /// The cells a relocated target must avoid under the avoidance policy:
    /// the snake's body, together with the cell its head is about to enter —
    /// the cells the snake occupies once the tick's movement completes.
    pub open spec fn avoided_cells(self) -> Seq<Point> {
        self.snake.position@.push(
            step_point(
                self.snake.position@[0],
                self.snake.direction,
                self.width as int,
                self.height as int,
            ),
        )
    }

    /// When a consumed target must be relocated away from the snake, some
    /// free cell has to remain; target placement returns only then (the
    /// level-validity rules keep fields from filling up completely).
    pub open spec fn relocation_feasible(self) -> bool {
        (self.avoid_snake_body && self.snake.position@[0] == self.target.position)
            ==> exists|p: Point|
            free_cell(p, self.obstacles@, self.avoided_cells(), self.width as int, self.height as int)
    }

    /// Builds a fresh session for a level, as each level attempt does: the
    /// snake from the level's (possibly absent) start data, a target on a
    /// free cell, and the level's obstacles and dimensions. Relocated targets
    /// avoid the snake's body.
    pub fn new(level: &Level) -> (g: Game)
        requires
            level.wf(),
        ensures
            g.wf(),
            g.width == level.width,
            g.height == level.height,
            g.obstacles@ == level.obstacles@,
            g.avoid_snake_body,
            g.snake.position@.len() == 1,
            level.start_position matches Some(p) ==> g.snake.position@[0] == p,
            level.start_direction matches Some(d) ==> g.snake.direction == d,
            g.snake.current_direction == g.snake.direction,
    {
        let snake = Snake::new(
            level.start_position,
            level.start_direction,
            level.width,
            level.height,
        );
        let target = Target::new(level.obstacles.as_slice(), level.width, level.height);
        Game {
            snake,
            target,
            obstacles: clone_points(&level.obstacles),
            width: level.width,
            height: level.height,
            avoid_snake_body: true,
        }
    }

    /// The executable test for `update`'s relocation precondition: whether
    /// this tick can relocate a consumed target. True whenever the tick does
    /// not consume the target or the policy allows any free cell; otherwise
    /// it decides whether a cell free of the obstacles and the snake's
    /// after-move cells remains.
    pub fn can_relocate_target(&self) -> (r: bool)
        requires
            self.wf(),
        ensures
            r == self.relocation_feasible(),
    {
        if !self.avoid_snake_body {
            return true;
        }
        if !(self.snake.position[0] == self.target.position) {
            return true;
        }
        let next_head = step_cell(
            self.snake.position[0],
            self.snake.direction,
            self.width,
            self.height,
        );
        let mut blocked = clone_points(&self.snake.position);
        blocked.push(next_head);
        proof {
            assert(blocked@ == self.avoided_cells());
        }
        exists_free_cell(self.obstacles.as_slice(), blocked.as_slice(), self.width, self.height)
    }

    /// One simulation tick: consumption is detected on the cell the head
    /// occupies before moving; a consumed target is relocated before the
    /// snake advances; then the snake moves one step (growing exactly when it
    /// consumed) and collisions are judged on the new head cell.
    pub fn update(&mut self) -> (r: UpdateResult)
        requires
            old(self).wf(),
            old(self).relocation_feasible(),
        ensures
            final(self).wf(),
            final(self).width == old(self).width,
            final(self).height == old(self).height,
            final(self).obstacles@ == old(self).obstacles@,
            final(self).avoid_snake_body == old(self).avoid_snake_body,
            ({
                let hit = old(self).snake.position@[0] == old(self).target.position;
                &&& stepped_body(
                    old(self).snake.position@,
                    final(self).snake.position@,
                    old(self).snake.direction,
                    hit,
                    old(self).width as int,
                    old(self).height as int,
                )
                &&& final(self).snake.direction == old(self).snake.direction
                &&& final(self).snake.current_direction == old(self).snake.direction
                &&& (!hit ==> final(self).target == old(self).target)
                &&& (hit ==> !old(self).obstacles@.contains(final(self).target.position)
                    && in_field(
                    final(self).target.position,
                    old(self).width as int,
                    old(self).height as int,
                ))
                &&& (hit && old(self).avoid_snake_body ==> !final(self).snake.position@.contains(
                    final(self).target.position,
                ))
                &&& r == (if overlapping(final(self).snake) || final(self).obstacles@.contains(
                    final(self).snake.position@[0],
                ) {
                    UpdateResult::Collision
                } else if hit {
                    UpdateResult::TargetHit
                } else {
                    UpdateResult::Continue
                })
            }),
    {
        let snake_hit_target = self.snake_hit_target();
        let w = self.width;
        let h = self.height;
        self.snake.move_snake(snake_hit_target, w, h);
        proof {
            let oldg = *old(self);
            if snake_hit_target && oldg.avoid_snake_body {
                let avoided = oldg.avoided_cells();
                let old_body = oldg.snake.position@;
                assert forall|i: int|
                    0 <= i < self.snake.position@.len() implies self.snake.position@[i]
                    != self.target.position by {
                    if i == 0 {
                        assert(self.snake.position@[0] == avoided[avoided.len() - 1]);
                    } else {
                        assert(self.snake.position@[i] == old_body[i - 1]);
                        assert(old_body[i - 1] == avoided[i - 1]);
                    }
                }
            }
        }
        if self.snake.is_overlapping() || self.snake_hit_obstacle() {
            UpdateResult::Collision
        } else if snake_hit_target {
            UpdateResult::TargetHit
        } else {
            UpdateResult::Continue
        }
    }

    /// Detects whether the head sits on the target's cell; if so, relocates
    /// the target to a cell that avoids the obstacles (and, under the
    /// avoidance policy, the snake's body).
    pub fn snake_hit_target(&mut self) -> (hit: bool)
        requires
            old(self).wf(),
            old(self).relocation_feasible(),
        ensures
            final(self).wf(),
            final(self).snake == old(self).snake,
            final(self).obstacles == old(self).obstacles,
            final(self).width == old(self).width,
            final(self).height == old(self).height,
            final(self).avoid_snake_body == old(self).avoid_snake_body,
            hit == (old(self).snake.position@[0] == old(self).target.position),
            !hit ==> final(self).target == old(self).target,
            hit ==> !old(self).obstacles@.contains(final(self).target.position) && in_field(
                final(self).target.position,
                old(self).width as int,
                old(self).height as int,
            ) && (old(self).avoid_snake_body ==> !old(self).avoided_cells().contains(
                final(self).target.position,
            )),
    {
        if self.snake.position[0] == self.target.position {
            if self.avoid_snake_body {
                let next_head = step_cell(
                    self.snake.position[0],
                    self.snake.direction,
                    self.width,
                    self.height,
                );
                let mut blocked = clone_points(&self.snake.position);
                blocked.push(next_head);
                self.target = Target::new_avoiding(
                    self.obstacles.as_slice(),
                    blocked.as_slice(),
                    self.width,
                    self.height,
                );
            } else {
                self.target = Target::new(self.obstacles.as_slice(), self.width, self.height);
            }
            return true;
        }
        false
    }

    /// The head's cell coincides with an obstacle.
    pub fn snake_hit_obstacle(&mut self) -> (r: bool)
        requires
            old(self).snake.position@.len() >= 1,
        ensures
            *final(self) == *old(self),
            r == old(self).obstacles@.contains(old(self).snake.position@[0]),
    {
        if contains_point(self.obstacles.as_slice(), self.snake.position[0]) {
            return true;
        }
        false
    }

    /// Routes one key press: Escape asks to leave the session; the arrow keys
    /// and WASD request a turn (refused when it would reverse the snake);
    /// every other key does nothing.
    pub fn handle_key_press(&mut self, key: Option<Key>) -> (r: KeyPressResult)
        ensures
            final(self).target == old(self).target,
            final(self).obstacles == old(self).obstacles,
            final(self).width == old(self).width,
            final(self).height == old(self).height,
            final(self).avoid_snake_body == old(self).avoid_snake_body,
            final(self).snake.position@ == old(self).snake.position@,
            final(self).snake.current_direction == old(self).snake.current_direction,
            r == (if key == Some(Key::Escape) {
                KeyPressResult::Exit
            } else {
                KeyPressResult::Continue
            }),
            final(self).snake.direction == (match key {
                Some(k) => match direction_request(k) {
                    Some(d) => if d == opposite(old(self).snake.current_direction) {
                        old(self).snake.direction
                    } else {
                        d
                    },
                    None => old(self).snake.direction,
                },
                None => old(self).snake.direction,
            }),
    {
        if let Some(key) = key {
            match key {
                Key::Escape => {
                    return KeyPressResult::Exit;
                },
                Key::Up | Key::W => {
                    self.snake.set_direction(Direction::Up);
                },
                Key::Down | Key::S => {
                    self.snake.set_direction(Direction::Down);
                },
                Key::Left | Key::A => {
                    self.snake.set_direction(Direction::Left);
                },
                Key::Right | Key::D => {
                    self.snake.set_direction(Direction::Right);
                },
                _ => {},
            }
        }
        KeyPressResult::Continue
    }

    /// Requests a turn for every touch region the player is pressing, in the
    /// fixed order up, down, left, right; each request obeys the no-reverse
    /// rule.
    pub fn apply_touch(&mut self, in_up: bool, in_down: bool, in_left: bool, in_right: bool)
        ensures
            final(self).target == old(self).target,
            final(self).obstacles == old(self).obstacles,
            final(self).width == old(self).width,
            final(self).height == old(self).height,
            final(self).avoid_snake_body == old(self).avoid_snake_body,
            final(self).snake.position@ == old(self).snake.position@,
            final(self).snake.current_direction == old(self).snake.current_direction,
            ({
                let cur = old(self).snake.current_direction;
                let after_up = requested_direction(cur, old(self).snake.direction, Direction::Up, in_up);
                let after_down = requested_direction(cur, after_up, Direction::Down, in_down);
                let after_left = requested_direction(cur, after_down, Direction::Left, in_left);
                final(self).snake.direction == requested_direction(
                    cur,
                    after_left,
                    Direction::Right,
                    in_right,
                )
            }),
    {
        if in_up {
            self.snake.set_direction(Direction::Up);
        }
        if in_down {
            self.snake.set_direction(Direction::Down);
        }
        if in_left {
            self.snake.set_direction(Direction::Left);
        }
        if in_right {
            self.snake.set_direction(Direction::Right);
        }
    }
}

/// The pending direction after one conditional turn request: an active
/// request replaces the pending direction unless it would reverse the
/// direction applied on the most recent tick.
pub open spec fn requested_direction(
    current: Direction,
    pending: Direction,
    request: Direction,
    active: bool,
) -> Direction {
    if active && request != opposite(current) {
        request
    } else {
        pending
    }
}

} // verus!
