use rusty_head_snake::game::{
    level_action_for_outcome, score_tick, Game, GameOutcome, KeyPressResult, LevelAction,
    UpdateResult,
};
use rusty_head_snake::input::Key;
use rusty_head_snake::level::Level;
use rusty_head_snake::point::Point;
use rusty_head_snake::snake::{Direction, Snake};
use rusty_head_snake::target::Target;

fn init(snake: Snake, target: Target, obstacles: Vec<Point>, width: i32, height: i32) -> Game {
    Game {
        snake,
        target,
        obstacles,
        width,
        height,
        avoid_snake_body: true,
    }
}

fn default_init() -> Game {
    let width = 10;
    let height = 10;

    Game {
        snake: Snake::new(None, None, width, height),
        target: Target::new(&[], width, height),
        obstacles: vec![],
        width,
        height,
        avoid_snake_body: true,
    }
}

#[test]
fn test_key_press() {
    let mut game = default_init();

    let keys_continue_result = vec![
        (Key::Up, Direction::Up, Direction::Left),
        (Key::Left, Direction::Left, Direction::Down),
        (Key::Down, Direction::Down, Direction::Right),
        (Key::Right, Direction::Right, Direction::Up),
        (Key::W, Direction::Up, Direction::Left),
        (Key::A, Direction::Left, Direction::Down),
        (Key::S, Direction::Down, Direction::Right),
        (Key::D, Direction::Right, Direction::Up),
        (Key::Other, Direction::Right, Direction::Up),
    ];
    for key in keys_continue_result {
        game.snake.current_direction = key.2;
        assert_eq!(KeyPressResult::Continue, game.handle_key_press(Some(key.0)));
        assert_eq!(game.snake.direction, key.1);
    }
    assert_eq!(
        KeyPressResult::Exit,
        game.handle_key_press(Some(Key::Escape))
    );
}

#[test]
fn test_snake_hit_target() {
    let width = 5;
    let height = 5;

    let target = Target {
        position: Point::new(2, 2),
    };
    let snake = Snake::new(
        Some(Point::new(1, 2)),
        Some(Direction::Right),
        width,
        height,
    );
    let mut game = init(snake, target, vec![], width, height);

    assert_eq!(UpdateResult::Continue, game.update());
    assert_eq!(UpdateResult::TargetHit, game.update());
    assert_eq!(UpdateResult::Continue, game.update());
}

#[test]
fn test_snake_hit_obstacle() {
    let width = 5;
    let height = 5;

    let target = Target {
        position: Point::new(0, 0),
    };
    let snake = Snake::new(
        Some(Point::new(0, 2)),
        Some(Direction::Right),
        width,
        height,
    );
    let obstacle = vec![Point::new(2, 2)];
    let mut game = init(snake, target, obstacle, width, height);

    assert_eq!(UpdateResult::Continue, game.update());
    assert_eq!(UpdateResult::Collision, game.update());
    assert_eq!(UpdateResult::Continue, game.update());
}

#[test]
fn self_collision_reported() {
    // The head steps onto a cell that a body segment still occupies after
    // the tick.
    let width = 3;
    let height = 3;
    let target = Target {
        position: Point::new(2, 2),
    };
    let snake = Snake {
        position: vec![Point::new(0, 0), Point::new(1, 0), Point::new(1, 1)],
        direction: Direction::Right,
        current_direction: Direction::Right,
    };
    let mut game = init(snake, target, vec![], width, height);
    assert_eq!(UpdateResult::Collision, game.update());
}

#[test]
fn session_hits_target_scores_and_continues() {
    // A 5x5 field, the snake at (1,2) facing right, the target at (2,2):
    // the tick on the target's cell consumes it, scores one point and grows
    // the snake; the next tick continues, and no tick collides.
    let width = 5;
    let height = 5;
    let target = Target {
        position: Point::new(2, 2),
    };
    let snake = Snake::new(
        Some(Point::new(1, 2)),
        Some(Direction::Right),
        width,
        height,
    );
    let mut game = init(snake, target, vec![], width, height);
    let mut points: i32 = 0;

    let r1 = game.update();
    assert_eq!(r1, UpdateResult::Continue);
    let (outcome1, points1) = score_tick(r1, points, None);
    assert!(outcome1.is_none());
    points = points1;

    let r2 = game.update();
    assert_eq!(r2, UpdateResult::TargetHit);
    let (outcome2, points2) = score_tick(r2, points, None);
    assert!(outcome2.is_none());
    assert_eq!(points2, 1);
    assert_eq!(game.snake.position.len(), 2);
    points = points2;

    let r3 = game.update();
    assert_eq!(r3, UpdateResult::Continue);
    let (outcome3, points3) = score_tick(r3, points, None);
    assert!(outcome3.is_none());
    assert_eq!(points3, 1);
}

#[test]
fn score_tick_win_on_reaching_target_points() {
    let (outcome, points) = score_tick(UpdateResult::TargetHit, 9, Some(10));
    assert_eq!(outcome, Some(GameOutcome::Win));
    assert_eq!(points, 10);
}

#[test]
fn score_tick_counts_without_winning() {
    let (outcome, points) = score_tick(UpdateResult::TargetHit, 3, Some(10));
    assert!(outcome.is_none());
    assert_eq!(points, 4);

    let (outcome, points) = score_tick(UpdateResult::TargetHit, 3, None);
    assert!(outcome.is_none());
    assert_eq!(points, 4);
}

#[test]
fn score_tick_lose_on_collision() {
    let (outcome, points) = score_tick(UpdateResult::Collision, 7, Some(10));
    assert_eq!(outcome, Some(GameOutcome::Lose));
    assert_eq!(points, 7);
}

#[test]
fn score_tick_continue_keeps_score() {
    let (outcome, points) = score_tick(UpdateResult::Continue, 7, Some(10));
    assert!(outcome.is_none());
    assert_eq!(points, 7);
}

#[test]
fn level_action_per_outcome() {
    assert_eq!(
        level_action_for_outcome(GameOutcome::Win),
        Some(LevelAction::LoadNextLevel)
    );
    assert_eq!(
        level_action_for_outcome(GameOutcome::Exit),
        Some(LevelAction::UserWantsToStop)
    );
    assert_eq!(level_action_for_outcome(GameOutcome::Lose), None);
}

#[test]
fn game_from_level_uses_level_data() {
    let level = Level {
        target_points: Some(3),
        start_position: Some(Point::new(1, 1)),
        start_direction: Some(Direction::Down),
        obstacles: vec![Point::new(0, 0)],
        updates_per_second: 8,
        height: 4,
        width: 6,
    };
    let game = Game::new(&level);
    assert_eq!(game.width, 6);
    assert_eq!(game.height, 4);
    assert_eq!(game.obstacles, vec![Point::new(0, 0)]);
    assert_eq!(game.snake.position, vec![Point::new(1, 1)]);
    assert_eq!(game.snake.direction, Direction::Down);
    assert_ne!(game.target.position, Point::new(0, 0));
}

#[test]
fn relocation_feasibility_detected() {
    // On a 1x2 field the snake sits on the target and will move onto the
    // only other cell, so no free cell remains for a relocated target.
    let snake = Snake {
        position: vec![Point::new(0, 0)],
        direction: Direction::Right,
        current_direction: Direction::Right,
    };
    let target = Target {
        position: Point::new(0, 0),
    };
    let game = init(snake, target, vec![], 2, 1);
    assert!(!game.can_relocate_target());

    // Off the target, the tick relocates nothing.
    let snake = Snake {
        position: vec![Point::new(1, 0)],
        direction: Direction::Right,
        current_direction: Direction::Right,
    };
    let target = Target {
        position: Point::new(0, 0),
    };
    let game = init(snake, target, vec![], 2, 1);
    assert!(game.can_relocate_target());
}

#[test]
fn touch_requests_obey_no_reverse_rule() {
    let mut game = default_init();
    game.snake.direction = Direction::Right;
    game.snake.current_direction = Direction::Right;
    game.apply_touch(false, false, true, false);
    assert_eq!(game.snake.direction, Direction::Right);
    game.apply_touch(true, false, false, false);
    assert_eq!(game.snake.direction, Direction::Up);
}
