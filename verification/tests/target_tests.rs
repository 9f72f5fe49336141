use rusty_head_snake::point::Point;
use rusty_head_snake::target::{exists_free_cell, Target};

fn assert_new_target(
    obstacles: &[Point],
    width: i32,
    height: i32,
    expected_position: Point,
) {
    assert_eq!(
        Target {
            position: expected_position
        },
        Target::new(obstacles, width, height)
    );
}

#[test]
fn new_target() {
    let width = 3;
    let height = 3;

    let mut field: Vec<Point> = Vec::new();
    for j in 0..height {
        for i in 0..width {
            field.push(Point::new(i, j));
        }
    }

    for i in 0..field.len() {
        let target_position = field[i];
        let obstacles = [&field[..i], &field[i + 1..]].concat();
        assert_new_target(&obstacles, width, height, target_position);
    }
}

#[test]
fn target_avoids_obstacles() {
    let obstacles = vec![Point::new(0, 0), Point::new(1, 0), Point::new(0, 1)];
    for _ in 0..50 {
        let target = Target::new(&obstacles, 2, 2);
        assert_eq!(target.position, Point::new(1, 1));
    }
}

#[test]
fn free_cell_existence_decided() {
    let obstacles = vec![Point::new(0, 0), Point::new(1, 0)];
    let body = vec![Point::new(0, 1)];
    assert!(exists_free_cell(&obstacles, &body, 2, 2));

    let body_full = vec![Point::new(0, 1), Point::new(1, 1)];
    assert!(!exists_free_cell(&obstacles, &body_full, 2, 2));
}

#[test]
fn target_avoids_obstacles_and_body() {
    let obstacles = vec![Point::new(0, 0), Point::new(1, 0)];
    let body = vec![Point::new(0, 1)];
    for _ in 0..50 {
        let target = Target::new_avoiding(&obstacles, &body, 2, 2);
        assert_eq!(target.position, Point::new(1, 1));
    }
}
