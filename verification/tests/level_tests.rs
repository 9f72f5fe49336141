use rusty_head_snake::level::{
    get_dimensions, parse_map, property_from_i64, select_level_files, Level, LoadLevelError,
};
use rusty_head_snake::point::Point;
use rusty_head_snake::snake::Direction;

#[test]
fn test_load_level() {
    let file_content: &str = r#"{
        "target_points": 10,
        "updates_per_second": 8,
        "map": [
            ["o","d","-","o"],
            ["-","s","-","-"],
            ["o","-","-","o"]
        ]
    }"#;

    let expected = Level {
        target_points: Some(10),
        start_position: Some(Point::new(1, 1)),
        start_direction: Some(Direction::Up),
        obstacles: vec![
            Point::new(0, 0),
            Point::new(3, 0),
            Point::new(0, 2),
            Point::new(3, 2),
        ],
        updates_per_second: 8,
        height: 3,
        width: 4,
    };

    let result = Level::load_from_str(file_content).unwrap();
    assert_eq!(expected, result);
}

fn assert_invalid(file_content: &str) {
    let err = Level::load_from_str(file_content).unwrap_err();
    assert!(matches!(err, LoadLevelError::InvalidFormat));
}

#[test]
fn level_without_target_points_is_endless() {
    let level = Level::load_from_str(
        r#"{
        "updates_per_second": 8,
        "map": [
            ["o","-","-","o"],
            ["-","s","d","-"],
            ["-","-","-","-"],
            ["o","-","-","o"]
        ]
    }"#,
    )
    .unwrap();
    assert_eq!(level.target_points, None);
    assert_eq!(level.start_position, Some(Point::new(1, 1)));
    assert_eq!(level.start_direction, Some(Direction::Right));
    assert_eq!(
        level.obstacles,
        vec![
            Point::new(0, 0),
            Point::new(3, 0),
            Point::new(0, 3),
            Point::new(3, 3),
        ]
    );
    assert_eq!(level.updates_per_second, 8);
    assert_eq!(level.width, 4);
    assert_eq!(level.height, 4);
}

#[test]
fn level_with_non_integer_target_points_is_invalid() {
    assert_invalid(
        r#"{
        "target_points": "ten",
        "updates_per_second": 8,
        "map": [
            ["s","d"]
        ]
    }"#,
    );
}

#[test]
fn invalid_level_missing_updates_per_second() {
    assert_invalid(
        r#"{
        "target_points": 10,
        "map": [
            ["o","-","-","o"],
            ["-","s","d","-"],
            ["-","-","-","-"],
            ["o","-","-","o"]
        ]
    }"#,
    );
}

#[test]
fn invalid_level_unrecognized_marker() {
    assert_invalid(
        r#"{
        "target_points": 10,
        "updates_per_second": 8,
        "map": [
            ["o","x","-","o"],
            ["-","s","d","-"],
            ["-","-","-","-"],
            ["o","-","-","o"]
        ]
    }"#,
    );
}

#[test]
fn invalid_level_missing_start() {
    assert_invalid(
        r#"{
        "target_points": 10,
        "updates_per_second": 8,
        "map": [
            ["o","-","-","o"],
            ["-","-","d","-"],
            ["-","-","-","-"],
            ["o","-","-","o"]
        ]
    }"#,
    );
}

#[test]
fn invalid_level_duplicate_start() {
    assert_invalid(
        r#"{
        "target_points": 10,
        "updates_per_second": 8,
        "map": [
            ["o","s","-","o"],
            ["-","s","d","-"],
            ["-","-","-","-"],
            ["o","-","-","o"]
        ]
    }"#,
    );
}

#[test]
fn invalid_level_missing_direction() {
    assert_invalid(
        r#"{
        "target_points": 10,
        "updates_per_second": 8,
        "map": [
            ["o","-","-","o"],
            ["-","s","-","-"],
            ["-","-","-","-"],
            ["o","-","-","o"]
        ]
    }"#,
    );
}

#[test]
fn invalid_level_duplicate_direction() {
    assert_invalid(
        r#"{
        "target_points": 10,
        "updates_per_second": 8,
        "map": [
            ["o","-","d","o"],
            ["-","s","d","-"],
            ["-","-","-","-"],
            ["o","-","-","o"]
        ]
    }"#,
    );
}

#[test]
fn invalid_level_direction_not_adjacent() {
    assert_invalid(
        r#"{
        "target_points": 10,
        "updates_per_second": 8,
        "map": [
            ["o","-","-","o"],
            ["-","s","-","d"],
            ["-","-","-","-"],
            ["o","-","-","o"]
        ]
    }"#,
    );
}

#[test]
fn invalid_level_ragged_rows() {
    assert_invalid(
        r#"{
        "target_points": 10,
        "updates_per_second": 8,
        "map": [
            ["o","-","-","o"],
            ["-","s","d","-"],
            ["-","-","-","-"],
            ["o","-","-"]
        ]
    }"#,
    );
}

#[test]
fn invalid_level_not_json() {
    assert_invalid("not a json document");
}

#[test]
fn too_large_level_parameter() {
    let err = Level::load_from_str(
        r#"{
        "target_points": 4294967296,
        "updates_per_second": 8,
        "map": [
            ["s","d"]
        ]
    }"#,
    )
    .unwrap_err();
    assert!(matches!(err, LoadLevelError::TooLargeValue));
}

#[test]
fn property_fits_or_exceeds_range() {
    assert_eq!(property_from_i64(10), Ok(10));
    assert_eq!(property_from_i64(-2147483648), Ok(-2147483648));
    assert_eq!(property_from_i64(2147483647), Ok(2147483647));
    assert_eq!(
        property_from_i64(2147483648),
        Err(LoadLevelError::TooLargeValue)
    );
    assert_eq!(
        property_from_i64(-2147483649),
        Err(LoadLevelError::TooLargeValue)
    );
}

#[test]
fn dimensions_of_rectangular_grid() {
    let values = vec![
        vec!["-".to_string(), "-".to_string(), "-".to_string()],
        vec!["-".to_string(), "-".to_string(), "-".to_string()],
    ];
    assert_eq!(get_dimensions(&values), Ok((3, 2)));
}

#[test]
fn dimensions_reject_ragged_grid() {
    let values = vec![
        vec!["-".to_string(), "-".to_string()],
        vec!["-".to_string()],
    ];
    assert_eq!(get_dimensions(&values), Err(LoadLevelError::InvalidFormat));
}

#[test]
fn dimensions_reject_empty_grid() {
    let values: Vec<Vec<String>> = vec![];
    assert_eq!(get_dimensions(&values), Err(LoadLevelError::InvalidFormat));
}

fn grid(rows: &[&str]) -> Vec<Vec<String>> {
    rows.iter()
        .map(|row| row.chars().map(|c| c.to_string()).collect())
        .collect()
}

#[test]
fn parse_map_reads_markers() {
    let values = grid(&["od-o", "-s--", "o--o"]);
    let map = parse_map(&values).unwrap();
    assert_eq!(map.start_position, Point::new(1, 1));
    assert_eq!(map.direction, Direction::Up);
    assert_eq!(
        map.obstacles,
        vec![
            Point::new(0, 0),
            Point::new(3, 0),
            Point::new(0, 2),
            Point::new(3, 2),
        ]
    );
    assert_eq!(map.width, 4);
    assert_eq!(map.height, 3);
}

#[test]
fn parse_map_direction_offsets() {
    let right = parse_map(&grid(&["sd"])).unwrap();
    assert_eq!(right.direction, Direction::Right);
    let left = parse_map(&grid(&["ds"])).unwrap();
    assert_eq!(left.direction, Direction::Left);
    let down = parse_map(&grid(&["s", "d"])).unwrap();
    assert_eq!(down.direction, Direction::Down);
    let up = parse_map(&grid(&["d", "s"])).unwrap();
    assert_eq!(up.direction, Direction::Up);
}

#[test]
fn parse_map_rejects_diagonal_direction() {
    let err = parse_map(&grid(&["s-", "-d"])).unwrap_err();
    assert!(matches!(err, LoadLevelError::InvalidFormat));
}

#[test]
fn parse_map_rejects_empty_grid() {
    let values: Vec<Vec<String>> = vec![];
    let err = parse_map(&values).unwrap_err();
    assert!(matches!(err, LoadLevelError::InvalidFormat));
}

#[test]
fn default_level_is_endless() {
    let level = Level::default();
    assert_eq!(level.target_points, None);
    assert_eq!(level.start_position, None);
    assert_eq!(level.start_direction, None);
    assert!(level.obstacles.is_empty());
    assert_eq!(level.updates_per_second, 8);
    assert_eq!(level.width, 10);
    assert_eq!(level.height, 10);
}

#[test]
fn test_create_json_files() {
    let expected_files = vec![
        "level_1.json".to_string(),
        "level_2.json".to_string(),
        "level_3.json".to_string(),
    ];

    let names = vec![
        "level_2.json".to_string(),
        "level_3.json".to_string(),
        "level_1.json".to_string(),
    ];
    let result = select_level_files(&names);
    assert_eq!(expected_files, result);
}

#[test]
fn level_file_selection_filters_other_names() {
    let names = vec![
        "readme.txt".to_string(),
        "b.json".to_string(),
        ".json".to_string(),
        "a.json".to_string(),
        "c.JSON".to_string(),
    ];
    let result = select_level_files(&names);
    assert_eq!(result, vec!["a.json".to_string(), "b.json".to_string()]);
}
