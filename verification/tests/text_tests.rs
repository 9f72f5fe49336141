use rusty_head_snake::text;

#[test]
fn format_points() {
    let point_counter = 5;

    let point_target = None;
    let expected_text = format!("{}", point_counter);
    assert_eq!(expected_text, text::format_points(point_counter, point_target));

    let point_target = Some(10);
    let expected_text = format!("{} / {}", point_counter, 10);
    assert_eq!(expected_text, text::format_points(point_counter, point_target));
}

#[test]
fn test_format_no_target_points() {
    let point_counter = 5;

    let point_target = None;
    let expected_text = format!("{}", point_counter);
    assert_eq!(expected_text, text::format_points(point_counter, point_target));

    let point_target = 10;
    let expected_text = format!("{} / {}", point_counter, point_target);
    assert_eq!(
        expected_text,
        text::format_points(point_counter, Some(point_target))
    );
}

#[test]
fn format_points_exact_values() {
    assert_eq!("0", text::format_points(0, None));
    assert_eq!("42", text::format_points(42, None));
    assert_eq!("1000", text::format_points(1000, None));
    assert_eq!("-7", text::format_points(-7, None));
    assert_eq!("-2147483648", text::format_points(-2147483648, None));
    assert_eq!("2147483647", text::format_points(2147483647, None));
    assert_eq!("3 / -12", text::format_points(3, Some(-12)));
}
