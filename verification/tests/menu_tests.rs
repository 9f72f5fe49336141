use rusty_head_snake::input::Key;
use rusty_head_snake::menu::{
    GameMode, Menu, TouchMouseData, TouchPhase, NUMBER_OF_OPTIONS,
};

const INITIAL_CURSOR_POSITION: i32 = 0;

fn init() -> Menu {
    Menu {
        cursor: INITIAL_CURSOR_POSITION,
    }
}

fn key_event(menu: &mut Menu, key: Key, expected_result: Option<GameMode>) {
    assert_eq!(expected_result, menu.handle_key_press(Some(key)));
}

fn press_space_or_enter(menu: &mut Menu, game_mode: GameMode) {
    key_event(menu, Key::Space, Some(game_mode));
    key_event(menu, Key::Enter, Some(game_mode));
}

fn cursor_walk(key: Key, reverse_expected_cursor_position: bool) {
    let mut menu = init();

    let mut expected_cursor_position: Vec<i32> = (0..NUMBER_OF_OPTIONS).collect();
    expected_cursor_position.push(INITIAL_CURSOR_POSITION);

    let mut cursor_position = vec![menu.cursor];
    for _ in 0..NUMBER_OF_OPTIONS {
        key_event(&mut menu, key, None);
        cursor_position.push(menu.cursor);
    }

    if reverse_expected_cursor_position {
        expected_cursor_position.reverse();
    }
    assert_eq!(expected_cursor_position, cursor_position);
}

#[test]
fn key_press_up_visits_options_backwards() {
    cursor_walk(Key::Up, true);
}

#[test]
fn key_press_w_visits_options_backwards() {
    cursor_walk(Key::W, true);
}

#[test]
fn key_press_down_visits_options_forwards() {
    cursor_walk(Key::Down, false);
}

#[test]
fn key_press_s_visits_options_forwards() {
    cursor_walk(Key::S, false);
}

#[test]
fn key_press_result() {
    let mut menu = init();

    let expected_cursor_position = vec![0, 1, 0, NUMBER_OF_OPTIONS - 1, 0, 0];
    let mut cursor_position = vec![];

    press_space_or_enter(&mut menu, GameMode::Levels);
    cursor_position.push(menu.cursor);
    key_event(&mut menu, Key::Down, None);
    press_space_or_enter(&mut menu, GameMode::EndlessGame);
    cursor_position.push(menu.cursor);
    key_event(&mut menu, Key::Up, None);
    press_space_or_enter(&mut menu, GameMode::Levels);
    cursor_position.push(menu.cursor);
    key_event(&mut menu, Key::W, None);
    press_space_or_enter(&mut menu, GameMode::Exit);
    cursor_position.push(menu.cursor);
    key_event(&mut menu, Key::S, None);
    press_space_or_enter(&mut menu, GameMode::Levels);
    cursor_position.push(menu.cursor);
    key_event(&mut menu, Key::Other, None);
    press_space_or_enter(&mut menu, GameMode::Levels);
    cursor_position.push(menu.cursor);

    assert_eq!(expected_cursor_position, cursor_position);
}

#[test]
fn test_handle_touch() {
    let mut menu = init();

    for i in 0..NUMBER_OF_OPTIONS {
        let touch_mouse_data = TouchMouseData::from_touch_event(TouchPhase::Started, Some(i));
        assert_eq!(menu.handle_touch_mouse(&touch_mouse_data), None);
        assert_eq!(menu.cursor, i);

        let touch_mouse_data = TouchMouseData::from_touch_event(TouchPhase::Ended, Some(i));
        let selected_game_mode = menu.handle_touch_mouse(&touch_mouse_data);
        assert_eq!(selected_game_mode, menu.game_mode_from_cursor_position());
    }
}

#[test]
fn test_handle_mouse() {
    let mut menu = init();

    for i in 0..NUMBER_OF_OPTIONS {
        let touch_mouse_data = TouchMouseData::from_mouse_event(false, Some(i));
        assert_eq!(menu.handle_touch_mouse(&touch_mouse_data), None);
        assert_eq!(menu.cursor, i);

        let touch_mouse_data = TouchMouseData::from_mouse_event(true, Some(i));
        let selected_game_mode = menu.handle_touch_mouse(&touch_mouse_data);
        assert_eq!(selected_game_mode, menu.game_mode_from_cursor_position());
    }
}

#[test]
fn touch_release_elsewhere_does_not_confirm() {
    let mut menu = init();
    let floating = TouchMouseData::from_touch_event(TouchPhase::Started, Some(1));
    assert_eq!(menu.handle_touch_mouse(&floating), None);
    assert_eq!(menu.cursor, 1);
    let release_elsewhere = TouchMouseData::from_touch_event(TouchPhase::Ended, Some(2));
    assert_eq!(menu.handle_touch_mouse(&release_elsewhere), None);
    let release_nowhere = TouchMouseData::from_touch_event(TouchPhase::Ended, None);
    assert_eq!(menu.handle_touch_mouse(&release_nowhere), None);
}

#[test]
fn moved_touch_is_ignored() {
    let mut menu = init();
    let moved = TouchMouseData::from_touch_event(TouchPhase::Moved, Some(2));
    assert_eq!(menu.handle_touch_mouse(&moved), None);
    assert_eq!(menu.cursor, INITIAL_CURSOR_POSITION);
}
