use vstd::prelude::*;

use crate::input::Key;

verus! {

/// How many options the menu offers: Levels, Endless Game, Exit.
pub const NUMBER_OF_OPTIONS: i32 = 3;

/// The mode-selection menu: a cursor over the fixed, ordered option list.
#[derive(Debug, PartialEq)]
pub struct Menu {
    pub cursor: i32,
}

/// What the player chooses from the menu.
#[derive(Clone, Copy, Debug, PartialEq, Eq, Structural)]
pub enum GameMode {
    EndlessGame,
    Levels,
    Exit,
}

/// What a pointer or touch interaction means to the menu: a floating contact
/// moves the cursor, a released one confirms, anything else is ignored.
#[derive(Clone, Copy, Debug, PartialEq, Eq, Structural)]
pub enum TouchMouseEvent {
    Floating,
    Enter,
    Idle,
}

/// The phase of a touch contact, as abstract input decoupled from any input
/// device API.
#[derive(Clone, Copy, Debug, PartialEq, Eq, Structural)]
pub enum TouchPhase {
    Started,
    Stationary,
    Moved,
    Ended,
    Cancelled,
}

/// A pointer or touch interaction, already hit-tested by the caller:
/// `option_index` names the menu option whose hit region holds the pointer,
/// if any.
#[derive(Clone, Copy, Debug, PartialEq, Eq, Structural)]
pub struct TouchMouseData {
    pub event: TouchMouseEvent,
    pub option_index: Option<i32>,
}

impl TouchMouseData {
    /// The interaction a mouse sample stands for: a button release confirms,
    /// any other sample floats.
    pub fn from_mouse_event(is_mouse_release: bool, option_index: Option<i32>) -> (d:
        TouchMouseData)
        ensures
            d.event == (if is_mouse_release {
                TouchMouseEvent::Enter
            } else {
                TouchMouseEvent::Floating
            }),
            d.option_index == option_index,
    {
        let event = if is_mouse_release {
            TouchMouseEvent::Enter
        } else {
            TouchMouseEvent::Floating
        };
        TouchMouseData { event, option_index }
    }

    /// The interaction a touch sample stands for: a starting touch floats, an
    /// ending one confirms, every other phase is ignored.
    pub fn from_touch_event(phase: TouchPhase, option_index: Option<i32>) -> (d: TouchMouseData)
        ensures
            d.event == (match phase {
                TouchPhase::Started => TouchMouseEvent::Floating,
                TouchPhase::Ended => TouchMouseEvent::Enter,
                _ => TouchMouseEvent::Idle,
            }),
            d.option_index == option_index,
    {
        let event = match phase {
            TouchPhase::Started => TouchMouseEvent::Floating,
            TouchPhase::Ended => TouchMouseEvent::Enter,
            _ => TouchMouseEvent::Idle,
        };
        TouchMouseData { event, option_index }
    }
}

/// The mode the cursor position selects: the options in order, and none for
/// a position off the list.
pub open spec fn mode_for_cursor(cursor: i32) -> Option<GameMode> {
    if cursor == 0 {
        Some(GameMode::Levels)
    } else if cursor == 1 {
        Some(GameMode::EndlessGame)
    } else if cursor == 2 {
        Some(GameMode::Exit)
    } else {
        None
    }
}

impl Menu {
    /// The cursor stays on the option list.
    pub open spec fn wf(self) -> bool {
        0 <= self.cursor < NUMBER_OF_OPTIONS
    }

    /// A fresh menu with the cursor on the first option.
    pub fn new() -> (m: Menu)
        ensures
            m.cursor == 0,
    {
        Menu { cursor: 0 }
    }

    /// The mode the current cursor position selects.
    pub fn game_mode_from_cursor_position(&self) -> (r: Option<GameMode>)
        ensures
            r == mode_for_cursor(self.cursor),
    {
        match self.cursor {
            0 => Some(GameMode::Levels),
            1 => Some(GameMode::EndlessGame),
            2 => Some(GameMode::Exit),
            _ => None,
        }
    }

    /// Routes one key press: Up and W move the cursor up with wraparound,
    /// Down and S move it down with wraparound, Space and Enter confirm the
    /// selection, and every other key does nothing.
    pub fn handle_key_press(&mut self, key: Option<Key>) -> (r: Option<GameMode>)
        requires
            old(self).wf(),
        ensures
            final(self).wf(),
            final(self).cursor as int == (match key {
                Some(Key::Up) | Some(Key::W) => (old(self).cursor + NUMBER_OF_OPTIONS - 1)
                    % (NUMBER_OF_OPTIONS as int),
                Some(Key::Down) | Some(Key::S) => (old(self).cursor + 1) % (
                NUMBER_OF_OPTIONS as int),
                _ => old(self).cursor as int,
            }),
            r == (match key {
                Some(Key::Space) | Some(Key::Enter) => mode_for_cursor(old(self).cursor),
                _ => None::<GameMode>,
            }),
    {
        if let Some(key) = key {
            match key {
                Key::Up | Key::W => {
                    self.cursor = (self.cursor - 1) % NUMBER_OF_OPTIONS;
                    if self.cursor < 0 {
                        self.cursor = NUMBER_OF_OPTIONS - 1;
                    }
                },
                Key::Down | Key::S => {
                    self.cursor = (self.cursor + 1) % NUMBER_OF_OPTIONS;
                },
                Key::Space | Key::Enter => {
                    return self.game_mode_from_cursor_position();
                },
                _ => {},
            }
        }
        None
    }

    /// Applies one hit-tested pointer interaction: a floating contact over an
    /// option's hit region moves the cursor there; a released contact over
    /// the current cursor's hit region confirms the selection.
    pub fn handle_touch_mouse(&mut self, touch_mouse: &TouchMouseData) -> (r: Option<GameMode>)
        requires
            old(self).wf(),
            touch_mouse.option_index matches Some(i) ==> 0 <= i < NUMBER_OF_OPTIONS,
        ensures
            final(self).wf(),
            final(self).cursor == (if touch_mouse.event == TouchMouseEvent::Floating
                && touch_mouse.option_index is Some {
                touch_mouse.option_index.unwrap()
            } else {
                old(self).cursor
            }),
            r == (if touch_mouse.event == TouchMouseEvent::Enter && touch_mouse.option_index
                == Some(old(self).cursor) {
                mode_for_cursor(old(self).cursor)
            } else {
                None::<GameMode>
            }),
    {
        if touch_mouse.event == TouchMouseEvent::Floating {
            if let Some(i) = touch_mouse.option_index {
                self.cursor = i;
            }
        }
        if touch_mouse.event == TouchMouseEvent::Enter {
            if let Some(i) = touch_mouse.option_index {
                if i == self.cursor {
                    return self.game_mode_from_cursor_position();
                }
            }
        }
        None
    }
}

} // verus!
