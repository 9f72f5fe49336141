//! Verified core of a grid-based snake arcade game.
//!
//! The library owns the game's simulation logic: the snake's movement model
//! on a toroidal field, target placement, level parsing and validation, the
//! per-tick game session state machine, the menu controller, and score
//! formatting. Rendering, input polling and file access are left to the
//! surrounding application.

pub mod game;
pub mod input;
pub mod json;
pub mod level;
pub mod menu;
pub mod point;
pub mod rng;
pub mod snake;
pub mod target;
pub mod text;
