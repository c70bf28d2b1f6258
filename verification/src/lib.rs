//! Game logic of a falling-block puzzle: a scrolling board of coloured
//! blocks, horizontal and vertical matches, chains, garbage blocks that
//! turn into direction captchas, an enemy that attacks on a cooldown, and
//! the game's state machine. Time is counted in whole microseconds and
//! fall offsets in millionths of a cell.

pub mod time;
pub mod chain;
pub mod enemy;
pub mod cell;
pub mod board;
pub mod anims;
pub mod matches;
pub mod gravity;
pub mod frame;
pub mod input;
pub mod channel;
pub mod game;
pub mod render;
pub mod laws;
pub mod control_laws;
pub mod match_laws;
pub mod draw_laws;
pub mod fall_laws;
