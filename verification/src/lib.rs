//! A terminal hangman game library.
//!
//! The game state machine (a round of guessing, the input keymap, the
//! application state with its popups) and the win/loss statistics record
//! with its JSON file format are verified here.  Terminal drawing, key
//! polling and file reads and writes live outside the library and hand it
//! plain values.

pub mod round;
pub mod stats;
pub mod codec;
pub mod input;
pub mod app;
