//! A terminal-emulation state engine.
//!
//! The crate keeps an in-memory model of what a terminal would display and
//! renders that model back into control sequences. Every function of the
//! library carries a contract that is checked by Verus.
//!
//! - `parser` reads a byte stream, `screen` and `grid` hold what it
//!   describes, `row` and `cell` what a line and a character position hold.
//! - `term` holds the control sequences as values, `format` writes a screen
//!   as control sequences: all of it, what differs from another screen, or
//!   row by row.
//! - `laws` states what holds of every screen that a parser reaches: read
//!   again, what is written for the screen draws the same screen. `replay`,
//!   `effects`, `redraw` and `rows` hold the steps of that proof.

pub mod attrs;
pub mod cell;
pub mod effects;
pub mod format;
pub mod grid;
pub mod laws;
pub mod parser;
pub mod redraw;
pub mod replay;
pub mod row;
pub mod rows;
pub mod screen;
pub mod term;
pub mod types;
pub mod utf8;
pub mod width;

pub use attrs::Color;
pub use cell::Cell;
pub use parser::Parser;
pub use screen::Screen;
