//! Decisions behind a one-shot screenshot tool for Path of Exile: which monitor
//! the game's settings prefer, which monitor to capture, and how the image file
//! is named.

pub mod config;
pub mod monitor;
pub mod number;
pub mod output;
pub mod search;
