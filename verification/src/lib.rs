//! Turns an annotated plain-text scenario script into a timestamped
//! asciicast-v2 event stream, and the matching preview rows for a static
//! SVG rendering of the same recording.
//!
//! The scenario format is line oriented: timing directives, comments,
//! prompted commands (whose typing is simulated character by character on a
//! virtual clock), clear-screen directives, idle lines and literal output
//! lines.  All virtual time is kept in whole milliseconds.

pub mod config;
pub mod text;
pub mod event;
pub mod timeline;
pub mod classify;
pub mod builder;
pub mod render;
pub mod emit;
pub mod laws;
