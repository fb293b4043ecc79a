//! The configuration record decoded from the optional `#! { ... }` first
//! line of a scenario file, with its field defaults.

use vstd::prelude::*;

verus! {

/// Default terminal width, in columns, for the asciicast header.
pub fn default_width() -> (w: u32)
    ensures
        w == 77u32,
{
    77
}

/// Default terminal height, in rows, for the asciicast header.
pub fn default_height() -> (h: u32)
    ensures
        h == 20u32,
{
    20
}

/// Default typing step: a tenth of a second of virtual time, in milliseconds.
pub fn default_step_ms() -> (s: u64)
    ensures
        s == 100u64,
{
    100
}

/// Conversion settings for one scenario: the typing step and the terminal
/// size advertised in the asciicast header.  Immutable once decoded.
#[derive(Clone, Copy, Debug, PartialEq, Eq, Structural)]
pub struct Config {
    /// Virtual time added per typed character, in milliseconds.
    pub step_ms: u64,
    /// Terminal width in columns; only the asciicast header reads it.
    pub width: u32,
    /// Terminal height in rows; only the asciicast header reads it.
    pub height: u32,
}

impl Config {
    pub fn new(step_ms: u64, width: u32, height: u32) -> (c: Config)
        ensures
            c == (Config { step_ms, width, height }),
    {
        Config { step_ms, width, height }
    }
}

impl Default for Config {
    fn default() -> (c: Config)
        ensures
            c == (Config { step_ms: 100u64, width: 77u32, height: 20u32 }),
    {
        Config { step_ms: default_step_ms(), width: default_width(), height: default_height() }
    }
}

} // verus!
