//! Timed output events: the atomic occurrences of the asciicast stream,
//! and the fixed terminal control payloads the builder emits.
//!
//! Virtual time is measured in whole milliseconds from the start of the
//! recording.

use vstd::prelude::*;

verus! {

/// One atomic terminal-output occurrence: a control sequence, a single
/// typed character, a rendered line, or a batch of text.
#[derive(Clone, Debug)]
pub struct Event {
    /// Milliseconds of virtual time since the start of the recording.
    pub time_ms: u64,
    /// The bytes the terminal receives at that instant.
    pub data: String,
}

/// The mathematical shadow of an [`Event`]: unbounded time, character data.
pub ghost struct EventV {
    pub time: int,
    pub data: Seq<char>,
}

impl View for Event {
    type V = EventV;

    open spec fn view(&self) -> EventV {
        EventV { time: self.time_ms as int, data: self.data@ }
    }
}

impl DeepView for Event {
    type V = EventV;

    open spec fn deep_view(&self) -> EventV {
        self@
    }
}

/// ANSI bold-on, typed just before a highlighted `#` marker.
pub open spec fn bold_on_seq() -> Seq<char> {
    "\u{1b}[1m"@
}

/// ANSI attribute reset, typed once after a highlighted command.
pub open spec fn bold_off_seq() -> Seq<char> {
    "\u{1b}[0m"@
}

/// Carriage return and line feed ending every typed command.
pub open spec fn crlf_seq() -> Seq<char> {
    "\r\n"@
}

/// Carriage return, clear screen, home cursor: the clear-screen payload.
pub open spec fn clear_seq() -> Seq<char> {
    "\r\u{1b}[2J\r\u{1b}[H"@
}

/// The rendered prompt: plain `$ `, or a green label before it.
pub open spec fn prompt_payload(label: Seq<char>) -> Seq<char> {
    if label.len() == 0 {
        "$ "@
    } else {
        "\u{1b}[32m"@ + label + "\u{1b}[0m$ "@
    }
}

} // verus!
