//! The virtual clock and the per-line emission routines: clear-screen,
//! simulated typing, and prompted console lines.
//!
//! Every routine appends its events to an ordered output sequence and
//! advances the clock; the exact events and the exact new clock value are
//! stated against the specification functions below.

use vstd::prelude::*;

use crate::event::{
    bold_off_seq, bold_on_seq, clear_seq, crlf_seq, prompt_payload, Event, EventV,
};
use crate::text::chars_to_string;
use crate::text::push_str_chars;

verus! {

/// The mutable cursor of virtual time, owned by the builder for the length
/// of one conversion.  Milliseconds, non-decreasing.
#[derive(Clone, Copy, Debug)]
pub struct TimelineState {
    pub time_ms: u64,
}

/// One row of the static preview: what the SVG renderer later turns into
/// styled text segments.
#[derive(Clone, Debug)]
pub enum PreviewItem {
    /// The prompt of a console line, carrying its (possibly empty) label.
    Prompt { label: String },
    /// The typed command of a console line.
    Typed { text: String },
    /// A literal output line, reproduced verbatim.
    Literal { text: String },
}

/// The mathematical shadow of a [`PreviewItem`].
pub ghost enum ItemV {
    Prompt { label: Seq<char> },
    Typed { text: Seq<char> },
    Literal { text: Seq<char> },
}

impl View for PreviewItem {
    type V = ItemV;

    open spec fn view(&self) -> ItemV {
        match self {
            PreviewItem::Prompt { label } => ItemV::Prompt { label: label@ },
            PreviewItem::Typed { text } => ItemV::Typed { text: text@ },
            PreviewItem::Literal { text } => ItemV::Literal { text: text@ },
        }
    }
}

impl DeepView for PreviewItem {
    type V = ItemV;

    open spec fn deep_view(&self) -> ItemV {
        self@
    }
}

/// Multiplying out one more step: `(a + 1) * b == a * b + b`.
pub proof fn lemma_mul_succ(a: int, b: int)
    ensures
        (a + 1) * b == a * b + b,
{
    assert((a + 1) * b == a * b + b) by (nonlinear_arith);
}

/// Multiplication by a non-negative factor is monotone.
pub proof fn lemma_mul_mono(a: int, b: int, c: int)
    requires
        a <= b,
        c >= 0,
    ensures
        a * c <= b * c,
{
    assert(a * c <= b * c) by (nonlinear_arith)
        requires
            a <= b,
            c >= 0,
    ;
}

/// Distributing a product over a sum: `(a + b) * c == a * c + b * c`.
pub proof fn lemma_mul_distrib(a: int, b: int, c: int)
    ensures
        (a + b) * c == a * c + b * c,
{
    assert((a + b) * c == a * c + b * c) by (nonlinear_arith);
}

/// The events typed for one character: bold-on first when it is the `#`
/// marker, then the character itself, both at the same instant.
pub open spec fn char_burst(t: int, c: char) -> Seq<EventV> {
    if c == '#' {
        seq![
            EventV { time: t, data: bold_on_seq() },
            EventV { time: t, data: seq![c] },
        ]
    } else {
        seq![EventV { time: t, data: seq![c] }]
    }
}

/// The events typed for the first `n` characters of `s`, the clock having
/// stood at `t0` when typing began: character `k` (0-based) appears at
/// `t0 + (k + 1) * step`.
pub open spec fn typing_prefix_events(t0: int, step: int, s: Seq<char>, n: int) -> Seq<EventV>
    decreases n,
{
    if n <= 0 {
        Seq::empty()
    } else {
        typing_prefix_events(t0, step, s, n - 1) + char_burst(t0 + n * step, s[n - 1])
    }
}

/// Whether the text contains the highlight marker `#`.
pub open spec fn has_marker(s: Seq<char>) -> bool {
    exists|i: int| 0 <= i < s.len() && s[i] == '#'
}

/// The complete typing simulation of `s` from clock `t0`: every character
/// in order, one bold-off if the marker was ever typed, and the final
/// carriage-return--line-feed three steps after the last character.
pub open spec fn typing_events(t0: int, step: int, s: Seq<char>) -> Seq<EventV> {
    typing_prefix_events(t0, step, s, s.len() as int) + (if has_marker(s) {
        seq![EventV { time: t0 + s.len() * step, data: bold_off_seq() }]
    } else {
        Seq::<EventV>::empty()
    }) + seq![EventV { time: t0 + (s.len() + 3) * step, data: crlf_seq() }]
}

/// Where the clock stands after typing `len` characters from `t0`.
pub open spec fn typing_end(t0: int, step: int, len: int) -> int {
    t0 + (len + 3) * step
}

/// The events of a whole console line: the prompt one step in, then the
/// typing simulation three further steps after it.
pub open spec fn console_events(t: int, step: int, label: Seq<char>, cmd: Seq<char>) -> Seq<
    EventV,
> {
    seq![EventV { time: t + step, data: prompt_payload(label) }] + typing_events(
        t + 4 * step,
        step,
        cmd,
    )
}

/// Where the clock stands after a whole console line.
pub open spec fn console_end(t: int, step: int, cmdlen: int) -> int {
    t + (cmdlen + 7) * step
}

/// Append one event; nothing else changes.
pub(crate) fn push_event(out: &mut Vec<Event>, time_ms: u64, data: String)
    ensures
        final(out)@ == old(out)@.push(Event { time_ms, data }),
        final(out).deep_view() == old(out).deep_view().push(
            EventV { time: time_ms as int, data: data@ },
        ),
{
    let ghost pre = out.deep_view();
    out.push(Event { time_ms, data });
    proof {
        assert(out.deep_view() =~= pre.push(EventV { time: time_ms as int, data: data@ }));
    }
}

/// A string holding the single character `c`.
fn char_string(c: char) -> (r: String)
    ensures
        r@ == seq![c],
{
    let mut v: Vec<char> = Vec::new();
    v.push(c);
    proof {
        assert(v@ =~= seq![c]);
    }
    chars_to_string(&v)
}

/// Clear-screen: eighteen steps of travel, one event that clears and homes
/// the terminal, three further steps of rest.  No preview row.
pub fn clear_terminal(st: &mut TimelineState, step_ms: u64, out: &mut Vec<Event>)
    requires
        old(st).time_ms + 21 * step_ms <= u64::MAX,
    ensures
        final(st).time_ms == old(st).time_ms + 21 * step_ms,
        final(out).deep_view() == old(out).deep_view().push(
            EventV { time: old(st).time_ms + 18 * step_ms, data: clear_seq() },
        ),
{
    st.time_ms = st.time_ms + 18 * step_ms;
    push_event(out, st.time_ms, "\r\u{1b}[2J\r\u{1b}[H".to_owned());
    st.time_ms = st.time_ms + 3 * step_ms;
}

/// Simulated typing of `line`, character by character, one step apart;
/// the `#` marker turns the text bold from there on.  Returns the typed
/// text for the preview row.
pub fn echo_typing(st: &mut TimelineState, step_ms: u64, line: &str, out: &mut Vec<Event>) -> (
    typed: String)
    requires
        old(st).time_ms + (line@.len() + 3) * step_ms <= u64::MAX,
    ensures
        final(st).time_ms == typing_end(old(st).time_ms as int, step_ms as int, line@.len() as int),
        final(out).deep_view() == old(out).deep_view() + typing_events(
            old(st).time_ms as int,
            step_ms as int,
            line@,
        ),
        typed@ == line@,
{
    let ghost t0 = st.time_ms as int;
    let ghost s = line@;
    let ghost stp = step_ms as int;
    let ghost pre = out.deep_view();
    let n = line.unicode_len();
    let mut i: usize = 0;
    let mut bright = false;
    while i < n
        invariant
            n == s.len(),
            s == line@,
            stp == step_ms as int,
            0 <= i <= n,
            t0 >= 0,
            t0 + (n + 3) * stp <= u64::MAX,
            st.time_ms == t0 + i * stp,
            bright <==> (exists|k: int| 0 <= k < i && s[k] == '#'),
            out.deep_view() == pre + typing_prefix_events(t0, stp, s, i as int),
        decreases n - i,
    {
        let c = line.get_char(i);
        proof {
            lemma_mul_succ(i as int, stp);
            lemma_mul_mono(i as int + 1, n as int + 3, stp);
        }
        st.time_ms = st.time_ms + step_ms;
        if c == '#' {
            push_event(out, st.time_ms, "\u{1b}[1m".to_owned());
            bright = true;
        }
        let cp = char_string(c);
        push_event(out, st.time_ms, cp);
        proof {
            assert(typing_prefix_events(t0, stp, s, i as int + 1) == typing_prefix_events(
                t0,
                stp,
                s,
                i as int,
            ) + char_burst(t0 + (i as int + 1) * stp, s[i as int]));
            assert(out.deep_view() =~= pre + typing_prefix_events(t0, stp, s, i as int + 1));
        }
        i = i + 1;
    }
    proof {
        lemma_mul_mono(n as int + 1, n as int + 3, stp);
        lemma_mul_mono(n as int + 2, n as int + 3, stp);
        lemma_mul_succ(n as int, stp);
        lemma_mul_succ(n as int + 1, stp);
        lemma_mul_succ(n as int + 2, stp);
        assert(bright <==> has_marker(s));
    }
    if bright {
        push_event(out, st.time_ms, "\u{1b}[0m".to_owned());
    }
    st.time_ms = st.time_ms + step_ms;
    st.time_ms = st.time_ms + step_ms;
    st.time_ms = st.time_ms + step_ms;
    push_event(out, st.time_ms, "\r\n".to_owned());
    proof {
        assert(out.deep_view() =~= pre + typing_events(t0, stp, s));
    }
    line.to_owned()
}

/// A whole console line: the prompt (green label when present, then `$ `)
/// one step in, three steps of pause, then the typed command.  Returns the
/// preview row: the prompt label and the typed text.
pub fn echo_console_line(
    st: &mut TimelineState,
    step_ms: u64,
    prompt: &str,
    line: &str,
    out: &mut Vec<Event>,
) -> (fragment: Vec<PreviewItem>)
    requires
        old(st).time_ms + (line@.len() + 7) * step_ms <= u64::MAX,
    ensures
        final(st).time_ms == console_end(old(st).time_ms as int, step_ms as int, line@.len() as int),
        final(out).deep_view() == old(out).deep_view() + console_events(
            old(st).time_ms as int,
            step_ms as int,
            prompt@,
            line@,
        ),
        fragment.deep_view() =~= seq![
            ItemV::Prompt { label: prompt@ },
            ItemV::Typed { text: line@ },
        ],
{
    let ghost t0 = st.time_ms as int;
    let ghost stp = step_ms as int;
    let ghost pre = out.deep_view();
    proof {
        lemma_mul_mono(1, line@.len() as int + 7, stp);
        lemma_mul_mono(2, line@.len() as int + 7, stp);
        lemma_mul_mono(3, line@.len() as int + 7, stp);
        lemma_mul_mono(4, line@.len() as int + 7, stp);
    }
    st.time_ms = st.time_ms + step_ms;

    let payload: String;
    if prompt.unicode_len() == 0 {
        payload = "$ ".to_owned();
        proof {
            assert(prompt@ =~= Seq::<char>::empty());
        }
    } else {
        let mut v: Vec<char> = Vec::new();
        push_str_chars(&mut v, "\u{1b}[32m");
        push_str_chars(&mut v, prompt);
        push_str_chars(&mut v, "\u{1b}[0m$ ");
        payload = chars_to_string(&v);
    }
    assert(payload@ == prompt_payload(prompt@));
    push_event(out, st.time_ms, payload);

    st.time_ms = st.time_ms + step_ms;
    st.time_ms = st.time_ms + step_ms;
    st.time_ms = st.time_ms + step_ms;
    proof {
        lemma_mul_distrib(line@.len() as int + 3, 4, stp);
    }
    let typed = echo_typing(st, step_ms, line, out);
    proof {
        assert(out.deep_view() =~= pre + console_events(t0, stp, prompt@, line@));
    }

    let mut fragment: Vec<PreviewItem> = Vec::new();
    let label = prompt.to_owned();
    fragment.push(PreviewItem::Prompt { label });
    fragment.push(PreviewItem::Typed { text: typed });
    proof {
        assert(fragment.deep_view() =~= seq![
            ItemV::Prompt { label: prompt@ },
            ItemV::Typed { text: line@ },
        ]);
    }
    fragment
}

} // verus!
