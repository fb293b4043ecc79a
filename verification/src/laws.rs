//! Laws of the timeline builder and the renderer, stated over the
//! specification functions the executable contracts use, and proved once
//! and for all.

use vstd::prelude::*;

use crate::builder::{build_prefix, build_spec, line_outcome, BuildV, OutcomeV};
use crate::classify::{classify_spec, find_char, timeout_ms, LineClassV};
use crate::event::{bold_off_seq, bold_on_seq, clear_seq, crlf_seq, EventV};
use crate::render::{escape_seq, item_segs, SegClass, SegV};
use crate::timeline::{
    char_burst, console_end, console_events, has_marker, lemma_mul_distrib, lemma_mul_mono,
    typing_end, typing_events, typing_prefix_events,
};
use crate::timeline::ItemV;

verus! {

/// A comment line emits no event, adds no preview row, and leaves the
/// clock unchanged; a blank line emits nothing, adds nothing, and
/// advances the clock by exactly three steps.
pub proof fn lemma_comment_and_blank(i: int, s: Seq<char>, b: BuildV, step: int)
    requires
        b.end + 3 * step <= u64::MAX,
    ensures
        classify_spec(i, s) is Comment ==> line_outcome(i, s, b, step) == (OutcomeV::Done { b }),
        classify_spec(i, s) is Idle ==> line_outcome(i, s, b, step) == (OutcomeV::Done {
            b: BuildV { events: b.events, frags: b.frags, end: b.end + 3 * step },
        }),
{
}

/// A timeout directive with value `v` emits no event, adds no preview
/// row, and advances the clock by exactly `v`.
pub proof fn lemma_timeout_advances(i: int, s: Seq<char>, b: BuildV, step: int, v: int)
    requires
        classify_spec(i, s) matches LineClassV::Timeout { payload }
            && timeout_ms(payload) == Some(v),
        b.end + v <= u64::MAX,
    ensures
        line_outcome(i, s, b, step) == (OutcomeV::Done {
            b: BuildV { events: b.events, frags: b.frags, end: b.end + v },
        }),
{
}

/// A clear-screen directive emits exactly one event, carrying the
/// carriage-return, clear-screen, home-cursor payload, eighteen steps
/// after entry; the clock advances twenty-one steps in all.
pub proof fn lemma_clear_screen(i: int, s: Seq<char>, b: BuildV, step: int)
    requires
        classify_spec(i, s) is Clear,
        b.end + 21 * step <= u64::MAX,
    ensures
        line_outcome(i, s, b, step) == (OutcomeV::Done {
            b: BuildV {
                events: b.events.push(EventV { time: b.end + 18 * step, data: clear_seq() }),
                frags: b.frags,
                end: b.end + 21 * step,
            },
        }),
        clear_seq() == "\r\u{1b}[2J\r\u{1b}[H"@,
{
}

proof fn lemma_typing_prefix_plain(t0: int, step: int, s: Seq<char>, n: int)
    requires
        0 <= n <= s.len(),
        forall|j: int| 0 <= j < s.len() ==> #[trigger] s[j] != '#',
    ensures
        typing_prefix_events(t0, step, s, n).len() == n,
        forall|k: int| 0 <= k < n ==> #[trigger] typing_prefix_events(t0, step, s, n)[k]
            == (EventV { time: t0 + (k + 1) * step, data: seq![s[k]] }),
    decreases n,
{
    if n > 0 {
        lemma_typing_prefix_plain(t0, step, s, n - 1);
        assert(typing_prefix_events(t0, step, s, n) == typing_prefix_events(t0, step, s, n - 1)
            + char_burst(t0 + n * step, s[n - 1]));
    }
}

/// Typing a command of length `L` with no `#` marker emits exactly `L`
/// character events and one final line ending, advances the clock by
/// `(L + 3) * step`, and never emits a bold-on or bold-off event.
pub proof fn lemma_typing_plain(t0: int, step: int, s: Seq<char>)
    requires
        !has_marker(s),
    ensures
        typing_events(t0, step, s).len() == s.len() + 1,
        forall|k: int| 0 <= k < s.len() ==> #[trigger] typing_events(t0, step, s)[k] == (EventV {
            time: t0 + (k + 1) * step,
            data: seq![s[k]],
        }),
        typing_events(t0, step, s).last() == (EventV {
            time: t0 + (s.len() + 3) * step,
            data: crlf_seq(),
        }),
        forall|k: int| 0 <= k < typing_events(t0, step, s).len() ==> #[trigger] typing_events(
            t0,
            step,
            s,
        )[k].data != bold_on_seq() && typing_events(t0, step, s)[k].data != bold_off_seq(),
{
    assert(forall|j: int| 0 <= j < s.len() ==> #[trigger] s[j] != '#');
    lemma_typing_prefix_plain(t0, step, s, s.len() as int);
    reveal_strlit("\u{1b}[1m");
    reveal_strlit("\u{1b}[0m");
    reveal_strlit("\r\n");
    assert(bold_on_seq().len() == 4);
    assert(bold_off_seq().len() == 4);
    assert(crlf_seq().len() == 2);
}

proof fn lemma_typing_prefix_marked(t0: int, step: int, s: Seq<char>, n: int)
    requires
        0 <= n <= s.len(),
    ensures
        ({
            let evs = typing_prefix_events(t0, step, s, n);
            &&& evs.len() >= n
            &&& forall|k: int|
                0 <= k < evs.len() ==> (#[trigger] evs[k].data).len() == 1 || evs[k].data
                    == bold_on_seq()
            &&& forall|k: int|
                0 <= k < evs.len() && #[trigger] evs[k].data == bold_on_seq() ==> k + 1 < evs.len()
                    && evs[k + 1].data == seq!['#'] && evs[k + 1].time == evs[k].time
            &&& forall|k: int|
                0 <= k < evs.len() && #[trigger] evs[k].data == seq!['#'] ==> k >= 1 && evs[k
                    - 1].data == bold_on_seq()
        }),
    decreases n,
{
    reveal_strlit("\u{1b}[1m");
    if n > 0 {
        lemma_typing_prefix_marked(t0, step, s, n - 1);
        assert(typing_prefix_events(t0, step, s, n) == typing_prefix_events(t0, step, s, n - 1)
            + char_burst(t0 + n * step, s[n - 1]));
        let prev = typing_prefix_events(t0, step, s, n - 1);
        let burst = char_burst(t0 + n * step, s[n - 1]);
        let evs = typing_prefix_events(t0, step, s, n);
        assert forall|k: int|
            0 <= k < evs.len() implies (#[trigger] evs[k].data).len() == 1 || evs[k].data
            == bold_on_seq() by {
            if k >= prev.len() {
                if s[n - 1] == '#' {
                    if k == prev.len() {
                        assert(evs[k].data == bold_on_seq());
                    } else {
                        assert(evs[k].data == seq![s[n - 1]]);
                    }
                } else {
                    assert(evs[k].data == seq![s[n - 1]]);
                }
            }
        }
        assert forall|k: int|
            0 <= k < evs.len() && #[trigger] evs[k].data == bold_on_seq() implies k + 1
            < evs.len() && evs[k + 1].data == seq!['#'] && evs[k + 1].time == evs[k].time by {
            if k < prev.len() {
                assert(prev[k].data == bold_on_seq());
                assert(evs[k + 1] == prev[k + 1]);
            } else {
                if s[n - 1] == '#' {
                    if k == prev.len() {
                        assert(evs[k] == burst[0]);
                        assert(evs[k + 1] == burst[1]);
                    } else {
                        assert(k == prev.len() + 1);
                        assert(evs[k] == burst[1]);
                        assert(evs[k].data == seq!['#']);
                        assert(evs[k].data.len() == 1);
                        assert(bold_on_seq().len() == 4);
                    }
                } else {
                    assert(evs[k].data == seq![s[n - 1]]);
                    assert(evs[k].data.len() == 1);
                }
            }
        }
        assert forall|k: int|
            0 <= k < evs.len() && #[trigger] evs[k].data == seq!['#'] implies k >= 1 && evs[k
            - 1].data == bold_on_seq() by {
            if k < prev.len() {
                assert(prev[k].data == seq!['#']);
                assert(evs[k - 1] == prev[k - 1]);
            } else {
                if s[n - 1] == '#' {
                    assert(burst[0].data == bold_on_seq());
                    assert(evs[k].data[0] == '#');
                    assert(k == prev.len() + 1);
                    assert(evs[k - 1] == burst[0]);
                } else {
                    assert(evs[k].data == seq![s[n - 1]]);
                    assert(evs[k].data[0] == s[n - 1]);
                }
            }
        }
    }
}

/// Typing a command that contains the `#` marker: each bold-on event is
/// immediately followed by the typing of a `#`, at the same instant; each
/// typed `#` is immediately preceded by a bold-on; exactly one bold-off
/// is emitted, after the last character and right before the final line
/// ending.
pub proof fn lemma_typing_marked(t0: int, step: int, s: Seq<char>)
    requires
        has_marker(s),
    ensures
        ({
            let evs = typing_events(t0, step, s);
            &&& evs.len() >= 2
            &&& evs[evs.len() - 2] == (EventV { time: t0 + s.len() * step, data: bold_off_seq() })
            &&& evs.last() == (EventV { time: t0 + (s.len() + 3) * step, data: crlf_seq() })
            &&& forall|k: int|
                0 <= k < evs.len() && (#[trigger] evs[k].data) == bold_off_seq() ==> k == evs.len()
                    - 2
            &&& forall|k: int|
                0 <= k < evs.len() && (#[trigger] evs[k].data) == bold_on_seq() ==> k + 1
                    < evs.len() && evs[k + 1].data == seq!['#'] && evs[k + 1].time == evs[k].time
            &&& forall|k: int|
                0 <= k < evs.len() && (#[trigger] evs[k].data) == seq!['#'] ==> k >= 1 && evs[k
                    - 1].data == bold_on_seq()
        }),
{
    reveal_strlit("\u{1b}[1m");
    reveal_strlit("\u{1b}[0m");
    reveal_strlit("\r\n");
    lemma_typing_prefix_marked(t0, step, s, s.len() as int);
    assert(bold_on_seq()[2] == '1');
    assert(bold_off_seq()[2] == '0');
    assert(bold_on_seq() != bold_off_seq());
    assert(bold_on_seq().len() == 4);
    assert(bold_off_seq().len() == 4);
    assert(crlf_seq().len() == 2);
    let a = typing_prefix_events(t0, step, s, s.len() as int);
    let off = seq![EventV { time: t0 + s.len() * step, data: bold_off_seq() }];
    let fin = seq![EventV { time: t0 + (s.len() + 3) * step, data: crlf_seq() }];
    let evs = typing_events(t0, step, s);
    assert(evs == a + off + fin);
    assert(evs.len() == a.len() + 2);
    assert(evs[evs.len() - 2] == off[0]);
    assert(evs.last() == fin[0]);
    assert forall|k: int|
        0 <= k < evs.len() && (#[trigger] evs[k].data) == bold_off_seq() implies k == evs.len()
        - 2 by {
        if k < a.len() {
            assert(evs[k] == a[k]);
            assert(a[k].data.len() == 1 || a[k].data == bold_on_seq());
        } else if k == evs.len() - 1 {
            assert(evs[k].data == crlf_seq());
        }
    }
    assert forall|k: int|
        0 <= k < evs.len() && (#[trigger] evs[k].data) == bold_on_seq() implies k + 1 < evs.len()
        && evs[k + 1].data == seq!['#'] && evs[k + 1].time == evs[k].time by {
        if k < a.len() {
            assert(evs[k] == a[k]);
            assert(k + 1 < a.len());
            assert(evs[k + 1] == a[k + 1]);
        } else if k == evs.len() - 2 {
            assert(evs[k].data == bold_off_seq());
        } else {
            assert(evs[k].data == crlf_seq());
        }
    }
    assert forall|k: int|
        0 <= k < evs.len() && (#[trigger] evs[k].data) == seq!['#'] implies k >= 1 && evs[k
        - 1].data == bold_on_seq() by {
        if k < a.len() {
            assert(evs[k] == a[k]);
            assert(k >= 1 && a[k - 1].data == bold_on_seq());
            assert(evs[k - 1] == a[k - 1]);
        } else if k == evs.len() - 2 {
            assert(evs[k].data == bold_off_seq());
            assert(evs[k].data.len() == 4);
        } else {
            assert(evs[k].data == crlf_seq());
            assert(evs[k].data.len() == 2);
        }
    }
}

/// Escaping distributes over concatenation: a text escaped in split
/// pieces equals the whole text escaped once.
pub proof fn lemma_escape_concat(a: Seq<char>, b: Seq<char>)
    ensures
        escape_seq(a + b) == escape_seq(a) + escape_seq(b),
    decreases a.len(),
{
    if a.len() == 0 {
        assert(a + b =~= b);
        assert(escape_seq(a) =~= Seq::<char>::empty());
    } else {
        lemma_escape_concat(a.drop_first(), b);
        assert((a + b).drop_first() =~= a.drop_first() + b);
        assert((a + b)[0] == a[0]);
        assert(escape_seq(a + b) =~= escape_seq(a) + escape_seq(b));
    }
}

/// The split of a marked command covers the text exactly once: the plain
/// head and the highlighted tail are the escapes of the two halves of the
/// text, their concatenation is the escape of the whole text, and no
/// segment is escaped twice.
pub proof fn lemma_marked_split_escapes_once(text: Seq<char>)
    requires
        0 <= find_char(text, '#') < text.len(),
    ensures
        ({
            let i = find_char(text, '#');
            let segs = item_segs(ItemV::Typed { text });
            &&& segs.len() == 3
            &&& segs[0] == (SegV { class: SegClass::Plain, text: escape_seq(text.take(i)) })
            &&& segs[1] == (SegV { class: SegClass::Highlight, text: escape_seq(text.skip(i)) })
            &&& segs[2] == (SegV { class: SegClass::Green, text: escape_seq(text) })
            &&& segs[0].text + segs[1].text == escape_seq(text)
        }),
{
    let i = find_char(text, '#');
    assert(text.take(i) + text.skip(i) =~= text);
    lemma_escape_concat(text.take(i), text.skip(i));
}

/// Every time lies in the window `[lo, hi]`.
pub open spec fn times_within(evs: Seq<EventV>, lo: int, hi: int) -> bool {
    forall|k: int| 0 <= k < evs.len() ==> lo <= (#[trigger] evs[k]).time <= hi
}

/// Times never decrease along the sequence.
pub open spec fn times_sorted(evs: Seq<EventV>) -> bool {
    forall|k: int| 0 <= k && k + 1 < evs.len() ==> (#[trigger] evs[k]).time <= evs[k + 1].time
}

proof fn lemma_append_ordered(a: Seq<EventV>, b: Seq<EventV>, lo: int, mid: int, hi: int)
    requires
        lo <= mid <= hi,
        times_within(a, lo, mid),
        times_sorted(a),
        times_within(b, mid, hi),
        times_sorted(b),
    ensures
        times_within(a + b, lo, hi),
        times_sorted(a + b),
{
    let c = a + b;
    assert forall|k: int| 0 <= k < c.len() implies lo <= (#[trigger] c[k]).time <= hi by {
        if k < a.len() {
            assert(c[k] == a[k]);
        } else {
            assert(c[k] == b[k - a.len()]);
        }
    }
    assert forall|k: int| 0 <= k && k + 1 < c.len() implies (#[trigger] c[k]).time <= c[k
        + 1].time by {
        if k + 1 < a.len() {
            assert(c[k] == a[k] && c[k + 1] == a[k + 1]);
        } else if k >= a.len() {
            assert(c[k] == b[k - a.len()] && c[k + 1] == b[k + 1 - a.len()]);
        } else {
            assert(c[k] == a[k] && c[k + 1] == b[0]);
        }
    }
}

proof fn lemma_typing_prefix_window(t0: int, step: int, s: Seq<char>, n: int)
    requires
        step >= 0,
        0 <= n <= s.len(),
    ensures
        times_within(typing_prefix_events(t0, step, s, n), t0, t0 + n * step),
        times_sorted(typing_prefix_events(t0, step, s, n)),
    decreases n,
{
    lemma_mul_mono(0, n, step);
    if n > 0 {
        lemma_typing_prefix_window(t0, step, s, n - 1);
        lemma_mul_mono(n - 1, n, step);
        assert(typing_prefix_events(t0, step, s, n) == typing_prefix_events(t0, step, s, n - 1)
            + char_burst(t0 + n * step, s[n - 1]));
        let burst = char_burst(t0 + n * step, s[n - 1]);
        assert(times_within(burst, t0 + (n - 1) * step, t0 + n * step));
        assert(times_sorted(burst));
        lemma_append_ordered(
            typing_prefix_events(t0, step, s, n - 1),
            burst,
            t0,
            t0 + (n - 1) * step,
            t0 + n * step,
        );
    }
}

proof fn lemma_typing_window(t0: int, step: int, s: Seq<char>)
    requires
        step >= 0,
    ensures
        times_within(typing_events(t0, step, s), t0, typing_end(t0, step, s.len() as int)),
        times_sorted(typing_events(t0, step, s)),
{
    let n = s.len() as int;
    lemma_typing_prefix_window(t0, step, s, n);
    lemma_mul_distrib(n, 3, step);
    lemma_mul_mono(0, n, step);
    let a = typing_prefix_events(t0, step, s, n);
    let off = if has_marker(s) {
        seq![EventV { time: t0 + n * step, data: bold_off_seq() }]
    } else {
        Seq::<EventV>::empty()
    };
    let fin = seq![EventV { time: t0 + (n + 3) * step, data: crlf_seq() }];
    assert(times_within(off, t0 + n * step, t0 + n * step));
    assert(times_sorted(off));
    lemma_append_ordered(a, off, t0, t0 + n * step, t0 + n * step);
    assert(times_within(fin, t0 + n * step, t0 + (n + 3) * step));
    assert(times_sorted(fin));
    lemma_append_ordered(a + off, fin, t0, t0 + n * step, t0 + (n + 3) * step);
    assert(typing_events(t0, step, s) == a + off + fin);
}

proof fn lemma_console_window(t: int, step: int, label: Seq<char>, cmd: Seq<char>)
    requires
        step >= 0,
    ensures
        times_within(console_events(t, step, label, cmd), t, console_end(t, step, cmd.len() as int)),
        times_sorted(console_events(t, step, label, cmd)),
{
    let n = cmd.len() as int;
    lemma_typing_window(t + 4 * step, step, cmd);
    lemma_mul_distrib(n + 3, 4, step);
    lemma_mul_mono(0, n + 3, step);
    let pr = seq![EventV { time: t + step, data: crate::event::prompt_payload(label) }];
    assert(times_within(pr, t, t + 4 * step));
    assert(times_sorted(pr));
    assert(typing_end(t + 4 * step, step, n) == console_end(t, step, n));
    lemma_append_ordered(
        pr,
        typing_events(t + 4 * step, step, cmd),
        t,
        t + 4 * step,
        console_end(t, step, n),
    );
    assert(console_events(t, step, label, cmd) == pr + typing_events(t + 4 * step, step, cmd));
}

/// The virtual clock of a conversion never runs backward: over any prefix
/// of the scenario that converts, every emitted event lies between the
/// initial offset of three steps and the final clock, and the event times
/// are non-decreasing in emission order.
pub proof fn lemma_clock_monotone(lines: Seq<Seq<char>>, step: int, n: int)
    requires
        step >= 0,
        0 <= n,
        build_prefix(lines, step, n) is Done,
    ensures
        ({
            let b = build_prefix(lines, step, n)->b;
            &&& 3 * step <= b.end
            &&& times_within(b.events, 3 * step, b.end)
            &&& times_sorted(b.events)
        }),
    decreases n,
{
    if n > 0 {
        assert(build_prefix(lines, step, n - 1) is Done);
        lemma_clock_monotone(lines, step, n - 1);
        let b = build_prefix(lines, step, n - 1)->b;
        let b2 = build_prefix(lines, step, n)->b;
        match classify_spec(n - 1, lines[n - 1]) {
            LineClassV::ConfigLine => {},
            LineClassV::Comment => {},
            LineClassV::Timeout { payload } => {
                crate::classify::lemma_timeout_ms_nonneg(payload);
            },
            LineClassV::Console { label, command } => {
                let m = command.len() as int;
                lemma_console_window(b.end, step, label, command);
                lemma_mul_mono(0, m + 7, step);
                lemma_append_ordered(
                    b.events,
                    console_events(b.end, step, label, command),
                    3 * step,
                    b.end,
                    b2.end,
                );
            },
            LineClassV::Clear => {
                let ev = seq![EventV { time: b.end + 18 * step, data: clear_seq() }];
                assert(times_within(ev, b.end, b2.end));
                assert(times_sorted(ev));
                lemma_append_ordered(b.events, ev, 3 * step, b.end, b2.end);
                assert(b2.events =~= b.events + ev);
            },
            LineClassV::Idle => {},
            LineClassV::Literal => {
                let ev = seq![EventV { time: b.end, data: lines[n - 1] + crlf_seq() }];
                assert(times_within(ev, b.end, b2.end));
                assert(times_sorted(ev));
                lemma_append_ordered(b.events, ev, 3 * step, b.end, b2.end);
                assert(b2.events =~= b.events + ev);
            },
        }
    }
}

/// The same events, each occurring `d` later.
pub open spec fn shift_events(evs: Seq<EventV>, d: int) -> Seq<EventV> {
    evs.map_values(|e: EventV| EventV { time: e.time + d, data: e.data })
}

proof fn lemma_shift_add(a: Seq<EventV>, b: Seq<EventV>, d: int)
    ensures
        shift_events(a + b, d) == shift_events(a, d) + shift_events(b, d),
{
    assert(shift_events(a + b, d) =~= shift_events(a, d) + shift_events(b, d));
}

proof fn lemma_typing_prefix_shift(t0: int, step: int, s: Seq<char>, n: int, d: int)
    requires
        0 <= n <= s.len(),
    ensures
        typing_prefix_events(t0 + d, step, s, n) == shift_events(
            typing_prefix_events(t0, step, s, n),
            d,
        ),
    decreases n,
{
    if n <= 0 {
        assert(typing_prefix_events(t0 + d, step, s, n) =~= shift_events(
            typing_prefix_events(t0, step, s, n),
            d,
        ));
    } else {
        lemma_typing_prefix_shift(t0, step, s, n - 1, d);
        assert(char_burst(t0 + d + n * step, s[n - 1]) =~= shift_events(
            char_burst(t0 + n * step, s[n - 1]),
            d,
        ));
        lemma_shift_add(typing_prefix_events(t0, step, s, n - 1), char_burst(t0 + n * step, s[n - 1]), d);
        assert(typing_prefix_events(t0 + d, step, s, n) == typing_prefix_events(t0 + d, step, s, n - 1)
            + char_burst(t0 + d + n * step, s[n - 1]));
    }
}

proof fn lemma_typing_shift(t0: int, step: int, s: Seq<char>, d: int)
    ensures
        typing_events(t0 + d, step, s) == shift_events(typing_events(t0, step, s), d),
{
    let n = s.len() as int;
    lemma_typing_prefix_shift(t0, step, s, n, d);
    let off0 = if has_marker(s) {
        seq![EventV { time: t0 + n * step, data: bold_off_seq() }]
    } else {
        Seq::<EventV>::empty()
    };
    let offd = if has_marker(s) {
        seq![EventV { time: t0 + d + n * step, data: bold_off_seq() }]
    } else {
        Seq::<EventV>::empty()
    };
    let fin0 = seq![EventV { time: t0 + (n + 3) * step, data: crlf_seq() }];
    let find = seq![EventV { time: t0 + d + (n + 3) * step, data: crlf_seq() }];
    assert(offd =~= shift_events(off0, d));
    assert(find =~= shift_events(fin0, d));
    lemma_shift_add(typing_prefix_events(t0, step, s, n), off0, d);
    lemma_shift_add(typing_prefix_events(t0, step, s, n) + off0, fin0, d);
    assert(typing_events(t0 + d, step, s) == typing_prefix_events(t0 + d, step, s, n) + offd
        + find);
}

proof fn lemma_console_shift(t: int, step: int, label: Seq<char>, cmd: Seq<char>, d: int)
    ensures
        console_events(t + d, step, label, cmd) == shift_events(
            console_events(t, step, label, cmd),
            d,
        ),
{
    lemma_typing_shift(t + 4 * step, step, cmd, d);
    let pr0 = seq![EventV { time: t + step, data: crate::event::prompt_payload(label) }];
    let prd = seq![EventV { time: t + d + step, data: crate::event::prompt_payload(label) }];
    assert(prd =~= shift_events(pr0, d));
    lemma_shift_add(pr0, typing_events(t + 4 * step, step, cmd), d);
    assert(t + d + 4 * step == (t + 4 * step) + d);
    assert(console_events(t + d, step, label, cmd) == prd + typing_events((t + 4 * step) + d, step, cmd));
}

proof fn lemma_build_prefix_agrees(la: Seq<Seq<char>>, lb: Seq<Seq<char>>, step: int, n: int)
    requires
        0 <= n,
        forall|j: int| 0 <= j < n ==> #[trigger] la[j] == lb[j],
    ensures
        build_prefix(la, step, n) == build_prefix(lb, step, n),
    decreases n,
{
    if n > 0 {
        lemma_build_prefix_agrees(la, lb, step, n - 1);
    }
}

proof fn lemma_done_prefix(lines: Seq<Seq<char>>, step: int, m: int, n: int)
    requires
        0 <= m <= n,
        build_prefix(lines, step, n) is Done,
    ensures
        build_prefix(lines, step, m) is Done,
{
    if build_prefix(lines, step, m) is Fail {
        crate::builder::lemma_fail_propagates(lines, step, m, n);
    }
}

proof fn lemma_rel_append(
    ea: Seq<EventV>,
    eb: Seq<EventV>,
    aev: Seq<EventV>,
    bev: Seq<EventV>,
    m: int,
    v: int,
)
    requires
        0 <= m <= aev.len(),
        aev.len() == bev.len(),
        aev.take(m) == bev.take(m),
        aev.skip(m) == shift_events(bev.skip(m), v),
        ea == shift_events(eb, v),
    ensures
        (aev + ea).take(m) == (bev + eb).take(m),
        (aev + ea).skip(m) == shift_events((bev + eb).skip(m), v),
        (aev + ea).len() == (bev + eb).len(),
{
    lemma_shift_add(bev.skip(m), eb, v);
    assert((aev + ea).take(m) =~= aev.take(m));
    assert((bev + eb).take(m) =~= bev.take(m));
    assert((aev + ea).skip(m) =~= aev.skip(m) + ea);
    assert((bev + eb).skip(m) =~= bev.skip(m) + eb);
}

proof fn lemma_shift_run(
    lines: Seq<Seq<char>>,
    rest: Seq<Seq<char>>,
    step: int,
    k: int,
    v: int,
    m: int,
    idx: int,
)
    requires
        step >= 0,
        v >= 0,
        1 <= k < lines.len(),
        rest == lines.take(k) + lines.skip(k + 1),
        classify_spec(k, lines[k]) matches LineClassV::Timeout { payload } && timeout_ms(payload)
            == Some(v),
        build_prefix(lines, step, k) is Done,
        m == (build_prefix(lines, step, k)->b).events.len(),
        k + 1 <= idx <= lines.len(),
        build_prefix(lines, step, idx) is Done,
    ensures
        build_prefix(rest, step, idx - 1) is Done,
        ({
            let a = build_prefix(lines, step, idx)->b;
            let b = build_prefix(rest, step, idx - 1)->b;
            &&& a.end == b.end + v
            &&& a.frags == b.frags
            &&& a.events.len() == b.events.len()
            &&& m <= b.events.len()
            &&& a.events.take(m) == b.events.take(m)
            &&& a.events.skip(m) == shift_events(b.events.skip(m), v)
        }),
    decreases idx,
{
    let c = build_prefix(lines, step, k)->b;
    if idx == k + 1 {
        assert(forall|j: int| 0 <= j < k ==> #[trigger] rest[j] == lines[j]);
        lemma_build_prefix_agrees(rest, lines, step, k);
        let a = build_prefix(lines, step, idx)->b;
        let b = build_prefix(rest, step, idx - 1)->b;
        assert(b == c);
        assert(a == BuildV { events: c.events, frags: c.frags, end: c.end + v });
        assert(a.events.take(m) =~= a.events);
        assert(b.events.take(m) =~= b.events);
        assert(a.events.skip(m) =~= Seq::<EventV>::empty());
        assert(b.events.skip(m) =~= Seq::<EventV>::empty());
        assert(a.events.skip(m) =~= shift_events(b.events.skip(m), v));
    } else {
        assert(build_prefix(lines, step, idx - 1) is Done);
        lemma_shift_run(lines, rest, step, k, v, m, idx - 1);
        let a0 = build_prefix(lines, step, idx - 1)->b;
        let b0 = build_prefix(rest, step, idx - 2)->b;
        let s = lines[idx - 1];
        assert(rest[idx - 2] == lines.skip(k + 1)[idx - 2 - k]);
        assert(rest[idx - 2] == s);
        let cl = classify_spec(idx - 1, s);
        assert(classify_spec(idx - 2, s) == cl);
        match cl {
            LineClassV::ConfigLine => {},
            LineClassV::Comment => {},
            LineClassV::Timeout { payload } => {
                crate::classify::lemma_timeout_ms_nonneg(payload);
            },
            LineClassV::Console { label, command } => {
                lemma_console_shift(b0.end, step, label, command, v);
                lemma_rel_append(
                    console_events(a0.end, step, label, command),
                    console_events(b0.end, step, label, command),
                    a0.events,
                    b0.events,
                    m,
                    v,
                );
            },
            LineClassV::Clear => {
                let ea = seq![EventV { time: a0.end + 18 * step, data: clear_seq() }];
                let eb = seq![EventV { time: b0.end + 18 * step, data: clear_seq() }];
                assert(ea =~= shift_events(eb, v));
                lemma_rel_append(ea, eb, a0.events, b0.events, m, v);
                assert((build_prefix(lines, step, idx)->b).events =~= a0.events + ea);
                assert((build_prefix(rest, step, idx - 1)->b).events =~= b0.events + eb);
            },
            LineClassV::Idle => {},
            LineClassV::Literal => {
                let ea = seq![EventV { time: a0.end, data: s + crlf_seq() }];
                let eb = seq![EventV { time: b0.end, data: s + crlf_seq() }];
                assert(ea =~= shift_events(eb, v));
                lemma_rel_append(ea, eb, a0.events, b0.events, m, v);
                assert((build_prefix(lines, step, idx)->b).events =~= a0.events + ea);
                assert((build_prefix(rest, step, idx - 1)->b).events =~= b0.events + eb);
            },
        }
    }
}

/// A timeout directive emits no event of its own and advances every later
/// event by exactly its value: a converting scenario with a timeout at
/// line `k` yields the same events as the scenario without that line,
/// except that every event from the directive on occurs exactly the
/// decoded number of milliseconds later, and the final clock moves by the
/// same amount.  Events before the directive, and all preview rows, are
/// untouched.
pub proof fn lemma_timeout_directive_shift(lines: Seq<Seq<char>>, step: int, k: int)
    requires
        step >= 0,
        1 <= k < lines.len(),
        classify_spec(k, lines[k]) is Timeout,
        build_spec(lines, step) is Done,
    ensures
        ({
            let rest = lines.take(k) + lines.skip(k + 1);
            let p = classify_spec(k, lines[k])->payload;
            let v = timeout_ms(p)->0;
            let m = (build_prefix(lines, step, k)->b).events.len() as int;
            let a = build_spec(lines, step)->b;
            &&& timeout_ms(p) is Some
            &&& v >= 0
            &&& build_prefix(lines, step, k) is Done
            &&& build_spec(rest, step) is Done
            &&& ({
                let b = build_spec(rest, step)->b;
                &&& a.end == b.end + v
                &&& a.frags == b.frags
                &&& a.events.len() == b.events.len()
                &&& m <= b.events.len()
                &&& a.events.take(m) == b.events.take(m)
                &&& a.events.skip(m) == shift_events(b.events.skip(m), v)
            })
        }),
{
    let n = lines.len() as int;
    let rest = lines.take(k) + lines.skip(k + 1);
    lemma_done_prefix(lines, step, k, n);
    lemma_done_prefix(lines, step, k + 1, n);
    let p = classify_spec(k, lines[k])->payload;
    assert(timeout_ms(p) is Some);
    let v = timeout_ms(p)->0;
    crate::classify::lemma_timeout_ms_nonneg(p);
    let m = (build_prefix(lines, step, k)->b).events.len() as int;
    lemma_shift_run(lines, rest, step, k, v, m, n);
    assert(rest.len() == n - 1);
    assert(build_spec(rest, step) == build_prefix(rest, step, n - 1));
}

} // verus!
