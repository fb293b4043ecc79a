//! The timeline builder: one pass over the scenario lines, dispatching
//! each classified line to its emission routine, accumulating the ordered
//! event stream and the parallel preview rows.
//!
//! The whole pass is specified by [`build_prefix`]: a recursive fold of
//! [`line_outcome`] over the lines, starting the clock at three steps.

use vstd::prelude::*;

use crate::classify::{classify, classify_spec, lemma_timeout_ms_nonneg, parse_timeout, timeout_ms, LineClassV, LineKind, TimeoutValue};
use crate::config::Config;
use crate::event::{clear_seq, crlf_seq, Event, EventV};
use crate::timeline::{
    clear_terminal, console_end, console_events, echo_console_line, push_event, ItemV,
    PreviewItem, TimelineState,
};

verus! {

/// Why a conversion stops: a timeout payload that is not a number, or a
/// virtual clock that left the representable range.
pub ghost enum BuildErrV {
    TimeoutDecode { line: int },
    ClockOverflow { line: int },
}

/// What a conversion of a line prefix has produced: the events so far, the
/// preview rows so far, and where the clock stands.
pub ghost struct BuildV {
    pub events: Seq<EventV>,
    pub frags: Seq<Seq<ItemV>>,
    pub end: int,
}

pub ghost enum OutcomeV {
    Done { b: BuildV },
    Fail { e: BuildErrV },
}

/// What processing line `i` (raw text `s`) does to the build state `b`.
pub open spec fn line_outcome(i: int, s: Seq<char>, b: BuildV, step: int) -> OutcomeV {
    match classify_spec(i, s) {
        LineClassV::ConfigLine => OutcomeV::Done { b },
        LineClassV::Comment => OutcomeV::Done { b },
        LineClassV::Timeout { payload } => match timeout_ms(payload) {
            Option::None => OutcomeV::Fail { e: BuildErrV::TimeoutDecode { line: i } },
            Option::Some(v) => if b.end + v <= u64::MAX {
                OutcomeV::Done {
                    b: BuildV { events: b.events, frags: b.frags, end: b.end + v },
                }
            } else {
                OutcomeV::Fail { e: BuildErrV::ClockOverflow { line: i } }
            },
        },
        LineClassV::Console { label, command } => if b.end + (command.len() + 7) * step
            <= u64::MAX {
            OutcomeV::Done {
                b: BuildV {
                    events: b.events + console_events(b.end, step, label, command),
                    frags: b.frags.push(
                        seq![ItemV::Prompt { label }, ItemV::Typed { text: command }],
                    ),
                    end: console_end(b.end, step, command.len() as int),
                },
            }
        } else {
            OutcomeV::Fail { e: BuildErrV::ClockOverflow { line: i } }
        },
        LineClassV::Clear => if b.end + 21 * step <= u64::MAX {
            OutcomeV::Done {
                b: BuildV {
                    events: b.events.push(EventV { time: b.end + 18 * step, data: clear_seq() }),
                    frags: b.frags,
                    end: b.end + 21 * step,
                },
            }
        } else {
            OutcomeV::Fail { e: BuildErrV::ClockOverflow { line: i } }
        },
        LineClassV::Idle => if b.end + 3 * step <= u64::MAX {
            OutcomeV::Done { b: BuildV { events: b.events, frags: b.frags, end: b.end + 3 * step } }
        } else {
            OutcomeV::Fail { e: BuildErrV::ClockOverflow { line: i } }
        },
        LineClassV::Literal => OutcomeV::Done {
            b: BuildV {
                events: b.events.push(EventV { time: b.end, data: s + crlf_seq() }),
                frags: b.frags.push(seq![ItemV::Literal { text: s }]),
                end: b.end,
            },
        },
    }
}

/// The conversion of the first `n` lines, the clock starting at three
/// steps; the first failing line wins.
pub open spec fn build_prefix(lines: Seq<Seq<char>>, step: int, n: int) -> OutcomeV
    decreases n,
{
    if n <= 0 {
        OutcomeV::Done {
            b: BuildV { events: Seq::empty(), frags: Seq::empty(), end: 3 * step },
        }
    } else {
        match build_prefix(lines, step, n - 1) {
            OutcomeV::Fail { e } => OutcomeV::Fail { e },
            OutcomeV::Done { b } => line_outcome(n - 1, lines[n - 1], b, step),
        }
    }
}

/// The conversion of a whole scenario.
pub open spec fn build_spec(lines: Seq<Seq<char>>, step: int) -> OutcomeV {
    build_prefix(lines, step, lines.len() as int)
}

/// Once a prefix fails, every longer prefix fails the same way.
pub proof fn lemma_fail_propagates(lines: Seq<Seq<char>>, step: int, m: int, m2: int)
    requires
        0 <= m <= m2,
        build_prefix(lines, step, m) is Fail,
    ensures
        build_prefix(lines, step, m2) == build_prefix(lines, step, m),
    decreases m2,
{
    if m2 > m {
        lemma_fail_propagates(lines, step, m, m2 - 1);
    }
}

/// The executable counterpart of [`BuildErrV`].
#[derive(Clone, Copy, Debug, PartialEq, Eq, Structural)]
pub enum BuildError {
    /// A `#timeout:` payload that is not a non-negative decimal number.
    TimeoutDecode { line: usize },
    /// The virtual clock left the range of the millisecond counter.
    ClockOverflow { line: usize },
}

impl View for BuildError {
    type V = BuildErrV;

    open spec fn view(&self) -> BuildErrV {
        match self {
            BuildError::TimeoutDecode { line } => BuildErrV::TimeoutDecode { line: *line as int },
            BuildError::ClockOverflow { line } => BuildErrV::ClockOverflow { line: *line as int },
        }
    }
}

/// Everything one conversion produces: the ordered event stream, the
/// preview rows, and the final clock.
#[derive(Debug)]
pub struct BuildOutput {
    pub events: Vec<Event>,
    pub fragments: Vec<Vec<PreviewItem>>,
    pub state: TimelineState,
}

/// A product of at least one with a non-negative number keeps its size.
proof fn lemma_mul_lower(a: int, c: int)
    requires
        a >= 0,
        c >= 1,
    ensures
        a * c >= a,
    {
    assert(a * c >= a) by (nonlinear_arith)
        requires
            a >= 0,
            c >= 1,
    ;
}

/// Whether the clock at `t` can still take `(len + extra) * step`.
fn fits_typing(t: u64, len: usize, extra: u64, step: u64) -> (ok: bool)
    ensures
        ok <==> t + (len + extra) * step <= u64::MAX,
{
    if step == 0 {
        return true;
    }
    let l = len as u64;
    match l.checked_add(extra) {
        Option::None => {
            proof {
                lemma_mul_lower(len as int + extra as int, step as int);
            }
            false
        },
        Option::Some(sum) => match sum.checked_mul(step) {
            Option::None => {
                false
            },
            Option::Some(p) => t.checked_add(p).is_some(),
        },
    }
}

/// Whether the clock at `t` can still take `k * step`.
fn fits_const(t: u64, k: u64, step: u64) -> (ok: bool)
    ensures
        ok <==> t + k * step <= u64::MAX,
{
    match k.checked_mul(step) {
        Option::None => false,
        Option::Some(p) => t.checked_add(p).is_some(),
    }
}

/// Convert a whole scenario: iterate the lines in order, classify each,
/// and emit its events and preview rows.  Returns exactly what
/// [`build_spec`] describes, or the first error.
pub fn build_timeline(lines: &Vec<String>, cfg: &Config) -> (r: Result<BuildOutput, BuildError>)
    requires
        3 * (cfg.step_ms as int) <= u64::MAX,
    ensures
        match build_spec(lines.deep_view(), cfg.step_ms as int) {
            OutcomeV::Done { b } => r matches Ok(o) && o.events.deep_view() == b.events
                && o.fragments.deep_view() == b.frags && o.state.time_ms == b.end,
            OutcomeV::Fail { e } => r matches Err(err) && err@ == e,
        },
{
    let step = cfg.step_ms;
    let ghost stp = step as int;
    let ghost ls = lines.deep_view();
    let mut st = TimelineState { time_ms: 3 * step };
    let mut events: Vec<Event> = Vec::new();
    let mut frags: Vec<Vec<PreviewItem>> = Vec::new();
    let n = lines.len();
    proof {
        assert(events.deep_view() =~= Seq::<EventV>::empty());
        assert(frags.deep_view() =~= Seq::<Seq<ItemV>>::empty());
    }
    let mut i: usize = 0;
    while i < n
        invariant
            n == lines@.len(),
            ls == lines.deep_view(),
            step == cfg.step_ms,
            stp == step as int,
            3 * stp <= u64::MAX,
            0 <= i <= n,
            build_prefix(ls, stp, i as int) == (OutcomeV::Done {
                b: BuildV {
                    events: events.deep_view(),
                    frags: frags.deep_view(),
                    end: st.time_ms as int,
                },
            }),
        decreases n - i,
    {
        let ghost b_prev = BuildV {
            events: events.deep_view(),
            frags: frags.deep_view(),
            end: st.time_ms as int,
        };
        let line: &String = &lines[i];
        proof {
            assert(ls[i as int] == line@);
        }
        let ghost lv = line@;
        let k = classify(i, line.as_str());
        match k {
            LineKind::ConfigLine => {
                proof {
                    assert(line_outcome(i as int, lv, b_prev, stp) == (OutcomeV::Done { b: b_prev }));
                }
            },
            LineKind::Comment => {
                proof {
                    assert(line_outcome(i as int, lv, b_prev, stp) == (OutcomeV::Done { b: b_prev }));
                }
            },
            LineKind::Timeout { payload } => {
                match parse_timeout(payload.as_str()) {
                    TimeoutValue::Bad => {
                        proof {
                            assert(classify_spec(i as int, lv) == (LineClassV::Timeout { payload: payload@ }));
                            assert(line_outcome(i as int, lv, b_prev, stp) == (OutcomeV::Fail { e: BuildErrV::TimeoutDecode { line: i as int } }));
                            assert(build_prefix(ls, stp, i as int + 1) is Fail);
                            lemma_fail_propagates(ls, stp, i as int + 1, n as int);
                        }
                        return Err(BuildError::TimeoutDecode { line: i });
                    },
                    TimeoutValue::Big => {
                        proof {
                            lemma_timeout_ms_nonneg(payload@);
                            assert(line_outcome(i as int, lv, b_prev, stp) == (OutcomeV::Fail { e: BuildErrV::ClockOverflow { line: i as int } }));
                            lemma_fail_propagates(ls, stp, i as int + 1, n as int);
                        }
                        return Err(BuildError::ClockOverflow { line: i });
                    },
                    TimeoutValue::Ms(v) => {
                        match st.time_ms.checked_add(v) {
                            Option::Some(tn) => {
                                st.time_ms = tn;
                                proof {
                                    lemma_timeout_ms_nonneg(payload@);
                                    assert(line_outcome(i as int, lv, b_prev, stp) == (OutcomeV::Done {
                                        b: BuildV {
                                            events: b_prev.events,
                                            frags: b_prev.frags,
                                            end: b_prev.end + v,
                                        },
                                    }));
                                }
                            },
                            Option::None => {
                                proof {
                                    lemma_timeout_ms_nonneg(payload@);
                                    assert(line_outcome(i as int, lv, b_prev, stp) == (OutcomeV::Fail { e: BuildErrV::ClockOverflow { line: i as int } }));
                                    lemma_fail_propagates(ls, stp, i as int + 1, n as int);
                                }
                                return Err(BuildError::ClockOverflow { line: i });
                            },
                        }
                    },
                }
            },
            LineKind::Console { label, command } => {
                let clen = command.as_str().unicode_len();
                if !fits_typing(st.time_ms, clen, 7, step) {
                    proof {
                        assert(line_outcome(i as int, lv, b_prev, stp) == (OutcomeV::Fail { e: BuildErrV::ClockOverflow { line: i as int } }));
                        lemma_fail_propagates(ls, stp, i as int + 1, n as int);
                    }
                    return Err(BuildError::ClockOverflow { line: i });
                }
                let frag = echo_console_line(
                    &mut st,
                    step,
                    label.as_str(),
                    command.as_str(),
                    &mut events,
                );
                frags.push(frag);
                proof {
                    assert(frags.deep_view() =~= b_prev.frags.push(
                        seq![
                            ItemV::Prompt { label: label@ },
                            ItemV::Typed { text: command@ },
                        ],
                    ));
                    assert(line_outcome(i as int, lv, b_prev, stp) == (OutcomeV::Done {
                        b: BuildV {
                            events: b_prev.events + console_events(b_prev.end, stp, label@, command@),
                            frags: frags.deep_view(),
                            end: console_end(b_prev.end, stp, command@.len() as int),
                        },
                    }));
                }
            },
            LineKind::Clear => {
                if !fits_const(st.time_ms, 21, step) {
                    proof {
                        assert(line_outcome(i as int, lv, b_prev, stp) == (OutcomeV::Fail { e: BuildErrV::ClockOverflow { line: i as int } }));
                        lemma_fail_propagates(ls, stp, i as int + 1, n as int);
                    }
                    return Err(BuildError::ClockOverflow { line: i });
                }
                clear_terminal(&mut st, step, &mut events);
                proof {
                    assert(line_outcome(i as int, lv, b_prev, stp) == (OutcomeV::Done {
                        b: BuildV {
                            events: b_prev.events.push(
                                EventV { time: b_prev.end + 18 * stp, data: clear_seq() },
                            ),
                            frags: b_prev.frags,
                            end: b_prev.end + 21 * stp,
                        },
                    }));
                }
            },
            LineKind::Idle => {
                if !fits_const(st.time_ms, 3, step) {
                    proof {
                        assert(line_outcome(i as int, lv, b_prev, stp) == (OutcomeV::Fail { e: BuildErrV::ClockOverflow { line: i as int } }));
                        lemma_fail_propagates(ls, stp, i as int + 1, n as int);
                    }
                    return Err(BuildError::ClockOverflow { line: i });
                }
                st.time_ms = st.time_ms + 3 * step;
                proof {
                    assert(line_outcome(i as int, lv, b_prev, stp) == (OutcomeV::Done {
                        b: BuildV { events: b_prev.events, frags: b_prev.frags, end: b_prev.end + 3 * stp },
                    }));
                }
            },
            LineKind::Literal => {
                let mut data = line.clone();
                data.append("\r\n");
                push_event(&mut events, st.time_ms, data);
                let mut frag: Vec<PreviewItem> = Vec::new();
                frag.push(PreviewItem::Literal { text: line.clone() });
                frags.push(frag);
                proof {
                    assert(frag.deep_view() =~= seq![ItemV::Literal { text: lv }]);
                    assert(frags.deep_view() =~= b_prev.frags.push(seq![ItemV::Literal { text: lv }]));
                    assert(line_outcome(i as int, lv, b_prev, stp) == (OutcomeV::Done {
                        b: BuildV {
                            events: b_prev.events.push(EventV { time: b_prev.end, data: lv + crlf_seq() }),
                            frags: frags.deep_view(),
                            end: b_prev.end,
                        },
                    }));
                }
            },
        }
        proof {
            assert(build_prefix(ls, stp, i as int + 1) == (OutcomeV::Done {
                b: BuildV {
                    events: events.deep_view(),
                    frags: frags.deep_view(),
                    end: st.time_ms as int,
                },
            }));
        }
        i = i + 1;
    }
    Ok(BuildOutput { events, fragments: frags, state: st })
}

} // verus!
