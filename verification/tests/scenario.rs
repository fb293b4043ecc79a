//! End-to-end tests of the scenario conversion: classification, timing,
//! event payloads, errors.

use asciinema_scenario::builder::{build_timeline, BuildError, BuildOutput};
use asciinema_scenario::classify::{classify, parse_timeout, LineKind, TimeoutValue};
use asciinema_scenario::config::{default_height, default_step_ms, default_width, Config};

fn cfg() -> Config {
    Config::new(100, 77, 20)
}

fn lines(v: &[&str]) -> Vec<String> {
    v.iter().map(|s| s.to_string()).collect()
}

fn build(v: &[&str]) -> BuildOutput {
    build_timeline(&lines(v), &cfg()).unwrap()
}

#[test]
fn defaults_match_the_header_defaults() {
    assert_eq!(default_width(), 77);
    assert_eq!(default_height(), 20);
    assert_eq!(default_step_ms(), 100);
    let c = Config::default();
    assert_eq!(c.step_ms, 100);
    assert_eq!(c.width, 77);
    assert_eq!(c.height, 20);
}

#[test]
fn classification_precedence() {
    assert!(matches!(classify(0, "#! {\"step\":0.1}"), LineKind::ConfigLine));
    // the configuration marker counts only on the first line
    assert!(matches!(classify(3, "#! {\"step\":0.1}"), LineKind::Comment));
    assert!(matches!(classify(1, "#timeout:2.5"), LineKind::Timeout { .. }));
    assert!(matches!(classify(1, "# a note"), LineKind::Comment));
    assert!(matches!(classify(1, "$ ls"), LineKind::Console { .. }));
    assert!(matches!(classify(1, "(nix-shell) $ ls"), LineKind::Console { .. }));
    assert!(matches!(classify(1, "--"), LineKind::Clear));
    assert!(matches!(classify(1, "   "), LineKind::Idle));
    assert!(matches!(classify(1, ""), LineKind::Idle));
    assert!(matches!(classify(1, "plain output"), LineKind::Literal));
}

#[test]
fn console_line_fields() {
    match classify(1, "$ echo hi") {
        LineKind::Console { label, command } => {
            assert_eq!(label, "");
            assert_eq!(command, "echo hi");
        },
        _ => panic!("not a console line"),
    }
    match classify(1, "(nix-shell) $ make") {
        LineKind::Console { label, command } => {
            assert_eq!(label, "(nix-shell) ");
            assert_eq!(command, "make");
        },
        _ => panic!("not a console line"),
    }
}

#[test]
fn timeout_payload_decoding() {
    assert_eq!(parse_timeout("2.5"), TimeoutValue::Ms(2500));
    assert_eq!(parse_timeout(" 2.5 "), TimeoutValue::Ms(2500));
    assert_eq!(parse_timeout("10"), TimeoutValue::Ms(10000));
    assert_eq!(parse_timeout("0.123"), TimeoutValue::Ms(123));
    assert_eq!(parse_timeout("0.1239"), TimeoutValue::Ms(123));
    assert_eq!(parse_timeout("3."), TimeoutValue::Ms(3000));
    assert_eq!(parse_timeout(".5"), TimeoutValue::Ms(500));
    assert_eq!(parse_timeout(""), TimeoutValue::Bad);
    assert_eq!(parse_timeout("."), TimeoutValue::Bad);
    assert_eq!(parse_timeout("abc"), TimeoutValue::Bad);
    assert_eq!(parse_timeout("1.2.3"), TimeoutValue::Bad);
    assert_eq!(parse_timeout("-1"), TimeoutValue::Bad);
    assert_eq!(parse_timeout("99999999999999999999999999"), TimeoutValue::Big);
}

#[test]
fn timeout_advances_and_emits_nothing() {
    let with = build(&["#timeout:2.5", "x"]);
    let without = build(&["x"]);
    assert_eq!(with.events.len(), 1);
    assert_eq!(without.events.len(), 1);
    assert_eq!(without.events[0].time_ms, 300);
    assert_eq!(with.events[0].time_ms, 300 + 2500);
    assert_eq!(with.events[0].data, without.events[0].data);
}

#[test]
fn comment_and_blank_lines() {
    let out = build(&["# ignored", "", "hi"]);
    // the comment adds nothing; the blank line adds three steps
    assert_eq!(out.events.len(), 1);
    assert_eq!(out.events[0].time_ms, 300 + 300);
    assert_eq!(out.events[0].data, "hi\r\n");
    assert_eq!(out.fragments.len(), 1);
}

#[test]
fn clear_screen_event() {
    let out = build(&["--"]);
    assert_eq!(out.events.len(), 1);
    assert_eq!(out.events[0].time_ms, 300 + 18 * 100);
    assert_eq!(out.events[0].data, "\r\x1b[2J\r\x1b[H");
    assert_eq!(out.state.time_ms, 300 + 21 * 100);
    assert!(out.fragments.is_empty());
}

#[test]
fn typing_without_marker() {
    let out = build(&["$ abc"]);
    // prompt, three characters, newline
    assert_eq!(out.events.len(), 5);
    assert_eq!(out.events[0].time_ms, 400);
    assert_eq!(out.events[0].data, "$ ");
    assert_eq!(out.events[1].time_ms, 800);
    assert_eq!(out.events[1].data, "a");
    assert_eq!(out.events[2].time_ms, 900);
    assert_eq!(out.events[2].data, "b");
    assert_eq!(out.events[3].time_ms, 1000);
    assert_eq!(out.events[3].data, "c");
    assert_eq!(out.events[4].time_ms, 1300);
    assert_eq!(out.events[4].data, "\r\n");
    assert!(out.events.iter().all(|e| e.data != "\x1b[1m" && e.data != "\x1b[0m"));
    // the typing phase spans (length + 3) steps
    assert_eq!(out.state.time_ms, 300 + (3 + 7) * 100);
}

#[test]
fn typing_with_marker() {
    let out = build(&["$ a#b"]);
    let datas: Vec<&str> = out.events.iter().map(|e| e.data.as_str()).collect();
    assert_eq!(datas, vec!["$ ", "a", "\x1b[1m", "#", "b", "\x1b[0m", "\r\n"]);
    // bold-on at the same instant as the marker, just before it
    assert_eq!(out.events[2].time_ms, out.events[3].time_ms);
    // exactly one bold-off, after the last character, before the newline
    assert_eq!(out.events[5].time_ms, out.events[4].time_ms);
    assert_eq!(out.events[6].data, "\r\n");
}

#[test]
fn labelled_prompt_payload() {
    let out = build(&["(nix-shell) $ x"]);
    assert_eq!(out.events[0].data, "\x1b[32m(nix-shell) \x1b[0m$ ");
}

#[test]
fn clock_is_nondecreasing_end_to_end() {
    let out = build(&[
        "#! {\"step\":0.1}",
        "# comment",
        "$ echo hi",
        "#timeout:1.5",
        "--",
        "",
        "literal",
        "(nix-shell) $ a#b",
    ]);
    let mut last = 0u64;
    assert!(out.events[0].time_ms >= 300);
    for e in &out.events {
        assert!(e.time_ms >= last);
        last = e.time_ms;
    }
    assert!(out.state.time_ms >= last);
}

#[test]
fn timeout_decode_error_is_fatal() {
    let r = build_timeline(&lines(&["$ ok", "#timeout:oops"]), &cfg());
    assert_eq!(r.unwrap_err(), BuildError::TimeoutDecode { line: 1 });
}

#[test]
fn clock_overflow_is_reported() {
    let big = Config::new(u64::MAX / 4, 80, 24);
    let r = build_timeline(&lines(&[""]), &big);
    assert_eq!(r.unwrap_err(), BuildError::ClockOverflow { line: 0 });
}

#[test]
fn literal_line_is_immediate() {
    let out = build(&["first", "second"]);
    // literal lines do not advance the clock
    assert_eq!(out.events[0].time_ms, 300);
    assert_eq!(out.events[1].time_ms, 300);
    assert_eq!(out.events[0].data, "first\r\n");
    assert_eq!(out.events[1].data, "second\r\n");
    assert_eq!(out.state.time_ms, 300);
}
