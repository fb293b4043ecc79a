//! Tests of the serialized asciicast lines and of the SVG preview
//! segments, cross-checked against the asciicast and serde_json crates.

use asciinema_scenario::builder::build_timeline;
use asciinema_scenario::config::Config;
use asciinema_scenario::emit::{event_line, event_lines, header_line};
use asciinema_scenario::event::Event;
use asciinema_scenario::render::{canvas_height, canvas_width, render_rows, SegClass, Segment};

fn ev(time_ms: u64, data: &str) -> Event {
    Event { time_ms, data: data.to_string() }
}

#[test]
fn header_round_trip() {
    let line = header_line(80, 24);
    assert_eq!(line, "{\"version\":2,\"width\":80,\"height\":24}");
    let v: serde_json::Value = serde_json::from_str(&line).unwrap();
    assert_eq!(v["version"].as_u64(), Some(2));
    assert_eq!(v["width"].as_u64(), Some(80));
    assert_eq!(v["height"].as_u64(), Some(24));
}

#[test]
fn header_matches_the_asciicast_crate() {
    let header = asciicast::Header {
        version: 2,
        width: 77,
        height: 20,
        timestamp: None,
        duration: None,
        idle_time_limit: None,
        command: None,
        title: None,
        env: None,
    };
    assert_eq!(header_line(77, 20), serde_json::to_string(&header).unwrap());
}

#[test]
fn event_line_times_and_escaping() {
    assert_eq!(event_line(&ev(300, "hi")), "[0.3,\"o\",\"hi\"]");
    assert_eq!(event_line(&ev(0, "x")), "[0.0,\"o\",\"x\"]");
    assert_eq!(event_line(&ev(2000, "x")), "[2.0,\"o\",\"x\"]");
    assert_eq!(event_line(&ev(2050, "x")), "[2.05,\"o\",\"x\"]");
    assert_eq!(event_line(&ev(123, "x")), "[0.123,\"o\",\"x\"]");
    assert_eq!(event_line(&ev(300, "a\r\n")), "[0.3,\"o\",\"a\\r\\n\"]");
    assert_eq!(event_line(&ev(300, "\x1b[1m")), "[0.3,\"o\",\"\\u001b[1m\"]");
    assert_eq!(event_line(&ev(300, "a\"b\\c")), "[0.3,\"o\",\"a\\\"b\\\\c\"]");
}

#[test]
fn event_line_matches_the_asciicast_crate() {
    let cases: Vec<(u64, &str)> = vec![
        (300, "$ "),
        (2050, "a\r\n"),
        (123, "\x1b[32mlabel\x1b[0m$ "),
        (0, "plain"),
    ];
    for (t, d) in cases {
        let entry = asciicast::Entry {
            time: t as f64 / 1000.0,
            event_type: asciicast::EventType::Output,
            event_data: d.to_string(),
        };
        assert_eq!(event_line(&ev(t, d)), serde_json::to_string(&entry).unwrap());
    }
}

#[test]
fn whole_stream_for_a_small_scenario() {
    let lines: Vec<String> =
        vec!["#! {\"step\":0.1}".to_string(), "$ echo hi".to_string()];
    let out = build_timeline(&lines, &Config::new(100, 77, 20)).unwrap();
    let mut all = vec![header_line(77, 20)];
    all.extend(event_lines(&out.events));
    assert_eq!(all[0], "{\"version\":2,\"width\":77,\"height\":20}");
    assert_eq!(all[1], "[0.4,\"o\",\"$ \"]");
    assert_eq!(all[2], "[0.8,\"o\",\"e\"]");
    assert_eq!(all[3], "[0.9,\"o\",\"c\"]");
    assert_eq!(all[4], "[1.0,\"o\",\"h\"]");
    assert_eq!(all[5], "[1.1,\"o\",\"o\"]");
    assert_eq!(all[6], "[1.2,\"o\",\" \"]");
    assert_eq!(all[7], "[1.3,\"o\",\"h\"]");
    assert_eq!(all[8], "[1.4,\"o\",\"i\"]");
    assert_eq!(all[9], "[1.7,\"o\",\"\\r\\n\"]");
    assert_eq!(all.len(), 10);
    // strictly increasing times
    let times: Vec<u64> = out.events.iter().map(|e| e.time_ms).collect();
    for w in times.windows(2) {
        assert!(w[0] < w[1]);
    }
}

fn seg<'a>(s: &'a Segment) -> (SegClass, &'a str) {
    (s.class, s.text.as_str())
}

#[test]
fn svg_canvas_is_fixed() {
    assert_eq!(canvas_width(), 824);
    assert_eq!(canvas_height(), 623);
    assert_eq!(SegClass::Plain.css_class(), None);
    assert_eq!(SegClass::Highlight.css_class(), Some("fg-15"));
    assert_eq!(SegClass::Green.css_class(), Some("fg-2"));
}

#[test]
fn svg_rows_escape_once() {
    let lines: Vec<String> = vec![
        "a <tag> & 'b'".to_string(),
        "$ x<#y&".to_string(),
        "(nix-shell) $ ok".to_string(),
    ];
    let out = build_timeline(&lines, &Config::new(100, 77, 20)).unwrap();
    let rows = render_rows(&out.fragments);
    assert_eq!(rows.len(), 3);

    // a literal line: one plain segment, entities escaped exactly once
    assert_eq!(rows[0].len(), 1);
    assert_eq!(seg(&rows[0][0]), (SegClass::Plain, "a &lt;tag&gt; &amp; &#x27;b&#x27;"));

    // a marked command: empty prompt, plain head, highlighted tail
    // (marker included), green full copy
    assert_eq!(rows[1].len(), 4);
    assert_eq!(seg(&rows[1][0]), (SegClass::Plain, "$ "));
    assert_eq!(seg(&rows[1][1]), (SegClass::Plain, "x&lt;"));
    assert_eq!(seg(&rows[1][2]), (SegClass::Highlight, "#y&amp;"));
    assert_eq!(seg(&rows[1][3]), (SegClass::Green, "x&lt;#y&amp;"));

    // a labelled prompt: green label, plain dollar, plain command
    assert_eq!(rows[2].len(), 3);
    assert_eq!(seg(&rows[2][0]), (SegClass::Green, "(nix-shell) "));
    assert_eq!(seg(&rows[2][1]), (SegClass::Plain, "$ "));
    assert_eq!(seg(&rows[2][2]), (SegClass::Plain, "ok"));
}
