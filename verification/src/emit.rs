//! The asciicast v2 output lines, produced verbatim: the header object on
//! the first line, then one three-element JSON array per event, with the
//! virtual time printed as decimal seconds and the payload JSON-escaped.

use vstd::prelude::*;

use crate::event::{Event, EventV};
use crate::text::{chars_to_string, push_str_chars};

verus! {

/// The decimal digit characters.
pub open spec fn digit_char(d: int) -> char {
    if d == 0 {
        '0'
    } else if d == 1 {
        '1'
    } else if d == 2 {
        '2'
    } else if d == 3 {
        '3'
    } else if d == 4 {
        '4'
    } else if d == 5 {
        '5'
    } else if d == 6 {
        '6'
    } else if d == 7 {
        '7'
    } else if d == 8 {
        '8'
    } else {
        '9'
    }
}

/// The decimal digits of a non-negative number, most significant first.
pub open spec fn dec_digits(n: int) -> Seq<char>
    decreases n,
{
    if n < 10 {
        seq![digit_char(n)]
    } else {
        dec_digits(n / 10).push(digit_char(n % 10))
    }
}

/// The lowercase hexadecimal digit characters.
pub open spec fn hex_digit(d: int) -> char {
    if d < 10 {
        digit_char(d)
    } else if d == 10 {
        'a'
    } else if d == 11 {
        'b'
    } else if d == 12 {
        'c'
    } else if d == 13 {
        'd'
    } else if d == 14 {
        'e'
    } else {
        'f'
    }
}

/// What one character becomes inside a JSON string: quote and backslash
/// escaped, the named control characters short-escaped, every other
/// control character written `\u00..`, everything else itself.
pub open spec fn json_escape_char(c: char) -> Seq<char> {
    if c == '"' {
        "\\\""@
    } else if c == '\\' {
        "\\\\"@
    } else if c == '\u{8}' {
        "\\b"@
    } else if c == '\u{c}' {
        "\\f"@
    } else if c == '\n' {
        "\\n"@
    } else if c == '\r' {
        "\\r"@
    } else if c == '\t' {
        "\\t"@
    } else if (c as u32) < 32 {
        "\\u00"@ + seq![hex_digit((c as u32) as int / 16), hex_digit((c as u32) as int % 16)]
    } else {
        seq![c]
    }
}

/// JSON escaping of a whole string body.
pub open spec fn json_escape(s: Seq<char>) -> Seq<char>
    decreases s.len(),
{
    if s.len() == 0 {
        Seq::empty()
    } else {
        json_escape(s.drop_last()) + json_escape_char(s.last())
    }
}

/// Milliseconds printed as decimal seconds: the whole seconds, a point,
/// and the fraction with trailing zeros trimmed (`.0` when the fraction
/// is zero, as a JSON number of a recording time is written).
pub open spec fn fmt_ms(t: int) -> Seq<char> {
    let secs = t / 1000;
    let frac = t % 1000;
    if frac == 0 {
        dec_digits(secs) + ".0"@
    } else if frac % 100 == 0 {
        dec_digits(secs) + "."@ + seq![digit_char(frac / 100)]
    } else if frac % 10 == 0 {
        dec_digits(secs) + "."@ + seq![digit_char(frac / 100), digit_char((frac / 10) % 10)]
    } else {
        dec_digits(secs) + "."@ + seq![
            digit_char(frac / 100),
            digit_char((frac / 10) % 10),
            digit_char(frac % 10),
        ]
    }
}

/// The asciicast v2 header line for a terminal of the given size.
pub open spec fn header_line_seq(w: int, h: int) -> Seq<char> {
    "{\"version\":2,\"width\":"@ + dec_digits(w) + ",\"height\":"@ + dec_digits(h) + "}"@
}

/// The asciicast v2 line of one output event.
pub open spec fn event_line_seq(ev: EventV) -> Seq<char> {
    "["@ + fmt_ms(ev.time) + ",\"o\",\""@ + json_escape(ev.data) + "\"]"@
}

/// One decimal digit, executably.
fn digit_char_of(d: u64) -> (c: char)
    requires
        d < 10,
    ensures
        c == digit_char(d as int),
{
    match d {
        0u64 => '0',
        1u64 => '1',
        2u64 => '2',
        3u64 => '3',
        4u64 => '4',
        5u64 => '5',
        6u64 => '6',
        7u64 => '7',
        8u64 => '8',
        _ => '9',
    }
}

/// One lowercase hexadecimal digit, executably.
fn hex_digit_of(d: u32) -> (c: char)
    requires
        d < 16,
    ensures
        c == hex_digit(d as int),
{
    match d {
        0u32 => '0',
        1u32 => '1',
        2u32 => '2',
        3u32 => '3',
        4u32 => '4',
        5u32 => '5',
        6u32 => '6',
        7u32 => '7',
        8u32 => '8',
        9u32 => '9',
        10u32 => 'a',
        11u32 => 'b',
        12u32 => 'c',
        13u32 => 'd',
        14u32 => 'e',
        _ => 'f',
    }
}

/// Append the decimal digits of `n`.
fn push_dec(out: &mut Vec<char>, n: u64)
    ensures
        final(out)@ == old(out)@ + dec_digits(n as int),
    decreases n,
{
    if n < 10 {
        out.push(digit_char_of(n));
        proof {
            assert(old(out)@.push(digit_char(n as int)) =~= old(out)@ + dec_digits(n as int));
        }
    } else {
        push_dec(out, n / 10);
        out.push(digit_char_of(n % 10));
        proof {
            assert((old(out)@ + dec_digits(n as int / 10)).push(digit_char(n as int % 10)) =~= old(
                out,
            )@ + dec_digits(n as int));
        }
    }
}

/// Append the JSON escaping of `s`.
fn push_json_escaped(out: &mut Vec<char>, s: &str)
    ensures
        final(out)@ == old(out)@ + json_escape(s@),
{
    let n = s.unicode_len();
    let mut i: usize = 0;
    proof {
        assert(old(out)@ + json_escape(s@.take(0)) =~= old(out)@);
    }
    while i < n
        invariant
            n == s@.len(),
            0 <= i <= n,
            out@ == old(out)@ + json_escape(s@.take(i as int)),
        decreases n - i,
    {
        let c = s.get_char(i);
        if c == '"' {
            push_str_chars(out, "\\\"");
        } else if c == '\\' {
            push_str_chars(out, "\\\\");
        } else if c == '\u{8}' {
            push_str_chars(out, "\\b");
        } else if c == '\u{c}' {
            push_str_chars(out, "\\f");
        } else if c == '\n' {
            push_str_chars(out, "\\n");
        } else if c == '\r' {
            push_str_chars(out, "\\r");
        } else if c == '\t' {
            push_str_chars(out, "\\t");
        } else {
            let v = c as u32;
            if v < 32 {
                push_str_chars(out, "\\u00");
                out.push(hex_digit_of(v / 16));
                out.push(hex_digit_of(v % 16));
            } else {
                out.push(c);
            }
        }
        proof {
            assert(s@.take(i as int + 1).drop_last() =~= s@.take(i as int));
            assert(s@.take(i as int + 1).last() == s@[i as int]);
            assert(out@ =~= old(out)@ + json_escape(s@.take(i as int + 1)));
        }
        i = i + 1;
    }
    proof {
        assert(s@.take(n as int) =~= s@);
    }
}

/// Append the decimal-seconds rendering of `t` milliseconds.
fn push_ms(out: &mut Vec<char>, t: u64)
    ensures
        final(out)@ == old(out)@ + fmt_ms(t as int),
{
    let secs = t / 1000;
    let frac = t % 1000;
    push_dec(out, secs);
    if frac == 0 {
        push_str_chars(out, ".0");
    } else {
        push_str_chars(out, ".");
        out.push(digit_char_of(frac / 100));
        if frac % 100 != 0 {
            out.push(digit_char_of((frac / 10) % 10));
            if frac % 10 != 0 {
                out.push(digit_char_of(frac % 10));
            }
        }
    }
    proof {
        assert(out@ =~= old(out)@ + fmt_ms(t as int));
    }
}

/// The asciicast v2 header line: `{"version":2,"width":W,"height":H}`.
pub fn header_line(width: u32, height: u32) -> (r: String)
    ensures
        r@ == header_line_seq(width as int, height as int),
{
    let mut out: Vec<char> = Vec::new();
    push_str_chars(&mut out, "{\"version\":2,\"width\":");
    push_dec(&mut out, width as u64);
    push_str_chars(&mut out, ",\"height\":");
    push_dec(&mut out, height as u64);
    push_str_chars(&mut out, "}");
    proof {
        assert(out@ =~= header_line_seq(width as int, height as int));
    }
    chars_to_string(&out)
}

/// The asciicast v2 line of one event: `[T,"o","DATA"]`.
pub fn event_line(e: &Event) -> (r: String)
    ensures
        r@ == event_line_seq(e@),
{
    let mut out: Vec<char> = Vec::new();
    push_str_chars(&mut out, "[");
    push_ms(&mut out, e.time_ms);
    push_str_chars(&mut out, ",\"o\",\"");
    push_json_escaped(&mut out, e.data.as_str());
    push_str_chars(&mut out, "\"]");
    proof {
        assert(out@ =~= event_line_seq(e@));
    }
    chars_to_string(&out)
}

/// The asciicast v2 lines of a whole event stream, in order.
pub fn event_lines(events: &Vec<Event>) -> (r: Vec<String>)
    ensures
        r.deep_view() =~= events.deep_view().map_values(|ev: EventV| event_line_seq(ev)),
{
    let ghost evs = events.deep_view();
    let ghost want = evs.map_values(|ev: EventV| event_line_seq(ev));
    let mut r: Vec<String> = Vec::new();
    let mut i: usize = 0;
    let n = events.len();
    while i < n
        invariant
            n == events@.len(),
            evs == events.deep_view(),
            want == evs.map_values(|ev: EventV| event_line_seq(ev)),
            0 <= i <= n,
            r.deep_view() =~= want.take(i as int),
        decreases n - i,
    {
        let line = event_line(&events[i]);
        let ghost pre = r.deep_view();
        r.push(line);
        proof {
            assert(events[i as int]@ == evs[i as int]);
            assert(r.deep_view() =~= pre.push(line@));
            assert(r.deep_view() =~~= want.take(i as int + 1));
        }
        i = i + 1;
    }
    proof {
        assert(want.take(n as int) =~= want);
    }
    r
}

} // verus!
