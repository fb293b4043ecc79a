//! The line classifier: which directive a raw scenario line represents,
//! decided by prefix in a fixed precedence order, and the decoding of a
//! timeout directive's decimal payload into milliseconds.

use vstd::prelude::*;

use crate::text::{blank, has_prefix, is_blank, is_prefix, is_space_char};

verus! {

/// The classification of one raw line, in the precedence order of the
/// classifier: configuration marker (first line only), timeout directive,
/// comment, console command (bare or labelled), clear-screen, idle,
/// literal output.
pub ghost enum LineClassV {
    ConfigLine,
    Timeout { payload: Seq<char> },
    Comment,
    Console { label: Seq<char>, command: Seq<char> },
    Clear,
    Idle,
    Literal,
}

/// The label a `(nix-shell) $ ` console line carries.
pub open spec fn nix_label() -> Seq<char> {
    "(nix-shell) "@
}

/// Classify one raw line; first match wins.
pub open spec fn classify_spec(index: int, s: Seq<char>) -> LineClassV {
    if index == 0 && is_prefix("#! "@, s) {
        LineClassV::ConfigLine
    } else if is_prefix("#timeout:"@, s) {
        LineClassV::Timeout { payload: s.skip(9) }
    } else if is_prefix("#"@, s) {
        LineClassV::Comment
    } else if is_prefix("$ "@, s) {
        LineClassV::Console { label: Seq::empty(), command: s.skip(2) }
    } else if is_prefix("(nix-shell) $ "@, s) {
        LineClassV::Console { label: nix_label(), command: s.skip(14) }
    } else if is_prefix("--"@, s) {
        LineClassV::Clear
    } else if is_blank(s) {
        LineClassV::Idle
    } else {
        LineClassV::Literal
    }
}

/// The executable counterpart of [`LineClassV`].
#[derive(Clone, Debug)]
pub enum LineKind {
    ConfigLine,
    Timeout { payload: String },
    Comment,
    Console { label: String, command: String },
    Clear,
    Idle,
    Literal,
}

impl View for LineKind {
    type V = LineClassV;

    open spec fn view(&self) -> LineClassV {
        match self {
            LineKind::ConfigLine => LineClassV::ConfigLine,
            LineKind::Timeout { payload } => LineClassV::Timeout { payload: payload@ },
            LineKind::Console { label, command } => LineClassV::Console {
                label: label@,
                command: command@,
            },
            LineKind::Comment => LineClassV::Comment,
            LineKind::Clear => LineClassV::Clear,
            LineKind::Idle => LineClassV::Idle,
            LineKind::Literal => LineClassV::Literal,
        }
    }
}

/// Classify a raw line by its prefix.
pub fn classify(index: usize, line: &str) -> (k: LineKind)
    ensures
        k@ == classify_spec(index as int, line@),
{
    let n = line.unicode_len();
    if index == 0 && has_prefix(line, "#! ") {
        LineKind::ConfigLine
    } else if has_prefix(line, "#timeout:") {
        proof {
            reveal_strlit("#timeout:");
        }
        let payload = line.substring_char(9, n).to_owned();
        proof {
            assert(payload@ =~= line@.skip(9));
        }
        LineKind::Timeout { payload }
    } else if has_prefix(line, "#") {
        LineKind::Comment
    } else if has_prefix(line, "$ ") {
        proof {
            reveal_strlit("$ ");
        }
        let command = line.substring_char(2, n).to_owned();
        proof {
            assert(command@ =~= line@.skip(2));
        }
        LineKind::Console { label: String::new(), command }
    } else if has_prefix(line, "(nix-shell) $ ") {
        proof {
            reveal_strlit("(nix-shell) $ ");
        }
        let command = line.substring_char(14, n).to_owned();
        proof {
            assert(command@ =~= line@.skip(14));
        }
        LineKind::Console { label: "(nix-shell) ".to_owned(), command }
    } else if has_prefix(line, "--") {
        LineKind::Clear
    } else if blank(line) {
        LineKind::Idle
    } else {
        LineKind::Literal
    }
}

/// The value of a decimal digit; `-1` for any other character.
pub open spec fn digit_val(c: char) -> int {
    if c == '0' {
        0
    } else if c == '1' {
        1
    } else if c == '2' {
        2
    } else if c == '3' {
        3
    } else if c == '4' {
        4
    } else if c == '5' {
        5
    } else if c == '6' {
        6
    } else if c == '7' {
        7
    } else if c == '8' {
        8
    } else if c == '9' {
        9
    } else {
        -1
    }
}

pub open spec fn is_digit(c: char) -> bool {
    digit_val(c) >= 0
}

pub open spec fn all_digits(s: Seq<char>) -> bool {
    forall|i: int| 0 <= i < s.len() ==> is_digit(#[trigger] s[i])
}

/// The integer a digit string denotes, most significant digit first.
pub open spec fn digits_val(s: Seq<char>) -> int
    decreases s.len(),
{
    if s.len() == 0 {
        0
    } else {
        digits_val(s.drop_last()) * 10 + digit_val(s.last())
    }
}

/// Index of the first non-whitespace character; the length when none.
pub open spec fn first_nonspace(s: Seq<char>) -> int
    decreases s.len(),
{
    if s.len() == 0 {
        0
    } else if is_space_char(s[0]) {
        1 + first_nonspace(s.drop_first())
    } else {
        0
    }
}

/// One past the last non-whitespace character; zero when none.
pub open spec fn end_nonspace(s: Seq<char>) -> int
    decreases s.len(),
{
    if s.len() == 0 {
        0
    } else if is_space_char(s.last()) {
        end_nonspace(s.drop_last())
    } else {
        s.len() as int
    }
}

/// The line with leading and trailing whitespace removed.
pub open spec fn trimmed(s: Seq<char>) -> Seq<char> {
    if first_nonspace(s) < end_nonspace(s) {
        s.subrange(first_nonspace(s), end_nonspace(s))
    } else {
        Seq::empty()
    }
}

/// Index of the first occurrence of `c`; the length when absent.
pub open spec fn find_char(s: Seq<char>, c: char) -> int
    decreases s.len(),
{
    if s.len() == 0 {
        0
    } else if s[0] == c {
        0
    } else {
        1 + find_char(s.drop_first(), c)
    }
}

/// The digits before the decimal point (the whole string when none).
pub open spec fn int_part(t: Seq<char>) -> Seq<char> {
    t.take(find_char(t, '.'))
}

/// The digits after the decimal point; empty when there is none.
pub open spec fn frac_part(t: Seq<char>) -> Seq<char> {
    if find_char(t, '.') < t.len() {
        t.skip(find_char(t, '.') + 1)
    } else {
        Seq::empty()
    }
}

/// A non-negative decimal number: digits around at most one point, with at
/// least one digit in all.
pub open spec fn valid_number(t: Seq<char>) -> bool {
    all_digits(int_part(t)) && all_digits(frac_part(t)) && int_part(t).len() + frac_part(t).len()
        >= 1
}

/// The milliseconds the first three fractional digits contribute.
pub open spec fn frac_ms(f: Seq<char>) -> int {
    (if f.len() > 0 {
        digit_val(f[0]) * 100
    } else {
        0
    }) + (if f.len() > 1 {
        digit_val(f[1]) * 10
    } else {
        0
    }) + (if f.len() > 2 {
        digit_val(f[2])
    } else {
        0
    })
}

/// What a timeout directive's payload denotes, in milliseconds: the
/// trimmed payload read as a non-negative decimal number of seconds, at
/// millisecond resolution (digits beyond the third fractional place are
/// ignored); `None` when it is not such a number.
pub open spec fn timeout_ms(payload: Seq<char>) -> Option<int> {
    let t = trimmed(payload);
    if valid_number(t) {
        Some(digits_val(int_part(t)) * 1000 + frac_ms(frac_part(t)))
    } else {
        None
    }
}

/// A decoded timeout is never negative.
pub proof fn lemma_timeout_ms_nonneg(payload: Seq<char>)
    requires
        timeout_ms(payload) is Some,
    ensures
        0 <= timeout_ms(payload)->0,
{
    let t = trimmed(payload);
    lemma_digits_val_nonneg(int_part(t));
}

/// The outcome of decoding a timeout payload: not a number, a number too
/// large for the clock, or a value in milliseconds.
#[derive(Clone, Copy, Debug, PartialEq, Eq, Structural)]
pub enum TimeoutValue {
    Bad,
    Big,
    Ms(u64),
}

proof fn lemma_first_nonspace_at(s: Seq<char>, k: int)
    requires
        0 <= k <= s.len(),
        forall|j: int| 0 <= j < k ==> is_space_char(#[trigger] s[j]),
        k == s.len() || !is_space_char(s[k]),
    ensures
        first_nonspace(s) == k,
    decreases k,
{
    if k == 0 {
    } else {
        lemma_first_nonspace_at(s.drop_first(), k - 1);
    }
}

proof fn lemma_end_nonspace_at(s: Seq<char>, k: int)
    requires
        0 <= k <= s.len(),
        forall|j: int| k <= j < s.len() ==> is_space_char(#[trigger] s[j]),
        k == 0 || !is_space_char(s[k - 1]),
    ensures
        end_nonspace(s) == k,
    decreases s.len(),
{
    if k == s.len() {
    } else {
        assert(is_space_char(s.last()));
        lemma_end_nonspace_at(s.drop_last(), k);
    }
}

proof fn lemma_end_nonspace_le(s: Seq<char>)
    ensures
        0 <= end_nonspace(s) <= s.len(),
    decreases s.len(),
{
    if s.len() == 0 {
    } else if is_space_char(s.last()) {
        lemma_end_nonspace_le(s.drop_last());
    }
}

pub(crate) proof fn lemma_find_char_at(s: Seq<char>, c: char, k: int)
    requires
        0 <= k <= s.len(),
        forall|j: int| 0 <= j < k ==> #[trigger] s[j] != c,
        k == s.len() || s[k] == c,
    ensures
        find_char(s, c) == k,
    decreases k,
{
    if k == 0 {
    } else {
        lemma_find_char_at(s.drop_first(), c, k - 1);
    }
}

proof fn lemma_digits_val_nonneg(s: Seq<char>)
    requires
        all_digits(s),
    ensures
        digits_val(s) >= 0,
    decreases s.len(),
{
    if s.len() == 0 {
    } else {
        assert(all_digits(s.drop_last()));
        lemma_digits_val_nonneg(s.drop_last());
    }
}

/// Extending a digit string by one digit multiplies its value by ten.
proof fn lemma_digits_val_step(t: Seq<char>, m: int)
    requires
        0 <= m < t.len(),
    ensures
        digits_val(t.take(m + 1)) == digits_val(t.take(m)) * 10 + digit_val(t[m]),
{
    assert(t.take(m + 1).drop_last() =~= t.take(m));
    assert(t.take(m + 1).last() == t[m]);
}

/// Executable whitespace test for one character.
fn space_char(c: char) -> (r: bool)
    ensures
        r == is_space_char(c),
{
    c == ' ' || c == '\t' || c == '\r' || c == '\n' || c == '\x0b' || c == '\x0c'
}

/// The value of a decimal digit, executably.
fn digit_of(c: char) -> (d: Option<u64>)
    ensures
        is_digit(c) ==> d == Some(digit_val(c) as u64),
        !is_digit(c) ==> d is None,
{
    match c {
        '0' => Some(0u64),
        '1' => Some(1u64),
        '2' => Some(2u64),
        '3' => Some(3u64),
        '4' => Some(4u64),
        '5' => Some(5u64),
        '6' => Some(6u64),
        '7' => Some(7u64),
        '8' => Some(8u64),
        '9' => Some(9u64),
        _ => None,
    }
}

/// Decode a timeout payload into milliseconds.
pub fn parse_timeout(payload: &str) -> (r: TimeoutValue)
    ensures
        match timeout_ms(payload@) {
            Option::None => r is Bad,
            Option::Some(v) => if v <= u64::MAX {
                r == TimeoutValue::Ms(v as u64)
            } else {
                r is Big
            },
        },
{
    let ghost s = payload@;
    let n = payload.unicode_len();

    // Trim leading and trailing whitespace.
    let mut lo: usize = 0;
    while lo < n && space_char(payload.get_char(lo))
        invariant
            n == s.len(),
            s == payload@,
            0 <= lo <= n,
            forall|j: int| 0 <= j < lo ==> is_space_char(#[trigger] s[j]),
        decreases n - lo,
    {
        lo = lo + 1;
    }
    proof {
        lemma_first_nonspace_at(s, lo as int);
    }
    if lo == n {
        proof {
            lemma_end_nonspace_le(s);
            assert(trimmed(s) =~= Seq::<char>::empty());
            assert(int_part(trimmed(s)) =~= Seq::<char>::empty());
            assert(frac_part(trimmed(s)) =~= Seq::<char>::empty());
        }
        return TimeoutValue::Bad;
    }
    let mut hi: usize = n;
    while hi > lo && space_char(payload.get_char(hi - 1))
        invariant
            n == s.len(),
            s == payload@,
            lo < n,
            lo <= hi <= n,
            forall|j: int| hi <= j < n ==> is_space_char(#[trigger] s[j]),
            !is_space_char(s[lo as int]),
        decreases hi,
    {
        hi = hi - 1;
    }
    proof {
        assert(hi > lo);
        lemma_end_nonspace_at(s, hi as int);
    }
    let ghost t = trimmed(s);
    proof {
        assert(t =~= s.subrange(lo as int, hi as int));
    }

    // Find the decimal point within the trimmed region.
    let mut dot: usize = lo;
    while dot < hi && payload.get_char(dot) != '.'
        invariant
            n == s.len(),
            s == payload@,
            lo <= dot <= hi <= n,
            forall|j: int| lo <= j < dot ==> #[trigger] s[j] != '.',
        decreases hi - dot,
    {
        dot = dot + 1;
    }
    proof {
        assert(forall|j: int| 0 <= j < dot - lo ==> #[trigger] t[j] != '.');
        lemma_find_char_at(t, '.', dot as int - lo as int);
        assert(int_part(t) =~= s.subrange(lo as int, dot as int));
    }
    let ghost ip = int_part(t);

    // The integer part: digits, accumulated with overflow detection.
    let mut j = lo;
    let mut intval: u64 = 0;
    let mut big = false;
    while j < dot
        invariant
            n == s.len(),
            s == payload@,
            lo <= j <= dot <= n,
            t == trimmed(s),
            ip == int_part(t),
            ip =~= s.subrange(lo as int, dot as int),
            all_digits(ip.take(j as int - lo as int)),
            !big ==> intval == digits_val(ip.take(j as int - lo as int)),
            big ==> digits_val(ip.take(j as int - lo as int)) > u64::MAX,
        decreases dot - j,
    {
        let c = payload.get_char(j);
        let ghost m = j as int - lo as int;
        proof {
            assert(ip[m] == s[j as int]);
        }
        match digit_of(c) {
            Option::None => {
                proof {
                    assert(!is_digit(ip[m]));
                    assert(!all_digits(ip));
                }
                return TimeoutValue::Bad;
            },
            Option::Some(d) => {
                proof {
                    lemma_digits_val_step(ip, m);
                    assert(ip.take(m + 1).drop_last() =~= ip.take(m));
                }
                if !big {
                    match intval.checked_mul(10) {
                        Option::Some(v10) => {
                            match v10.checked_add(d) {
                                Option::Some(v) => {
                                    intval = v;
                                },
                                Option::None => {
                                    big = true;
                                },
                            }
                        },
                        Option::None => {
                            big = true;
                        },
                    }
                }
                proof {
                    if big {
                        lemma_digits_val_nonneg(ip.take(m));
                        assert(digits_val(ip.take(m + 1)) > u64::MAX);
                    }
                    assert(all_digits(ip.take(m + 1)));
                }
            },
        }
        j = j + 1;
    }
    proof {
        assert(ip.take(dot as int - lo as int) =~= ip);
        assert(all_digits(ip));
    }

    // The fractional part: digits, the first three giving milliseconds.
    let ghost fp = frac_part(t);
    let fstart: usize = if dot < hi {
        dot + 1
    } else {
        dot
    };
    proof {
        if dot < hi {
            assert(fp =~= s.subrange(dot as int + 1, hi as int));
        } else {
            assert(fp =~= s.subrange(fstart as int, hi as int));
        }
    }
    let mut k = fstart;
    let mut fval: u64 = 0;
    while k < hi
        invariant
            n == s.len(),
            s == payload@,
            lo <= fstart <= k <= hi <= n,
            t == trimmed(s),
            fp == frac_part(t),
            fp =~= s.subrange(fstart as int, hi as int),
            all_digits(fp.take(k as int - fstart as int)),
            fval == frac_ms(fp.take(k as int - fstart as int)),
            fval <= 999,
        decreases hi - k,
    {
        let c = payload.get_char(k);
        let ghost m = k as int - fstart as int;
        proof {
            assert(fp[m] == s[k as int]);
        }
        match digit_of(c) {
            Option::None => {
                proof {
                    assert(!is_digit(fp[m]));
                    assert(!all_digits(fp));
                }
                return TimeoutValue::Bad;
            },
            Option::Some(d) => {
                if k == fstart {
                    fval = fval + d * 100;
                } else if k == fstart + 1 {
                    fval = fval + d * 10;
                } else if k == fstart + 2 {
                    fval = fval + d;
                }
                proof {
                    assert(all_digits(fp.take(m + 1)));
                    assert(forall|x: int|
                        0 <= x < m ==> #[trigger] fp.take(m + 1)[x] == fp.take(m)[x]);
                    assert(fval == frac_ms(fp.take(m + 1)));
                }
            },
        }
        k = k + 1;
    }
    proof {
        assert(fp.take(hi as int - fstart as int) =~= fp);
        assert(all_digits(fp));
    }

    // At least one digit in all.
    if dot == lo && fstart == hi {
        proof {
            assert(ip.len() + fp.len() == 0);
        }
        return TimeoutValue::Bad;
    }
    proof {
        assert(valid_number(t));
        lemma_digits_val_nonneg(ip);
    }

    if big {
        return TimeoutValue::Big;
    }
    match intval.checked_mul(1000) {
        Option::Some(v1000) => {
            match v1000.checked_add(fval) {
                Option::Some(v) => TimeoutValue::Ms(v),
                Option::None => TimeoutValue::Big,
            }
        },
        Option::None => TimeoutValue::Big,
    }
}

} // verus!
