//! Wall-clock timestamps for record-keeping, held as plain calendar fields
//! and written as fixed-width ISO-8601 text with a numeric zone offset,
//! `YYYY-MM-DDTHH:MM:SS+HH:MM`.
//!
//! Elapsed-time accounting never uses these values; they only mark when a
//! tracker was created and are echoed to callers and into the snapshot file.
use vstd::prelude::*;

use crate::chars::{digit_char, digit_to_char, digit_val, digit_value, is_digit, is_digit_char,
    lemma_digit_round_trip, string_from_chars};

verus! {

/// A local calendar timestamp with its zone offset.
#[derive(Clone, Copy, Debug, PartialEq, Eq, Structural)]
pub struct WallTime {
    pub year: u16,
    pub month: u8,
    pub day: u8,
    pub hour: u8,
    pub minute: u8,
    pub second: u8,
    /// True when the zone offset is behind UTC.
    pub off_neg: bool,
    pub off_hour: u8,
    pub off_minute: u8,
}

impl WallTime {
    /// Field bounds: a four-digit year and in-range calendar components.
    pub open spec fn wf(self) -> bool {
        &&& 1 <= self.year <= 9999
        &&& 1 <= self.month <= 12
        &&& 1 <= self.day <= 31
        &&& self.hour <= 23
        &&& self.minute <= 59
        &&& self.second <= 59
        &&& self.off_hour <= 23
        &&& self.off_minute <= 59
    }

    pub fn well_formed(&self) -> (r: bool)
        ensures
            r == self.wf(),
    {
        1 <= self.year && self.year <= 9999 && 1 <= self.month && self.month <= 12 && 1 <= self.day
            && self.day <= 31 && self.hour <= 23 && self.minute <= 59 && self.second <= 59
            && self.off_hour <= 23 && self.off_minute <= 59
    }
}

/// `YYYY-MM-DD` for a timestamp.
pub open spec fn date_chars(w: WallTime) -> Seq<char> {
    let y = w.year as u64;
    let mo = w.month as u64;
    let d = w.day as u64;
    seq![
        digit_char(y / 1000),
        digit_char((y / 100) % 10),
        digit_char((y / 10) % 10),
        digit_char(y % 10),
        '-',
        digit_char(mo / 10),
        digit_char(mo % 10),
        '-',
        digit_char(d / 10),
        digit_char(d % 10),
    ]
}

/// `HH:MM:SS` for a timestamp.
pub open spec fn time_chars(w: WallTime) -> Seq<char> {
    let h = w.hour as u64;
    let mi = w.minute as u64;
    let s = w.second as u64;
    seq![
        digit_char(h / 10),
        digit_char(h % 10),
        ':',
        digit_char(mi / 10),
        digit_char(mi % 10),
        ':',
        digit_char(s / 10),
        digit_char(s % 10),
    ]
}

/// The zone offset, `+HH:MM` or `-HH:MM`.
pub open spec fn offset_chars(w: WallTime) -> Seq<char> {
    let oh = w.off_hour as u64;
    let om = w.off_minute as u64;
    seq![
        if w.off_neg {
            '-'
        } else {
            '+'
        },
        digit_char(oh / 10),
        digit_char(oh % 10),
        ':',
        digit_char(om / 10),
        digit_char(om % 10),
    ]
}

/// The full 25-character timestamp text.
pub open spec fn wall_chars(w: WallTime) -> Seq<char> {
    date_chars(w) + seq!['T'] + time_chars(w) + offset_chars(w)
}

/// Two decimal digits starting at `i`, if both characters are digits.
pub open spec fn parse_two(s: Seq<char>, i: int) -> Option<u64> {
    if 0 <= i && i + 2 <= s.len() && is_digit_char(s[i]) && is_digit_char(s[i + 1]) {
        Some((digit_val(s[i]) * 10 + digit_val(s[i + 1])) as u64)
    } else {
        None
    }
}

/// Four decimal digits starting at `i`.
pub open spec fn parse_four(s: Seq<char>, i: int) -> Option<u64> {
    if 0 <= i && i + 4 <= s.len() && is_digit_char(s[i]) && is_digit_char(s[i + 1]) && is_digit_char(
        s[i + 2],
    ) && is_digit_char(s[i + 3]) {
        Some(
            (digit_val(s[i]) * 1000 + digit_val(s[i + 1]) * 100 + digit_val(s[i + 2]) * 10
                + digit_val(s[i + 3])) as u64,
        )
    } else {
        None
    }
}

/// Reads a whole 25-character timestamp; `None` on any mismatch or
/// out-of-range component.
pub open spec fn spec_parse_wall(s: Seq<char>) -> Option<WallTime> {
    if s.len() == 25 && s[4] == '-' && s[7] == '-' && s[10] == 'T' && s[13] == ':' && s[16] == ':'
        && (s[19] == '+' || s[19] == '-') && s[22] == ':' {
        match (
            parse_four(s, 0),
            parse_two(s, 5),
            parse_two(s, 8),
            parse_two(s, 11),
            parse_two(s, 14),
            parse_two(s, 17),
            parse_two(s, 20),
            parse_two(s, 23),
        ) {
            (
                Some(year),
                Some(month),
                Some(day),
                Some(hour),
                Some(minute),
                Some(second),
                Some(off_hour),
                Some(off_minute),
            ) => {
                let w = WallTime {
                    year: year as u16,
                    month: month as u8,
                    day: day as u8,
                    hour: hour as u8,
                    minute: minute as u8,
                    second: second as u8,
                    off_neg: s[19] == '-',
                    off_hour: off_hour as u8,
                    off_minute: off_minute as u8,
                };
                if w.wf() {
                    Some(w)
                } else {
                    None
                }
            },
            _ => None,
        }
    } else {
        None
    }
}

/// Appends two zero-padded decimal digits.
pub fn push_two(out: &mut Vec<char>, n: u64)
    requires
        n < 100,
    ensures
        final(out)@ == old(out)@ + seq![digit_char(n / 10), digit_char(n % 10)],
{
    out.push(digit_to_char(n / 10));
    out.push(digit_to_char(n % 10));
    assert(out@ =~= old(out)@ + seq![digit_char(n / 10), digit_char(n % 10)]);
}

/// Appends four zero-padded decimal digits.
pub fn push_four(out: &mut Vec<char>, n: u64)
    requires
        n < 10000,
    ensures
        final(out)@ == old(out)@ + seq![
            digit_char(n / 1000),
            digit_char((n / 100) % 10),
            digit_char((n / 10) % 10),
            digit_char(n % 10),
        ],
{
    out.push(digit_to_char(n / 1000));
    out.push(digit_to_char((n / 100) % 10));
    out.push(digit_to_char((n / 10) % 10));
    out.push(digit_to_char(n % 10));
    assert(out@ =~= old(out)@ + seq![
        digit_char(n / 1000),
        digit_char((n / 100) % 10),
        digit_char((n / 10) % 10),
        digit_char(n % 10),
    ]);
}

/// Appends the timestamp text of `w`.
pub fn push_wall(out: &mut Vec<char>, w: &WallTime)
    requires
        w.wf(),
    ensures
        final(out)@ == old(out)@ + wall_chars(*w),
{
    push_four(out, w.year as u64);
    out.push('-');
    push_two(out, w.month as u64);
    out.push('-');
    push_two(out, w.day as u64);
    out.push('T');
    push_two(out, w.hour as u64);
    out.push(':');
    push_two(out, w.minute as u64);
    out.push(':');
    push_two(out, w.second as u64);
    out.push(if w.off_neg {
        '-'
    } else {
        '+'
    });
    push_two(out, w.off_hour as u64);
    out.push(':');
    push_two(out, w.off_minute as u64);
    assert(out@ =~= old(out)@ + wall_chars(*w));
}

/// Reads a timestamp out of exactly the whole of `content`.
pub fn parse_wall(content: &Vec<char>) -> (r: Option<WallTime>)
    ensures
        r == spec_parse_wall(content@),
{
    if content.len() != 25 {
        return None;
    }
    if !(content[4] == '-' && content[7] == '-' && content[10] == 'T' && content[13] == ':'
        && content[16] == ':' && (content[19] == '+' || content[19] == '-') && content[22]
        == ':') {
        return None;
    }
    let year = match read_four(content, 0) {
        Some(v) => v,
        None => {
            return None;
        },
    };
    let month = match read_two(content, 5) {
        Some(v) => v,
        None => {
            return None;
        },
    };
    let day = match read_two(content, 8) {
        Some(v) => v,
        None => {
            return None;
        },
    };
    let hour = match read_two(content, 11) {
        Some(v) => v,
        None => {
            return None;
        },
    };
    let minute = match read_two(content, 14) {
        Some(v) => v,
        None => {
            return None;
        },
    };
    let second = match read_two(content, 17) {
        Some(v) => v,
        None => {
            return None;
        },
    };
    let off_hour = match read_two(content, 20) {
        Some(v) => v,
        None => {
            return None;
        },
    };
    let off_minute = match read_two(content, 23) {
        Some(v) => v,
        None => {
            return None;
        },
    };
    let w = WallTime {
        year: year as u16,
        month: month as u8,
        day: day as u8,
        hour: hour as u8,
        minute: minute as u8,
        second: second as u8,
        off_neg: content[19] == '-',
        off_hour: off_hour as u8,
        off_minute: off_minute as u8,
    };
    if w.well_formed() {
        Some(w)
    } else {
        None
    }
}

fn read_two(s: &Vec<char>, i: usize) -> (r: Option<u64>)
    requires
        i + 2 <= s@.len(),
    ensures
        r == parse_two(s@, i as int),
{
    let n = s.len();
    assert(i + 2 <= n);
    if is_digit(s[i]) && is_digit(s[i + 1]) {
        Some(digit_value(s[i]) * 10 + digit_value(s[i + 1]))
    } else {
        None
    }
}

fn read_four(s: &Vec<char>, i: usize) -> (r: Option<u64>)
    requires
        i + 4 <= s@.len(),
    ensures
        r == parse_four(s@, i as int),
{
    let n = s.len();
    assert(i + 4 <= n);
    if is_digit(s[i]) && is_digit(s[i + 1]) && is_digit(s[i + 2]) && is_digit(s[i + 3]) {
        Some(
            digit_value(s[i]) * 1000 + digit_value(s[i + 1]) * 100 + digit_value(s[i + 2]) * 10
                + digit_value(s[i + 3]),
        )
    } else {
        None
    }
}

/// `YYYY-MM-DD`, for exporting a tracker's start date.
pub fn date_string(w: &WallTime) -> (r: String)
    requires
        w.wf(),
    ensures
        r@ == date_chars(*w),
{
    let mut out: Vec<char> = Vec::new();
    push_four(&mut out, w.year as u64);
    out.push('-');
    push_two(&mut out, w.month as u64);
    out.push('-');
    push_two(&mut out, w.day as u64);
    assert(out@ =~= date_chars(*w));
    string_from_chars(&out)
}

/// `HH:MM:SS`, for exporting a tracker's start time of day.
pub fn time_string(w: &WallTime) -> (r: String)
    requires
        w.wf(),
    ensures
        r@ == time_chars(*w),
{
    let mut out: Vec<char> = Vec::new();
    push_two(&mut out, w.hour as u64);
    out.push(':');
    push_two(&mut out, w.minute as u64);
    out.push(':');
    push_two(&mut out, w.second as u64);
    assert(out@ =~= time_chars(*w));
    string_from_chars(&out)
}

proof fn lemma_two_digits_value(n: u64)
    requires
        n < 100,
    ensures
        digit_val(digit_char(n / 10)) * 10 + digit_val(digit_char(n % 10)) == n,
        is_digit_char(digit_char(n / 10)),
        is_digit_char(digit_char(n % 10)),
{
    lemma_digit_round_trip(n / 10);
    lemma_digit_round_trip(n % 10);
    vstd::arithmetic::div_mod::lemma_fundamental_div_mod(n as int, 10);
}

proof fn lemma_four_digits_value(n: u64)
    requires
        n < 10000,
    ensures
        digit_val(digit_char(n / 1000)) * 1000 + digit_val(digit_char((n / 100) % 10)) * 100
            + digit_val(digit_char((n / 10) % 10)) * 10 + digit_val(digit_char(n % 10)) == n,
        is_digit_char(digit_char(n / 1000)),
        is_digit_char(digit_char((n / 100) % 10)),
        is_digit_char(digit_char((n / 10) % 10)),
        is_digit_char(digit_char(n % 10)),
{
    lemma_digit_round_trip(n / 1000);
    lemma_digit_round_trip((n / 100) % 10);
    lemma_digit_round_trip((n / 10) % 10);
    lemma_digit_round_trip(n % 10);
    vstd::arithmetic::div_mod::lemma_fundamental_div_mod(n as int, 10);
    vstd::arithmetic::div_mod::lemma_fundamental_div_mod(n as int / 10, 10);
    vstd::arithmetic::div_mod::lemma_fundamental_div_mod(n as int / 100, 10);
    assert(n as int / 10 / 10 == n as int / 100) by {
        vstd::arithmetic::div_mod::lemma_div_denominator(n as int, 10, 10);
    }
    assert(n as int / 100 / 10 == n as int / 1000) by {
        vstd::arithmetic::div_mod::lemma_div_denominator(n as int, 100, 10);
    }
}

/// Writing a well-formed timestamp and reading it back gives the same value.
pub proof fn lemma_wall_round_trip(w: WallTime)
    requires
        w.wf(),
    ensures
        spec_parse_wall(wall_chars(w)) == Some(w),
{
    let s = wall_chars(w);
    assert(s.len() == 25);
    lemma_four_digits_value(w.year as u64);
    lemma_two_digits_value(w.month as u64);
    lemma_two_digits_value(w.day as u64);
    lemma_two_digits_value(w.hour as u64);
    lemma_two_digits_value(w.minute as u64);
    lemma_two_digits_value(w.second as u64);
    lemma_two_digits_value(w.off_hour as u64);
    lemma_two_digits_value(w.off_minute as u64);
    assert(parse_four(s, 0) == Some(w.year as u64));
    assert(parse_two(s, 5) == Some(w.month as u64));
    assert(parse_two(s, 8) == Some(w.day as u64));
    assert(parse_two(s, 11) == Some(w.hour as u64));
    assert(parse_two(s, 14) == Some(w.minute as u64));
    assert(parse_two(s, 17) == Some(w.second as u64));
    assert(parse_two(s, 20) == Some(w.off_hour as u64));
    assert(parse_two(s, 23) == Some(w.off_minute as u64));
    assert((s[19] == '-') == w.off_neg);
    assert(spec_parse_wall(s) == Some(w));
}

} // verus!
