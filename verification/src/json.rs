//! The snapshot file text: one JSON object holding the running pointer and
//! the tracker map, written compactly and read with interleaving
//! whitespace allowed, so a hand-edited file still loads.
//!
//! Writing renders fields in a fixed order and omits the optional ones
//! (`description` and the two adjustment logs) when empty; reading accepts
//! them present or absent, in that same order, and rejects everything else
//! with an error instead of panicking.  String values escape only `"` and
//! `\`; reading also accepts `\n`, `\t` and `\r` escapes.
use vstd::prelude::*;

use crate::chars::{dec_chars, dec_val, is_ws_char, is_digit_char, lemma_subrange_concat};
use crate::durtext::{digit_run_end, dur_chars, spec_parse_duration, unit_mult};
use crate::snapshot::{RunStampModel, SnapModel};
use crate::tracker::TrackerModel;
use crate::wall::{spec_parse_wall, wall_chars, WallTime};

verus! {

// ----- what the writer produces -----
/// The escape of one character inside a string value.
pub open spec fn esc_char(c: char) -> Seq<char> {
    if c == '"' {
        seq!['\\', '"']
    } else if c == '\\' {
        seq!['\\', '\\']
    } else {
        seq![c]
    }
}

/// The escaped body of a string value.
pub open spec fn esc_str(s: Seq<char>) -> Seq<char>
    decreases s.len(),
{
    if s.len() == 0 {
        Seq::empty()
    } else {
        esc_char(s[0]) + esc_str(s.drop_first())
    }
}

/// A quoted, escaped string value.
pub open spec fn jstr(s: Seq<char>) -> Seq<char> {
    seq!['"'] + esc_str(s) + seq!['"']
}

/// The items of a duration array, comma-separated.
pub open spec fn dur_items_json(ds: Seq<u64>) -> Seq<char>
    decreases ds.len(),
{
    if ds.len() == 0 {
        Seq::empty()
    } else if ds.len() == 1 {
        jstr(dur_chars(ds[0]))
    } else {
        jstr(dur_chars(ds[0])) + seq![','] + dur_items_json(ds.drop_first())
    }
}

/// A duration array value.
pub open spec fn dur_array_json(ds: Seq<u64>) -> Seq<char> {
    seq!['['] + dur_items_json(ds) + seq![']']
}

/// The optional description field, with its trailing comma.
#[verifier::opaque]
pub open spec fn desc_part_json(d: Option<Seq<char>>) -> Seq<char> {
    match d {
        Some(dsc) => jstr("description"@) + seq![':'] + jstr(dsc) + seq![','],
        None => Seq::<char>::empty(),
    }
}

/// The mandatory duration field.
#[verifier::opaque]
pub open spec fn dur_part_json(acc: u64) -> Seq<char> {
    jstr("duration"@) + seq![':'] + jstr(dur_chars(acc))
}

/// The positive adjustment log, when nonempty.
#[verifier::opaque]
pub open spec fn pos_part_json(pos: Seq<u64>) -> Seq<char> {
    if pos.len() == 0 {
        Seq::<char>::empty()
    } else {
        seq![','] + jstr("positiveAdjustments"@) + seq![':'] + dur_array_json(pos)
    }
}

/// The negative adjustment log, when nonempty.
#[verifier::opaque]
pub open spec fn neg_part_json(neg: Seq<u64>) -> Seq<char> {
    if neg.len() == 0 {
        Seq::<char>::empty()
    } else {
        seq![','] + jstr("negativeAdjustments"@) + seq![':'] + dur_array_json(neg)
    }
}

/// The mandatory creation stamp field.
#[verifier::opaque]
pub open spec fn start_part_json(w: WallTime) -> Seq<char> {
    seq![','] + jstr("startTime"@) + seq![':'] + jstr(wall_chars(w))
}

/// The body of one tracker object: optional description, the banked
/// duration, the adjustment logs when nonempty, and the creation stamp.
#[verifier::opaque]
pub open spec fn tracker_body_json(t: TrackerModel) -> Seq<char> {
    desc_part_json(t.description) + dur_part_json(t.acc_nanos) + pos_part_json(t.pos)
        + neg_part_json(t.neg) + start_part_json(t.start_time)
}

/// One tracker object.
pub open spec fn tracker_json(t: TrackerModel) -> Seq<char> {
    seq!['{'] + tracker_body_json(t) + seq!['}']
}

/// The key/tracker pairs of the tracker map, comma-separated.
pub open spec fn pairs_json(es: Seq<(Seq<char>, TrackerModel)>) -> Seq<char>
    decreases es.len(),
{
    if es.len() == 0 {
        Seq::empty()
    } else if es.len() == 1 {
        jstr(es[0].0) + seq![':'] + tracker_json(es[0].1)
    } else {
        jstr(es[0].0) + seq![':'] + tracker_json(es[0].1) + seq![','] + pairs_json(
            es.drop_first(),
        )
    }
}

/// The tracker map object.
pub open spec fn trackers_json(es: Seq<(Seq<char>, TrackerModel)>) -> Seq<char> {
    seq!['{'] + pairs_json(es) + seq!['}']
}

/// The running pointer: `null`, or an object with its key and the
/// wall-clock equivalent of its start.
pub open spec fn running_json(r: Option<RunStampModel>) -> Seq<char> {
    match r {
        None => seq!['n', 'u', 'l', 'l'],
        Some(rs) => seq!['{'] + jstr("key"@) + seq![':'] + jstr(rs.key) + seq![','] + jstr(
            "startTime"@,
        ) + seq![':'] + dec_chars(rs.wall_start) + seq!['}'],
    }
}

/// The whole snapshot file text.
pub open spec fn snapshot_json(m: SnapModel) -> Seq<char> {
    seq!['{'] + jstr("running"@) + seq![':'] + running_json(m.running) + seq![','] + jstr(
        "trackers"@,
    ) + seq![':'] + trackers_json(m.trackers) + seq!['}']
}

// ----- what the reader accepts -----
/// The first position at or after `i` holding no whitespace.
pub open spec fn skip_ws(s: Seq<char>, i: int) -> int
    decreases s.len() - i,
{
    if i < 0 || i >= s.len() {
        i
    } else if is_ws_char(s[i]) {
        skip_ws(s, i + 1)
    } else {
        i
    }
}

pub proof fn lemma_skip_ws(s: Seq<char>, i: int)
    requires
        0 <= i <= s.len(),
    ensures
        i <= skip_ws(s, i) <= s.len(),
        skip_ws(s, i) == s.len() || !is_ws_char(s[skip_ws(s, i)]),
    decreases s.len() - i,
{
    if i < s.len() && is_ws_char(s[i]) {
        lemma_skip_ws(s, i + 1);
    }
}

/// Expects exactly the literal `lit` at `i`.
pub open spec fn parse_lit(s: Seq<char>, i: int, lit: Seq<char>) -> Option<int> {
    if 0 <= i && i + lit.len() <= s.len() && s.subrange(i, i + lit.len() as int) == lit {
        Some(i + lit.len() as int)
    } else {
        None
    }
}

/// Skips whitespace, then expects the single character `c`.
pub open spec fn expect_char(s: Seq<char>, i: int, c: char) -> Option<int> {
    let a = skip_ws(s, i);
    if 0 <= a < s.len() && s[a] == c {
        Some(a + 1)
    } else {
        None
    }
}

/// The body of a string value, after its opening quote: plain characters
/// until the closing quote, with `\"`, `\\`, `\n`, `\t`, `\r` escapes.
pub open spec fn parse_jbody(s: Seq<char>, i: int, acc: Seq<char>) -> Option<(Seq<char>, int)>
    decreases s.len() - i,
    when 0 <= i
{
    if i >= s.len() {
        None
    } else if s[i] == '"' {
        Some((acc, i + 1))
    } else if s[i] == '\\' {
        if i + 1 >= s.len() {
            None
        } else {
            let c = s[i + 1];
            if c == '"' || c == '\\' {
                parse_jbody(s, i + 2, acc.push(c))
            } else if c == 'n' {
                parse_jbody(s, i + 2, acc.push('\n'))
            } else if c == 't' {
                parse_jbody(s, i + 2, acc.push('\t'))
            } else if c == 'r' {
                parse_jbody(s, i + 2, acc.push('\r'))
            } else {
                None
            }
        }
    } else {
        parse_jbody(s, i + 1, acc.push(s[i]))
    }
}

pub proof fn lemma_jbody_bounds(s: Seq<char>, i: int, acc: Seq<char>)
    requires
        0 <= i <= s.len(),
        parse_jbody(s, i, acc) is Some,
    ensures
        i < parse_jbody(s, i, acc)->Some_0.1 <= s.len(),
    decreases s.len() - i,
{
    if i < s.len() && s[i] != '"' {
        if s[i] == '\\' {
            let c = s[i + 1];
            if c == '"' || c == '\\' {
                lemma_jbody_bounds(s, i + 2, acc.push(c));
            } else if c == 'n' {
                lemma_jbody_bounds(s, i + 2, acc.push('\n'));
            } else if c == 't' {
                lemma_jbody_bounds(s, i + 2, acc.push('\t'));
            } else {
                lemma_jbody_bounds(s, i + 2, acc.push('\r'));
            }
        } else {
            lemma_jbody_bounds(s, i + 1, acc.push(s[i]));
        }
    }
}

/// A whole string value: whitespace, a quote, the body.
pub open spec fn parse_jstring(s: Seq<char>, i: int) -> Option<(Seq<char>, int)> {
    let a = skip_ws(s, i);
    if 0 <= a < s.len() && s[a] == '"' {
        parse_jbody(s, a + 1, Seq::empty())
    } else {
        None
    }
}

pub proof fn lemma_jstring_bounds(s: Seq<char>, i: int)
    requires
        0 <= i <= s.len(),
        parse_jstring(s, i) is Some,
    ensures
        i + 2 <= parse_jstring(s, i)->Some_0.1 <= s.len(),
{
    lemma_skip_ws(s, i);
    let a = skip_ws(s, i);
    lemma_jbody_bounds(s, a + 1, Seq::empty());
}

/// A bare decimal number fitting `u64`.
pub open spec fn parse_u64(s: Seq<char>, i: int) -> Option<(u64, int)> {
    let a = skip_ws(s, i);
    if !(0 <= a <= s.len()) {
        None
    } else {
        let j = digit_run_end(s, a);
        if j == a {
            None
        } else if dec_val(s.subrange(a, j)) > u64::MAX {
            None
        } else {
            Some((dec_val(s.subrange(a, j)) as u64, j))
        }
    }
}

pub proof fn lemma_parse_u64_bounds(s: Seq<char>, i: int)
    requires
        0 <= i <= s.len(),
        parse_u64(s, i) is Some,
    ensures
        i < parse_u64(s, i)->Some_0.1 <= s.len(),
{
    lemma_skip_ws(s, i);
    crate::durtext::lemma_digit_run_end(s, skip_ws(s, i));
}

/// A string value read as a duration.
pub open spec fn parse_dur_string(s: Seq<char>, i: int) -> Option<(u64, int)> {
    match parse_jstring(s, i) {
        Some((content, j)) => match spec_parse_duration(content) {
            Some(n) => Some((n, j)),
            None => None,
        },
        None => None,
    }
}

/// A string value read as a timestamp.
pub open spec fn parse_wall_string(s: Seq<char>, i: int) -> Option<(WallTime, int)> {
    match parse_jstring(s, i) {
        Some((content, j)) => match spec_parse_wall(content) {
            Some(w) => Some((w, j)),
            None => None,
        },
        None => None,
    }
}

/// After a duration array's first item: `, item` repeated, then `]`.
pub open spec fn parse_dur_items(s: Seq<char>, i: int, acc: Seq<u64>) -> Option<(Seq<u64>, int)>
    decreases s.len() - i,
    when 0 <= i <= s.len()
    via parse_dur_items_dec
{
    let a = skip_ws(s, i);
    if a >= s.len() {
        None
    } else if s[a] == ']' {
        Some((acc, a + 1))
    } else if s[a] == ',' {
        match parse_dur_string(s, a + 1) {
            Some((n, j)) => parse_dur_items(s, j, acc.push(n)),
            None => None,
        }
    } else {
        None
    }
}

#[via_fn]
proof fn parse_dur_items_dec(s: Seq<char>, i: int, acc: Seq<u64>) {
    lemma_skip_ws(s, i);
    let a = skip_ws(s, i);
    if a < s.len() && s[a] == ',' && parse_dur_string(s, a + 1) is Some {
        lemma_jstring_bounds(s, a + 1);
    }
}

/// A duration array value.
pub open spec fn parse_dur_array(s: Seq<char>, i: int) -> Option<(Seq<u64>, int)> {
    match expect_char(s, i, '[') {
        Some(a) => {
            let b = skip_ws(s, a);
            if b < s.len() && s[b] == ']' {
                Some((Seq::empty(), b + 1))
            } else {
                match parse_dur_string(s, a) {
                    Some((n, j)) => parse_dur_items(s, j, seq![n]),
                    None => None,
                }
            }
        },
        None => None,
    }
}

/// Whitespace, a field name, whitespace, a colon.
pub open spec fn parse_named_start(s: Seq<char>, i: int) -> Option<(Seq<char>, int)> {
    match parse_jstring(s, i) {
        Some((name, p)) => match expect_char(s, p, ':') {
            Some(q) => Some((name, q)),
            None => None,
        },
        None => None,
    }
}

/// The tail of a tracker object from its `startTime` field.
pub open spec fn parse_tracker_final(
    s: Seq<char>,
    name: Seq<char>,
    q: int,
    desc: Option<Seq<char>>,
    acc: u64,
    pos: Seq<u64>,
    neg: Seq<u64>,
) -> Option<(TrackerModel, int)> {
    if name != "startTime"@ {
        None
    } else {
        match parse_wall_string(s, q) {
            Some((w, p)) => match expect_char(s, p, '}') {
                Some(r) => Some(
                    (
                        TrackerModel {
                            description: desc,
                            acc_nanos: acc,
                            pos,
                            neg,
                            start_time: w,
                        },
                        r,
                    ),
                ),
                None => None,
            },
            None => None,
        }
    }
}

/// The tail of a tracker object from its optional
/// `negativeAdjustments` field.
pub open spec fn parse_tracker_after_pos(
    s: Seq<char>,
    name: Seq<char>,
    q: int,
    desc: Option<Seq<char>>,
    acc: u64,
    pos: Seq<u64>,
) -> Option<(TrackerModel, int)> {
    if name == "negativeAdjustments"@ {
        match parse_dur_array(s, q) {
            Some((neg, p)) => match expect_char(s, p, ',') {
                Some(r) => match parse_named_start(s, r) {
                    Some((n2, q2)) => parse_tracker_final(s, n2, q2, desc, acc, pos, neg),
                    None => None,
                },
                None => None,
            },
            None => None,
        }
    } else {
        parse_tracker_final(s, name, q, desc, acc, pos, Seq::empty())
    }
}

/// The tail of a tracker object from its mandatory `duration` field.
pub open spec fn parse_tracker_after_desc(
    s: Seq<char>,
    name: Seq<char>,
    q: int,
    desc: Option<Seq<char>>,
) -> Option<(TrackerModel, int)> {
    if name != "duration"@ {
        None
    } else {
        match parse_dur_string(s, q) {
            Some((acc, p)) => match expect_char(s, p, ',') {
                Some(r) => match parse_named_start(s, r) {
                    Some((n2, q2)) => {
                        if n2 == "positiveAdjustments"@ {
                            match parse_dur_array(s, q2) {
                                Some((pos, p2)) => match expect_char(s, p2, ',') {
                                    Some(r2) => match parse_named_start(s, r2) {
                                        Some((n3, q3)) => parse_tracker_after_pos(
                                            s,
                                            n3,
                                            q3,
                                            desc,
                                            acc,
                                            pos,
                                        ),
                                        None => None,
                                    },
                                    None => None,
                                },
                                None => None,
                            }
                        } else {
                            parse_tracker_after_pos(s, n2, q2, desc, acc, Seq::empty())
                        }
                    },
                    None => None,
                },
                None => None,
            },
            None => None,
        }
    }
}

/// One tracker object.
pub open spec fn parse_tracker(s: Seq<char>, i: int) -> Option<(TrackerModel, int)> {
    match expect_char(s, i, '{') {
        Some(a) => match parse_named_start(s, a) {
            Some((n1, q1)) => {
                if n1 == "description"@ {
                    match parse_jstring(s, q1) {
                        Some((dsc, p)) => match expect_char(s, p, ',') {
                            Some(r) => match parse_named_start(s, r) {
                                Some((n2, q2)) => parse_tracker_after_desc(
                                    s,
                                    n2,
                                    q2,
                                    Some(dsc),
                                ),
                                None => None,
                            },
                            None => None,
                        },
                        None => None,
                    }
                } else {
                    parse_tracker_after_desc(s, n1, q1, None)
                }
            },
            None => None,
        },
        None => None,
    }
}

/// One `"key": { ... }` pair.
pub open spec fn parse_pair(s: Seq<char>, i: int) -> Option<((Seq<char>, TrackerModel), int)> {
    match parse_named_start(s, i) {
        Some((k, q)) => match parse_tracker(s, q) {
            Some((t, p)) => Some(((k, t), p)),
            None => None,
        },
        None => None,
    }
}

pub proof fn lemma_pair_bounds(s: Seq<char>, i: int)
    requires
        0 <= i <= s.len(),
        parse_pair(s, i) is Some,
    ensures
        i < parse_pair(s, i)->Some_0.1 <= s.len(),
{
    lemma_jstring_bounds(s, i);
    let p = parse_jstring(s, i)->Some_0.1;
    lemma_skip_ws(s, p);
    let q = parse_named_start(s, i)->Some_0.1;
    assert(i < q <= s.len());
    lemma_tracker_bounds(s, q);
}

pub proof fn lemma_tracker_bounds(s: Seq<char>, i: int)
    requires
        0 <= i <= s.len(),
        parse_tracker(s, i) is Some,
    ensures
        i < parse_tracker(s, i)->Some_0.1 <= s.len(),
{
    lemma_tracker_bounds_help(s, i);
}

proof fn lemma_tracker_bounds_help(s: Seq<char>, i: int)
    requires
        0 <= i <= s.len(),
        parse_tracker(s, i) is Some,
    ensures
        i < parse_tracker(s, i)->Some_0.1 <= s.len(),
{
    lemma_skip_ws(s, i);
    let a = expect_char(s, i, '{')->Some_0;
    assert(i < a <= s.len());
    lemma_jstring_bounds(s, a);
    let p1 = parse_jstring(s, a)->Some_0.1;
    lemma_skip_ws(s, p1);
    let q1 = parse_named_start(s, a)->Some_0.1;
    assert(a < q1 <= s.len());
    let n1 = parse_named_start(s, a)->Some_0.0;
    if n1 == "description"@ {
        lemma_jstring_bounds(s, q1);
        let p = parse_jstring(s, q1)->Some_0.1;
        lemma_skip_ws(s, p);
        let r = expect_char(s, p, ',')->Some_0;
        lemma_jstring_bounds(s, r);
        let p2 = parse_jstring(s, r)->Some_0.1;
        lemma_skip_ws(s, p2);
        let q2 = parse_named_start(s, r)->Some_0.0;
        lemma_after_desc_bounds(s, parse_named_start(s, r)->Some_0.0, parse_named_start(s, r)->Some_0.1, Some(parse_jstring(s, q1)->Some_0.0), q1);
    } else {
        lemma_after_desc_bounds(s, n1, q1, None, a);
    }
}

proof fn lemma_after_desc_bounds(
    s: Seq<char>,
    name: Seq<char>,
    q: int,
    desc: Option<Seq<char>>,
    lo: int,
)
    requires
        0 <= lo < q <= s.len(),
        parse_tracker_after_desc(s, name, q, desc) is Some,
    ensures
        lo < parse_tracker_after_desc(s, name, q, desc)->Some_0.1 <= s.len(),
{
    lemma_jstring_bounds(s, q);
    let p = parse_jstring(s, q)->Some_0.1;
    lemma_skip_ws(s, p);
    let r = expect_char(s, p, ',')->Some_0;
    lemma_jstring_bounds(s, r);
    let pn = parse_jstring(s, r)->Some_0.1;
    lemma_skip_ws(s, pn);
    let n2 = parse_named_start(s, r)->Some_0.0;
    let q2 = parse_named_start(s, r)->Some_0.1;
    if n2 == "positiveAdjustments"@ {
        lemma_dur_array_bounds(s, q2);
        let p2 = parse_dur_array(s, q2)->Some_0.1;
        lemma_skip_ws(s, p2);
        let r2 = expect_char(s, p2, ',')->Some_0;
        lemma_jstring_bounds(s, r2);
        let pn3 = parse_jstring(s, r2)->Some_0.1;
        lemma_skip_ws(s, pn3);
        lemma_after_pos_bounds(
            s,
            parse_named_start(s, r2)->Some_0.0,
            parse_named_start(s, r2)->Some_0.1,
            q2,
        );
    } else {
        lemma_after_pos_bounds(s, n2, q2, r);
    }
}

proof fn lemma_after_pos_bounds(s: Seq<char>, name: Seq<char>, q: int, lo: int)
    requires
        0 <= lo < q <= s.len(),
        exists|desc: Option<Seq<char>>, acc: u64, pos: Seq<u64>|
            #[trigger] parse_tracker_after_pos(s, name, q, desc, acc, pos) is Some,
    ensures
        forall|desc: Option<Seq<char>>, acc: u64, pos: Seq<u64>|
            #[trigger] parse_tracker_after_pos(s, name, q, desc, acc, pos) is Some ==> lo
                < parse_tracker_after_pos(s, name, q, desc, acc, pos)->Some_0.1 <= s.len(),
{
    assert forall|desc: Option<Seq<char>>, acc: u64, pos: Seq<u64>|
        #[trigger] parse_tracker_after_pos(s, name, q, desc, acc, pos) is Some implies lo
        < parse_tracker_after_pos(s, name, q, desc, acc, pos)->Some_0.1 <= s.len() by {
        if name == "negativeAdjustments"@ {
            lemma_dur_array_bounds(s, q);
            let p = parse_dur_array(s, q)->Some_0.1;
            lemma_skip_ws(s, p);
            let r = expect_char(s, p, ',')->Some_0;
            lemma_jstring_bounds(s, r);
            let pn = parse_jstring(s, r)->Some_0.1;
            lemma_skip_ws(s, pn);
            lemma_final_bounds(
                s,
                parse_named_start(s, r)->Some_0.0,
                parse_named_start(s, r)->Some_0.1,
                q,
            );
        } else {
            lemma_final_bounds(s, name, q, lo);
        }
    }
}

proof fn lemma_final_bounds(s: Seq<char>, name: Seq<char>, q: int, lo: int)
    requires
        0 <= lo < q <= s.len(),
    ensures
        forall|desc: Option<Seq<char>>, acc: u64, pos: Seq<u64>, neg: Seq<u64>|
            #[trigger] parse_tracker_final(s, name, q, desc, acc, pos, neg) is Some ==> lo
                < parse_tracker_final(s, name, q, desc, acc, pos, neg)->Some_0.1 <= s.len(),
{
    assert forall|desc: Option<Seq<char>>, acc: u64, pos: Seq<u64>, neg: Seq<u64>|
        #[trigger] parse_tracker_final(s, name, q, desc, acc, pos, neg) is Some implies lo
        < parse_tracker_final(s, name, q, desc, acc, pos, neg)->Some_0.1 <= s.len() by {
        if parse_tracker_final(s, name, q, desc, acc, pos, neg) is Some {
            lemma_jstring_bounds(s, q);
            let p = parse_jstring(s, q)->Some_0.1;
            lemma_skip_ws(s, p);
        }
    }
}

pub proof fn lemma_dur_array_bounds(s: Seq<char>, i: int)
    requires
        0 <= i <= s.len(),
        parse_dur_array(s, i) is Some,
    ensures
        i < parse_dur_array(s, i)->Some_0.1 <= s.len(),
{
    lemma_skip_ws(s, i);
    let a = expect_char(s, i, '[')->Some_0;
    lemma_skip_ws(s, a);
    let b = skip_ws(s, a);
    if b < s.len() && s[b] == ']' {
    } else {
        lemma_jstring_bounds(s, a);
        let j = parse_dur_string(s, a)->Some_0.1;
        lemma_dur_items_bounds(s, j, seq![parse_dur_string(s, a)->Some_0.0]);
    }
}

pub proof fn lemma_dur_items_bounds(s: Seq<char>, i: int, acc: Seq<u64>)
    requires
        0 <= i <= s.len(),
        parse_dur_items(s, i, acc) is Some,
    ensures
        i < parse_dur_items(s, i, acc)->Some_0.1 <= s.len(),
    decreases s.len() - i,
{
    lemma_skip_ws(s, i);
    let a = skip_ws(s, i);
    if a < s.len() && s[a] == ',' {
        lemma_jstring_bounds(s, a + 1);
        let j = parse_dur_string(s, a + 1)->Some_0.1;
        lemma_dur_items_bounds(s, j, acc.push(parse_dur_string(s, a + 1)->Some_0.0));
    }
}

/// After the tracker map's first pair: `, pair` repeated, then `}`.
pub open spec fn parse_pairs(
    s: Seq<char>,
    i: int,
    acc: Seq<(Seq<char>, TrackerModel)>,
) -> Option<(Seq<(Seq<char>, TrackerModel)>, int)>
    decreases s.len() - i,
    when 0 <= i <= s.len()
    via parse_pairs_dec
{
    let a = skip_ws(s, i);
    if a >= s.len() {
        None
    } else if s[a] == '}' {
        Some((acc, a + 1))
    } else if s[a] == ',' {
        match parse_pair(s, a + 1) {
            Some((kt, j)) => parse_pairs(s, j, acc.push(kt)),
            None => None,
        }
    } else {
        None
    }
}

#[via_fn]
proof fn parse_pairs_dec(s: Seq<char>, i: int, acc: Seq<(Seq<char>, TrackerModel)>) {
    lemma_skip_ws(s, i);
    let a = skip_ws(s, i);
    if a < s.len() && s[a] == ',' && parse_pair(s, a + 1) is Some {
        lemma_pair_bounds(s, a + 1);
    }
}

/// The tracker map object.
pub open spec fn parse_trackers(s: Seq<char>, i: int) -> Option<
    (Seq<(Seq<char>, TrackerModel)>, int),
> {
    match expect_char(s, i, '{') {
        Some(a) => {
            let b = skip_ws(s, a);
            if b < s.len() && s[b] == '}' {
                Some((Seq::empty(), b + 1))
            } else {
                match parse_pair(s, a) {
                    Some((kt, j)) => parse_pairs(s, j, seq![kt]),
                    None => None,
                }
            }
        },
        None => None,
    }
}

/// The running pointer value: `null` or the pointer object.
pub open spec fn parse_running(s: Seq<char>, i: int) -> Option<(Option<RunStampModel>, int)> {
    let a = skip_ws(s, i);
    if !(0 <= a < s.len()) {
        None
    } else if s[a] == 'n' {
        match parse_lit(s, a, seq!['n', 'u', 'l', 'l']) {
            Some(j) => Some((None, j)),
            None => None,
        }
    } else if s[a] == '{' {
        match parse_named_start(s, a + 1) {
            Some((n1, q1)) => {
                if n1 == "key"@ {
                    match parse_jstring(s, q1) {
                        Some((k, p)) => match expect_char(s, p, ',') {
                            Some(r) => match parse_named_start(s, r) {
                                Some((n2, q2)) => {
                                    if n2 == "startTime"@ {
                                        match parse_u64(s, q2) {
                                            Some((w, p2)) => match expect_char(s, p2, '}') {
                                                Some(r2) => Some(
                                                    (
                                                        Some(
                                                            RunStampModel {
                                                                key: k,
                                                                wall_start: w,
                                                            },
                                                        ),
                                                        r2,
                                                    ),
                                                ),
                                                None => None,
                                            },
                                            None => None,
                                        }
                                    } else {
                                        None
                                    }
                                },
                                None => None,
                            },
                            None => None,
                        },
                        None => None,
                    }
                } else {
                    None
                }
            },
            None => None,
        }
    } else {
        None
    }
}

/// The whole snapshot text, shape only: both top fields in order, nothing
/// after the closing brace.
pub open spec fn parse_snapshot_body(s: Seq<char>) -> Option<SnapModel> {
    match expect_char(s, 0, '{') {
        Some(a) => match parse_named_start(s, a) {
            Some((n1, q1)) => {
                if n1 == "running"@ {
                    match parse_running(s, q1) {
                        Some((run, p)) => match expect_char(s, p, ',') {
                            Some(r) => match parse_named_start(s, r) {
                                Some((n2, q2)) => {
                                    if n2 == "trackers"@ {
                                        match parse_trackers(s, q2) {
                                            Some((es, p2)) => match expect_char(s, p2, '}') {
                                                Some(r2) => {
                                                    if skip_ws(s, r2) == s.len() {
                                                        Some(
                                                            SnapModel { running: run, trackers: es },
                                                        )
                                                    } else {
                                                        None
                                                    }
                                                },
                                                None => None,
                                            },
                                            None => None,
                                        }
                                    } else {
                                        None
                                    }
                                },
                                None => None,
                            },
                            None => None,
                        },
                        None => None,
                    }
                } else {
                    None
                }
            },
            None => None,
        },
        None => None,
    }
}

/// The whole snapshot text, with the usability checks: unique keys and a
/// running pointer that names an existing tracker.
pub open spec fn spec_parse_snapshot(s: Seq<char>) -> Option<SnapModel> {
    match parse_snapshot_body(s) {
        Some(m) => if crate::snapshot::snap_wf(m) {
            Some(m)
        } else {
            None
        },
        None => None,
    }
}

// ----- the writer -----
/// Escaping one more character extends the escaped body.
pub proof fn lemma_esc_push(x: Seq<char>, c: char)
    ensures
        esc_str(x.push(c)) == esc_str(x) + esc_char(c),
    decreases x.len(),
{
    if x.len() == 0 {
        assert(x.push(c)[0] == c);
        assert(x.push(c).drop_first() =~= Seq::<char>::empty());
        assert(esc_str(Seq::<char>::empty()) == Seq::<char>::empty());
        assert(esc_str(x.push(c)) == esc_char(c) + esc_str(Seq::<char>::empty()));
        assert(esc_str(x.push(c)) =~= esc_str(x) + esc_char(c));
    } else {
        assert(x.push(c)[0] == x[0]);
        assert(x.push(c).drop_first() =~= x.drop_first().push(c));
        lemma_esc_push(x.drop_first(), c);
        assert(esc_str(x.push(c)) == esc_char(x[0]) + (esc_str(x.drop_first()) + esc_char(c)));
        assert(esc_char(x[0]) + (esc_str(x.drop_first()) + esc_char(c)) =~= (esc_char(x[0])
            + esc_str(x.drop_first())) + esc_char(c));
    }
}

/// Appends a quoted, escaped string value.
pub fn push_jstr(out: &mut Vec<char>, s: &str)
    ensures
        final(out)@ == old(out)@ + jstr(s@),
{
    let v = crate::chars::str_to_chars(s);
    out.push('"');
    let n = v.len();
    let mut i: usize = 0;
    proof {
        assert(esc_str(v@.subrange(0, 0)) =~= Seq::<char>::empty());
        assert(out@ =~= old(out)@ + seq!['"'] + esc_str(v@.subrange(0, 0)));
    }
    while i < n
        invariant
            i <= n,
            n == v@.len(),
            v@ == s@,
            out@ == old(out)@ + seq!['"'] + esc_str(v@.subrange(0, i as int)),
        decreases n - i,
    {
        let c = v[i];
        let ghost pre = v@.subrange(0, i as int);
        if c == '"' {
            out.push('\\');
            out.push('"');
        } else if c == '\\' {
            out.push('\\');
            out.push('\\');
        } else {
            out.push(c);
        }
        proof {
            assert(v@.subrange(0, i + 1 as int) =~= pre.push(c));
            lemma_esc_push(pre, c);
            assert(out@ =~= old(out)@ + seq!['"'] + esc_str(v@.subrange(0, i + 1 as int)));
        }
        i += 1;
    }
    out.push('"');
    proof {
        assert(v@.subrange(0, n as int) =~= v@);
        assert(out@ =~= old(out)@ + jstr(s@));
    }
}

/// One more item extends a rendered duration array.
pub proof fn lemma_items_push(ds: Seq<u64>, n: u64)
    ensures
        dur_items_json(ds.push(n)) == if ds.len() == 0 {
            jstr(dur_chars(n))
        } else {
            dur_items_json(ds) + seq![','] + jstr(dur_chars(n))
        },
    decreases ds.len(),
{
    if ds.len() == 0 {
        assert(ds.push(n) =~= seq![n]);
        assert(ds.push(n)[0] == n);
    } else {
        assert(ds.push(n)[0] == ds[0]);
        assert(ds.push(n).drop_first() =~= ds.drop_first().push(n));
        lemma_items_push(ds.drop_first(), n);
        if ds.len() == 1 {
            assert(ds.drop_first() =~= Seq::<u64>::empty());
            assert(dur_items_json(ds.push(n)) =~= dur_items_json(ds) + seq![','] + jstr(
                dur_chars(n),
            ));
        } else {
            assert(dur_items_json(ds.push(n)) =~= dur_items_json(ds) + seq![','] + jstr(
                dur_chars(n),
            ));
        }
    }
}

/// Appends a duration array value.
pub fn push_dur_array(out: &mut Vec<char>, ds: &Vec<crate::dur::Dur>)
    ensures
        final(out)@ == old(out)@ + dur_array_json(crate::tracker::durs_to_nanos(ds@)),
{
    let ghost dn = crate::tracker::durs_to_nanos(ds@);
    out.push('[');
    let n = ds.len();
    let mut i: usize = 0;
    proof {
        assert(dur_items_json(dn.subrange(0, 0)) =~= Seq::<char>::empty());
        assert(out@ =~= old(out)@ + seq!['['] + dur_items_json(dn.subrange(0, 0)));
    }
    while i < n
        invariant
            i <= n,
            n == ds@.len(),
            dn == crate::tracker::durs_to_nanos(ds@),
            dn.len() == n,
            out@ == old(out)@ + seq!['['] + dur_items_json(dn.subrange(0, i as int)),
        decreases n - i,
    {
        let ghost pre = dn.subrange(0, i as int);
        if i > 0 {
            out.push(',');
        }
        out.push('"');
        crate::durtext::push_duration(out, ds[i].nanos);
        out.push('"');
        proof {
            assert(dn[i as int] == ds@[i as int].nanos);
            assert(dn.subrange(0, i + 1 as int) =~= pre.push(dn[i as int]));
            lemma_items_push(pre, dn[i as int]);
            assert(seq!['"'] + dur_chars(dn[i as int]) + seq!['"'] =~= jstr(
                dur_chars(dn[i as int]),
            )) by {
                lemma_dur_chars_plain(dn[i as int]);
            }
            assert(out@ =~= old(out)@ + seq!['['] + dur_items_json(dn.subrange(0, i + 1 as int)));
        }
        i += 1;
    }
    out.push(']');
    proof {
        assert(dn.subrange(0, n as int) =~= dn);
        assert(out@ =~= old(out)@ + dur_array_json(dn));
    }
}

/// Text that holds neither a quote nor a backslash escapes to itself.
pub proof fn lemma_esc_identity(x: Seq<char>)
    requires
        forall|q: int| 0 <= q < x.len() ==> x[q] != '"' && x[q] != '\\',
    ensures
        esc_str(x) == x,
    decreases x.len(),
{
    if x.len() == 0 {
        assert(esc_str(x) =~= x);
    } else {
        lemma_esc_identity(x.drop_first());
        assert(esc_char(x[0]) =~= seq![x[0]]);
        assert(esc_str(x) =~= x) by {
            assert(esc_str(x) == seq![x[0]] + esc_str(x.drop_first()));
        }
    }
}

/// A duration's canonical text holds no quote and no backslash.
pub proof fn lemma_dur_chars_plain(n: u64)
    ensures
        forall|q: int|
            0 <= q < dur_chars(n).len() ==> dur_chars(n)[q] != '"' && dur_chars(n)[q] != '\\',
        jstr(dur_chars(n)) == seq!['"'] + dur_chars(n) + seq!['"'],
{
    crate::durtext::lemma_parts_ok(n);
    lemma_dur_parts_plain(crate::durtext::dur_parts(n));
    lemma_esc_identity(dur_chars(n));
    assert(jstr(dur_chars(n)) =~= seq!['"'] + dur_chars(n) + seq!['"']);
}

proof fn lemma_dur_parts_plain(ps: Seq<(u64, Seq<char>)>)
    requires
        forall|q: int|
            0 <= q < ps.len() ==> crate::durtext::unit_mult((#[trigger] ps[q]).1) is Some,
    ensures
        forall|q: int|
            0 <= q < crate::durtext::tokens_chars(ps).len()
                ==> crate::durtext::tokens_chars(ps)[q] != '"' && crate::durtext::tokens_chars(
                ps,
            )[q] != '\\',
    decreases ps.len(),
{
    let t = crate::durtext::tokens_chars(ps);
    if ps.len() == 0 {
    } else {
        assert(unit_mult(ps[0].1) is Some);
        lemma_token_plain(ps[0]);
        if ps.len() == 1 {
        } else {
            assert forall|q: int|
                0 <= q < ps.drop_first().len() implies crate::durtext::unit_mult(
                (#[trigger] ps.drop_first()[q]).1,
            ) is Some by {
                assert(ps.drop_first()[q] == ps[q + 1]);
            }
            lemma_dur_parts_plain(ps.drop_first());
            let tok = crate::durtext::token_chars(ps[0]);
            let rest = crate::durtext::tokens_chars(ps.drop_first());
            assert forall|q: int| 0 <= q < t.len() implies t[q] != '"' && t[q] != '\\' by {
                assert(t == tok + seq![' '] + rest);
                if q < tok.len() {
                    assert(t[q] == tok[q]);
                } else if q == tok.len() {
                    assert(t[q] == ' ');
                } else {
                    assert(t[q] == rest[q - tok.len() - 1]);
                }
            }
        }
    }
}

proof fn lemma_token_plain(p: (u64, Seq<char>))
    requires
        crate::durtext::unit_mult(p.1) is Some,
    ensures
        forall|q: int|
            0 <= q < crate::durtext::token_chars(p).len() ==> crate::durtext::token_chars(p)[q]
                != '"' && crate::durtext::token_chars(p)[q] != '\\',
{
    let tok = crate::durtext::token_chars(p);
    let dc = dec_chars(p.0);
    crate::chars::lemma_dec_chars_val(p.0);
    assert forall|q: int| 0 <= q < tok.len() implies tok[q] != '"' && tok[q] != '\\' by {
        if q < dc.len() {
            assert(tok[q] == dc[q]);
            assert(is_digit_char(dc[q]));
            assert(!is_digit_char('"') && !is_digit_char('\\'));
        } else {
            assert(tok[q] == p.1[q - dc.len()]);
            crate::durtext::lemma_unit_token_shape(p.1);
            assert(crate::durtext::is_unit_char(p.1[q - dc.len()]));
            assert(!crate::durtext::is_unit_char('"') && !crate::durtext::is_unit_char('\\'));
        }
    }
}

/// Appends the optional description field.
fn push_desc_part(out: &mut Vec<char>, d: &Option<String>)
    ensures
        final(out)@ == old(out)@ + desc_part_json(
            match d {
                Some(dsc) => Some(dsc@),
                None => None,
            },
        ),
{
    proof {
        reveal(desc_part_json);
    }
    match d {
        Some(dsc) => {
            push_jstr(out, "description");
            out.push(':');
            push_jstr(out, dsc.as_str());
            out.push(',');
            proof {
                assert(out@ =~= old(out)@ + desc_part_json(Some(dsc@)));
            }
        },
        None => {},
    }
}

/// Appends the duration field.
fn push_dur_part(out: &mut Vec<char>, d: crate::dur::Dur)
    ensures
        final(out)@ == old(out)@ + dur_part_json(d.nanos),
{
    proof {
        reveal(dur_part_json);
    }
    push_jstr(out, "duration");
    out.push(':');
    out.push('"');
    crate::durtext::push_duration(out, d.nanos);
    out.push('"');
    proof {
        lemma_dur_chars_plain(d.nanos);
        assert(out@ =~= old(out)@ + dur_part_json(d.nanos));
    }
}

/// Appends the positive adjustment log when nonempty.
fn push_pos_part(out: &mut Vec<char>, v: &Vec<crate::dur::Dur>)
    ensures
        final(out)@ == old(out)@ + pos_part_json(crate::tracker::durs_to_nanos(v@)),
{
    proof {
        reveal(pos_part_json);
        assert(crate::tracker::durs_to_nanos(v@).len() == v@.len());
    }
    if v.len() > 0 {
        out.push(',');
        push_jstr(out, "positiveAdjustments");
        out.push(':');
        push_dur_array(out, v);
        proof {
            assert(out@ =~= old(out)@ + pos_part_json(crate::tracker::durs_to_nanos(v@)));
        }
    }
}

/// Appends the negative adjustment log when nonempty.
fn push_neg_part(out: &mut Vec<char>, v: &Vec<crate::dur::Dur>)
    ensures
        final(out)@ == old(out)@ + neg_part_json(crate::tracker::durs_to_nanos(v@)),
{
    proof {
        reveal(neg_part_json);
        assert(crate::tracker::durs_to_nanos(v@).len() == v@.len());
    }
    if v.len() > 0 {
        out.push(',');
        push_jstr(out, "negativeAdjustments");
        out.push(':');
        push_dur_array(out, v);
        proof {
            assert(out@ =~= old(out)@ + neg_part_json(crate::tracker::durs_to_nanos(v@)));
        }
    }
}

/// Appends the creation stamp field.
fn push_start_part(out: &mut Vec<char>, w: &WallTime)
    requires
        w.wf(),
    ensures
        final(out)@ == old(out)@ + start_part_json(*w),
{
    proof {
        reveal(start_part_json);
    }
    out.push(',');
    push_jstr(out, "startTime");
    out.push(':');
    out.push('"');
    crate::wall::push_wall(out, w);
    out.push('"');
    proof {
        lemma_wall_chars_plain(*w);
        assert(out@ =~= old(out)@ + start_part_json(*w));
    }
}

/// Appends one tracker object.
pub fn push_tracker(out: &mut Vec<char>, t: &crate::tracker::PausedTracker)
    requires
        t@.start_time.wf(),
    ensures
        final(out)@ == old(out)@ + tracker_json(t@),
{
    proof {
        reveal(tracker_body_json);
    }
    out.push('{');
    push_desc_part(out, &t.description);
    push_dur_part(out, t.duration);
    push_pos_part(out, &t.positive_adjustments);
    push_neg_part(out, &t.negative_adjustments);
    push_start_part(out, &t.start_time);
    out.push('}');
    proof {
        assert(out@ =~= old(out)@ + tracker_json(t@));
    }
}

/// A timestamp's text holds no quote and no backslash.
#[verifier::rlimit(100)]
#[verifier::spinoff_prover]
pub proof fn lemma_wall_chars_plain(w: WallTime)
    ensures
        jstr(wall_chars(w)) == seq!['"'] + wall_chars(w) + seq!['"'],
{
    let s = wall_chars(w);
    assert forall|q: int| 0 <= q < s.len() implies s[q] != '"' && s[q] != '\\' by {
        crate::chars::lemma_digit_round_trip(0);
        assert(!is_digit_char('"') && !is_digit_char('\\'));
        assert(s[q] == s[q]);
        if s[q] == '"' || s[q] == '\\' {
            assert(('"' as u32) == 34 && ('\\' as u32) == 92);
            assert(('-' as u32) == 45 && ('+' as u32) == 43 && (':' as u32) == 58 && ('T' as u32)
                == 84);
        }
    }
    lemma_esc_identity(s);
    assert(jstr(s) =~= seq!['"'] + s + seq!['"']);
}

/// One more pair extends the rendered tracker map.
#[verifier::rlimit(100)]
#[verifier::spinoff_prover]
pub proof fn lemma_pairs_push(es: Seq<(Seq<char>, TrackerModel)>, e: (Seq<char>, TrackerModel))
    ensures
        pairs_json(es.push(e)) == if es.len() == 0 {
            jstr(e.0) + seq![':'] + tracker_json(e.1)
        } else {
            pairs_json(es) + seq![','] + jstr(e.0) + seq![':'] + tracker_json(e.1)
        },
    decreases es.len(),
{
    if es.len() == 0 {
        assert(es.push(e) =~= seq![e]);
        assert(es.push(e)[0] == e);
    } else {
        assert(es.push(e)[0] == es[0]);
        assert(es.push(e).drop_first() =~= es.drop_first().push(e));
        lemma_pairs_push(es.drop_first(), e);
        if es.len() == 1 {
            assert(es.drop_first() =~= Seq::<(Seq<char>, TrackerModel)>::empty());
            assert(pairs_json(es.push(e)) =~= pairs_json(es) + seq![','] + jstr(e.0) + seq![':']
                + tracker_json(e.1));
        } else {
            assert(pairs_json(es.push(e)) =~= pairs_json(es) + seq![','] + jstr(e.0) + seq![':']
                + tracker_json(e.1));
        }
    }
}

/// Appends the tracker map object.
pub fn push_trackers(out: &mut Vec<char>, es: &Vec<(String, crate::tracker::PausedTracker)>)
    requires
        forall|q: int| 0 <= q < es@.len() ==> (#[trigger] es@[q]).1@.start_time.wf(),
    ensures
        final(out)@ == old(out)@ + trackers_json(
            Seq::new(es@.len(), |q: int| (es@[q].0@, es@[q].1@)),
        ),
{
    let ghost em = Seq::new(es@.len(), |q: int| (es@[q].0@, es@[q].1@));
    out.push('{');
    let n = es.len();
    let mut i: usize = 0;
    proof {
        assert(pairs_json(em.subrange(0, 0)) =~= Seq::<char>::empty());
        assert(out@ =~= old(out)@ + seq!['{'] + pairs_json(em.subrange(0, 0)));
    }
    while i < n
        invariant
            i <= n,
            n == es@.len(),
            em == Seq::new(es@.len(), |q: int| (es@[q].0@, es@[q].1@)),
            em.len() == n,
            forall|q: int| 0 <= q < es@.len() ==> (#[trigger] es@[q]).1@.start_time.wf(),
            out@ == old(out)@ + seq!['{'] + pairs_json(em.subrange(0, i as int)),
        decreases n - i,
    {
        let ghost pre = em.subrange(0, i as int);
        if i > 0 {
            out.push(',');
        }
        let pair = &es[i];
        push_jstr(out, pair.0.as_str());
        out.push(':');
        push_tracker(out, &pair.1);
        proof {
            assert(em[i as int] == (es@[i as int].0@, es@[i as int].1@));
            assert(em.subrange(0, i + 1 as int) =~= pre.push(em[i as int]));
            lemma_pairs_push(pre, em[i as int]);
            assert(out@ =~= old(out)@ + seq!['{'] + pairs_json(em.subrange(0, i + 1 as int)));
        }
        i += 1;
    }
    out.push('}');
    proof {
        assert(em.subrange(0, n as int) =~= em);
        assert(out@ =~= old(out)@ + trackers_json(em));
    }
}

/// Appends the running pointer value.
pub fn push_running(out: &mut Vec<char>, r: &Option<crate::snapshot::RunStamp>)
    ensures
        final(out)@ == old(out)@ + running_json(
            match r {
                Some(rs) => Some(rs@),
                None => None,
            },
        ),
{
    match r {
        None => {
            out.push('n');
            out.push('u');
            out.push('l');
            out.push('l');
            proof {
                assert(out@ =~= old(out)@ + seq!['n', 'u', 'l', 'l']);
            }
        },
        Some(rs) => {
            out.push('{');
            push_jstr(out, "key");
            out.push(':');
            push_jstr(out, rs.key.as_str());
            out.push(',');
            push_jstr(out, "startTime");
            out.push(':');
            crate::chars::push_u64(out, rs.wall_start);
            out.push('}');
            proof {
                assert(out@ =~= old(out)@ + running_json(Some(rs@)));
            }
        },
    }
}

/// The full snapshot file text for a well-formed snapshot.
pub fn render_snapshot(snap: &crate::snapshot::Snapshot) -> (r: String)
    requires
        crate::snapshot::snap_wf(snap@),
    ensures
        r@ == snapshot_json(snap@),
{
    let mut out: Vec<char> = Vec::new();
    out.push('{');
    push_jstr(&mut out, "running");
    out.push(':');
    push_running(&mut out, &snap.running);
    out.push(',');
    push_jstr(&mut out, "trackers");
    out.push(':');
    proof {
        assert forall|q: int|
            0 <= q < snap.trackers@.len() implies (
        #[trigger] snap.trackers@[q]).1@.start_time.wf() by {
            assert(snap@.trackers[q] == (snap.trackers@[q].0@, snap.trackers@[q].1@));
        }
    }
    push_trackers(&mut out, &snap.trackers);
    out.push('}');
    proof {
        assert(Seq::new(snap.trackers@.len(), |q: int| (snap.trackers@[q].0@, snap.trackers@[q].1@))
            =~= snap@.trackers);
        assert(out@ =~= snapshot_json(snap@));
    }
    crate::chars::string_from_chars(&out)
}

// ----- the reader -----
/// Reading the snapshot text failed: the text is not a snapshot this
/// library wrote or accepts.
#[derive(Clone, Copy, Debug, PartialEq, Eq, Structural)]
pub enum ParseError {
    Malformed,
}

fn skip_ws_at(v: &Vec<char>, i: usize) -> (r: usize)
    requires
        i <= v@.len(),
    ensures
        r as int == skip_ws(v@, i as int),
        i <= r <= v@.len(),
{
    let n = v.len();
    let mut p = i;
    while p < n && crate::chars::is_ws(v[p])
        invariant
            i <= p <= n,
            n == v@.len(),
            skip_ws(v@, i as int) == skip_ws(v@, p as int),
        decreases n - p,
    {
        p += 1;
    }
    p
}

fn expect_char_at(v: &Vec<char>, i: usize, c: char) -> (r: Option<usize>)
    requires
        i <= v@.len(),
    ensures
        match r {
            Some(j) => expect_char(v@, i as int, c) == Some(j as int) && i < j <= v@.len(),
            None => expect_char(v@, i as int, c) is None,
        },
{
    let a = skip_ws_at(v, i);
    if a < v.len() && v[a] == c {
        Some(a + 1)
    } else {
        None
    }
}

fn parse_jstring_at(v: &Vec<char>, i: usize) -> (r: Option<(Vec<char>, usize)>)
    requires
        i <= v@.len(),
    ensures
        match r {
            Some(p) => parse_jstring(v@, i as int) == Some((p.0@, p.1 as int)) && i < p.1
                <= v@.len(),
            None => parse_jstring(v@, i as int) is None,
        },
{
    let a = skip_ws_at(v, i);
    if a >= v.len() || v[a] != '"' {
        return None;
    }
    let mut acc: Vec<char> = Vec::new();
    let mut p = a + 1;
    proof {
        assert(acc@ =~= Seq::<char>::empty());
    }
    loop
        invariant
            i < p <= v@.len(),
            parse_jstring(v@, i as int) == parse_jbody(v@, p as int, acc@),
        decreases v@.len() - p,
    {
        if p >= v.len() {
            return None;
        }
        let c = v[p];
        if c == '"' {
            return Some((acc, p + 1));
        }
        if c == '\\' {
            if p + 1 >= v.len() {
                return None;
            }
            let e = v[p + 1];
            if e == '"' || e == '\\' {
                acc.push(e);
            } else if e == 'n' {
                acc.push('\n');
            } else if e == 't' {
                acc.push('\t');
            } else if e == 'r' {
                acc.push('\r');
            } else {
                return None;
            }
            p += 2;
        } else {
            acc.push(c);
            p += 1;
        }
    }
}

fn parse_u64_at(v: &Vec<char>, i: usize) -> (r: Option<(u64, usize)>)
    requires
        i <= v@.len(),
    ensures
        match r {
            Some(p) => parse_u64(v@, i as int) == Some((p.0, p.1 as int)) && i < p.1 <= v@.len(),
            None => parse_u64(v@, i as int) is None,
        },
{
    let a = skip_ws_at(v, i);
    let (j, val) = crate::durtext::read_number(v, a);
    if j == a {
        return None;
    }
    match val {
        Some(x) => Some((x, j)),
        None => None,
    }
}

fn parse_dur_string_at(v: &Vec<char>, i: usize) -> (r: Option<(u64, usize)>)
    requires
        i <= v@.len(),
    ensures
        match r {
            Some(p) => parse_dur_string(v@, i as int) == Some((p.0, p.1 as int)) && i < p.1
                <= v@.len(),
            None => parse_dur_string(v@, i as int) is None,
        },
{
    match parse_jstring_at(v, i) {
        Some((content, j)) => match crate::durtext::parse_duration(&content) {
            Some(d) => Some((d.nanos, j)),
            None => None,
        },
        None => None,
    }
}

fn parse_wall_string_at(v: &Vec<char>, i: usize) -> (r: Option<(WallTime, usize)>)
    requires
        i <= v@.len(),
    ensures
        match r {
            Some(p) => parse_wall_string(v@, i as int) == Some((p.0, p.1 as int)) && i < p.1
                <= v@.len(),
            None => parse_wall_string(v@, i as int) is None,
        },
{
    match parse_jstring_at(v, i) {
        Some((content, j)) => match crate::wall::parse_wall(&content) {
            Some(w) => Some((w, j)),
            None => None,
        },
        None => None,
    }
}

fn parse_dur_array_at(v: &Vec<char>, i: usize) -> (r: Option<(Vec<crate::dur::Dur>, usize)>)
    requires
        i <= v@.len(),
    ensures
        match r {
            Some(p) => parse_dur_array(v@, i as int) == Some(
                (crate::tracker::durs_to_nanos(p.0@), p.1 as int),
            ) && i < p.1 <= v@.len(),
            None => parse_dur_array(v@, i as int) is None,
        },
{
    let a = match expect_char_at(v, i, '[') {
        Some(a) => a,
        None => {
            return None;
        },
    };
    let b = skip_ws_at(v, a);
    if b < v.len() && v[b] == ']' {
        let out: Vec<crate::dur::Dur> = Vec::new();
        proof {
            assert(crate::tracker::durs_to_nanos(out@) =~= Seq::<u64>::empty());
        }
        return Some((out, b + 1));
    }
    let (first, j0) = match parse_dur_string_at(v, a) {
        Some(p) => p,
        None => {
            return None;
        },
    };
    let mut out: Vec<crate::dur::Dur> = Vec::new();
    out.push(crate::dur::Dur::from_nanos(first));
    let mut p = j0;
    proof {
        assert(crate::tracker::durs_to_nanos(out@) =~= seq![first]);
    }
    loop
        invariant
            i < p <= v@.len(),
            parse_dur_array(v@, i as int) == parse_dur_items(
                v@,
                p as int,
                crate::tracker::durs_to_nanos(out@),
            ),
        decreases v@.len() - p,
    {
        let a2 = skip_ws_at(v, p);
        if a2 >= v.len() {
            return None;
        }
        if v[a2] == ']' {
            return Some((out, a2 + 1));
        }
        if v[a2] != ',' {
            return None;
        }
        let (n2, j2) = match parse_dur_string_at(v, a2 + 1) {
            Some(q) => q,
            None => {
                return None;
            },
        };
        let ghost pre = crate::tracker::durs_to_nanos(out@);
        out.push(crate::dur::Dur::from_nanos(n2));
        proof {
            assert(crate::tracker::durs_to_nanos(out@) =~= pre.push(n2));
        }
        p = j2;
    }
}

fn parse_named_at(v: &Vec<char>, i: usize) -> (r: Option<(Vec<char>, usize)>)
    requires
        i <= v@.len(),
    ensures
        match r {
            Some(p) => parse_named_start(v@, i as int) == Some((p.0@, p.1 as int)) && i < p.1
                <= v@.len(),
            None => parse_named_start(v@, i as int) is None,
        },
{
    match parse_jstring_at(v, i) {
        Some((name, p)) => match expect_char_at(v, p, ':') {
            Some(q) => Some((name, q)),
            None => None,
        },
        None => None,
    }
}

fn parse_tracker_final_at(
    v: &Vec<char>,
    name: &Vec<char>,
    q: usize,
    desc: Option<String>,
    acc: crate::dur::Dur,
    pos: Vec<crate::dur::Dur>,
    neg: Vec<crate::dur::Dur>,
) -> (r: Option<(crate::tracker::PausedTracker, usize)>)
    requires
        q <= v@.len(),
    ensures
        match r {
            Some(p) => parse_tracker_final(
                v@,
                name@,
                q as int,
                match desc {
                    Some(d) => Some(d@),
                    None => None,
                },
                acc.nanos,
                crate::tracker::durs_to_nanos(pos@),
                crate::tracker::durs_to_nanos(neg@),
            ) == Some((p.0@, p.1 as int)) && q < p.1 <= v@.len(),
            None => parse_tracker_final(
                v@,
                name@,
                q as int,
                match desc {
                    Some(d) => Some(d@),
                    None => None,
                },
                acc.nanos,
                crate::tracker::durs_to_nanos(pos@),
                crate::tracker::durs_to_nanos(neg@),
            ) is None,
        },
{
    if !crate::chars::chars_eq_str(name, "startTime") {
        return None;
    }
    let (w, p) = match parse_wall_string_at(v, q) {
        Some(x) => x,
        None => {
            return None;
        },
    };
    let r2 = match expect_char_at(v, p, '}') {
        Some(x) => x,
        None => {
            return None;
        },
    };
    let t = crate::tracker::PausedTracker {
        description: desc,
        duration: acc,
        positive_adjustments: pos,
        negative_adjustments: neg,
        start_time: w,
    };
    Some((t, r2))
}

fn parse_tracker_after_pos_at(
    v: &Vec<char>,
    name: Vec<char>,
    q: usize,
    desc: Option<String>,
    acc: crate::dur::Dur,
    pos: Vec<crate::dur::Dur>,
) -> (r: Option<(crate::tracker::PausedTracker, usize)>)
    requires
        q <= v@.len(),
    ensures
        match r {
            Some(p) => parse_tracker_after_pos(
                v@,
                name@,
                q as int,
                match desc {
                    Some(d) => Some(d@),
                    None => None,
                },
                acc.nanos,
                crate::tracker::durs_to_nanos(pos@),
            ) == Some((p.0@, p.1 as int)) && q < p.1 <= v@.len(),
            None => parse_tracker_after_pos(
                v@,
                name@,
                q as int,
                match desc {
                    Some(d) => Some(d@),
                    None => None,
                },
                acc.nanos,
                crate::tracker::durs_to_nanos(pos@),
            ) is None,
        },
{
    if crate::chars::chars_eq_str(&name, "negativeAdjustments") {
        let (neg, p) = match parse_dur_array_at(v, q) {
            Some(x) => x,
            None => {
                return None;
            },
        };
        let r1 = match expect_char_at(v, p, ',') {
            Some(x) => x,
            None => {
                return None;
            },
        };
        let (n2, q2) = match parse_named_at(v, r1) {
            Some(x) => x,
            None => {
                return None;
            },
        };
        parse_tracker_final_at(v, &n2, q2, desc, acc, pos, neg)
    } else {
        let neg: Vec<crate::dur::Dur> = Vec::new();
        proof {
            assert(crate::tracker::durs_to_nanos(neg@) =~= Seq::<u64>::empty());
        }
        parse_tracker_final_at(v, &name, q, desc, acc, pos, neg)
    }
}

fn parse_tracker_after_desc_at(
    v: &Vec<char>,
    name: Vec<char>,
    q: usize,
    desc: Option<String>,
) -> (r: Option<(crate::tracker::PausedTracker, usize)>)
    requires
        q <= v@.len(),
    ensures
        match r {
            Some(p) => parse_tracker_after_desc(
                v@,
                name@,
                q as int,
                match desc {
                    Some(d) => Some(d@),
                    None => None,
                },
            ) == Some((p.0@, p.1 as int)) && q < p.1 <= v@.len(),
            None => parse_tracker_after_desc(
                v@,
                name@,
                q as int,
                match desc {
                    Some(d) => Some(d@),
                    None => None,
                },
            ) is None,
        },
{
    if !crate::chars::chars_eq_str(&name, "duration") {
        return None;
    }
    let (acc, p) = match parse_dur_string_at(v, q) {
        Some(x) => x,
        None => {
            return None;
        },
    };
    let r1 = match expect_char_at(v, p, ',') {
        Some(x) => x,
        None => {
            return None;
        },
    };
    let (n2, q2) = match parse_named_at(v, r1) {
        Some(x) => x,
        None => {
            return None;
        },
    };
    if crate::chars::chars_eq_str(&n2, "positiveAdjustments") {
        let (pos, p2) = match parse_dur_array_at(v, q2) {
            Some(x) => x,
            None => {
                return None;
            },
        };
        let r2 = match expect_char_at(v, p2, ',') {
            Some(x) => x,
            None => {
                return None;
            },
        };
        let (n3, q3) = match parse_named_at(v, r2) {
            Some(x) => x,
            None => {
                return None;
            },
        };
        parse_tracker_after_pos_at(v, n3, q3, desc, crate::dur::Dur::from_nanos(acc), pos)
    } else {
        let pos: Vec<crate::dur::Dur> = Vec::new();
        proof {
            assert(crate::tracker::durs_to_nanos(pos@) =~= Seq::<u64>::empty());
        }
        parse_tracker_after_pos_at(v, n2, q2, desc, crate::dur::Dur::from_nanos(acc), pos)
    }
}

fn parse_tracker_at(v: &Vec<char>, i: usize) -> (r: Option<(crate::tracker::PausedTracker, usize)>)
    requires
        i <= v@.len(),
    ensures
        match r {
            Some(p) => parse_tracker(v@, i as int) == Some((p.0@, p.1 as int)) && i < p.1
                <= v@.len(),
            None => parse_tracker(v@, i as int) is None,
        },
{
    let a = match expect_char_at(v, i, '{') {
        Some(a) => a,
        None => {
            return None;
        },
    };
    let (n1, q1) = match parse_named_at(v, a) {
        Some(x) => x,
        None => {
            return None;
        },
    };
    if crate::chars::chars_eq_str(&n1, "description") {
        let (dsc, p) = match parse_jstring_at(v, q1) {
            Some(x) => x,
            None => {
                return None;
            },
        };
        let r1 = match expect_char_at(v, p, ',') {
            Some(x) => x,
            None => {
                return None;
            },
        };
        let (n2, q2) = match parse_named_at(v, r1) {
            Some(x) => x,
            None => {
                return None;
            },
        };
        let dstr = crate::chars::string_from_chars(&dsc);
        parse_tracker_after_desc_at(v, n2, q2, Some(dstr))
    } else {
        parse_tracker_after_desc_at(v, n1, q1, None)
    }
}

fn parse_pair_at(v: &Vec<char>, i: usize) -> (r: Option<
    ((String, crate::tracker::PausedTracker), usize),
>)
    requires
        i <= v@.len(),
    ensures
        match r {
            Some(p) => parse_pair(v@, i as int) == Some(((p.0.0@, p.0.1@), p.1 as int)) && i < p.1
                <= v@.len(),
            None => parse_pair(v@, i as int) is None,
        },
{
    let (k, q) = match parse_named_at(v, i) {
        Some(x) => x,
        None => {
            return None;
        },
    };
    let (t, p) = match parse_tracker_at(v, q) {
        Some(x) => x,
        None => {
            return None;
        },
    };
    let ks = crate::chars::string_from_chars(&k);
    Some(((ks, t), p))
}

fn parse_trackers_at(v: &Vec<char>, i: usize) -> (r: Option<
    (Vec<(String, crate::tracker::PausedTracker)>, usize),
>)
    requires
        i <= v@.len(),
    ensures
        match r {
            Some(p) => parse_trackers(v@, i as int) == Some(
                (Seq::new(p.0@.len(), |q: int| (p.0@[q].0@, p.0@[q].1@)), p.1 as int),
            ) && i < p.1 <= v@.len(),
            None => parse_trackers(v@, i as int) is None,
        },
{
    let a = match expect_char_at(v, i, '{') {
        Some(a) => a,
        None => {
            return None;
        },
    };
    let b = skip_ws_at(v, a);
    if b < v.len() && v[b] == '}' {
        let out: Vec<(String, crate::tracker::PausedTracker)> = Vec::new();
        proof {
            assert(Seq::new(out@.len(), |q: int| (out@[q].0@, out@[q].1@)) =~= Seq::<
                (Seq<char>, TrackerModel),
            >::empty());
        }
        return Some((out, b + 1));
    }
    let (kt0, j0) = match parse_pair_at(v, a) {
        Some(x) => x,
        None => {
            return None;
        },
    };
    let ghost first: (Seq<char>, TrackerModel) = (kt0.0@, kt0.1@);
    let mut out: Vec<(String, crate::tracker::PausedTracker)> = Vec::new();
    out.push(kt0);
    let mut p = j0;
    proof {
        assert(Seq::new(out@.len(), |q: int| (out@[q].0@, out@[q].1@)) =~= seq![first]);
    }
    loop
        invariant
            i < p <= v@.len(),
            parse_trackers(v@, i as int) == parse_pairs(
                v@,
                p as int,
                Seq::new(out@.len(), |q: int| (out@[q].0@, out@[q].1@)),
            ),
        decreases v@.len() - p,
    {
        let a2 = skip_ws_at(v, p);
        if a2 >= v.len() {
            return None;
        }
        if v[a2] == '}' {
            return Some((out, a2 + 1));
        }
        if v[a2] != ',' {
            return None;
        }
        let (kt, j2) = match parse_pair_at(v, a2 + 1) {
            Some(x) => x,
            None => {
                return None;
            },
        };
        let ghost pre = Seq::new(out@.len(), |q: int| (out@[q].0@, out@[q].1@));
        let ghost e: (Seq<char>, TrackerModel) = (kt.0@, kt.1@);
        out.push(kt);
        proof {
            assert(Seq::new(out@.len(), |q: int| (out@[q].0@, out@[q].1@)) =~= pre.push(e));
        }
        p = j2;
    }
}

fn parse_running_at(v: &Vec<char>, i: usize) -> (r: Option<
    (Option<crate::snapshot::RunStamp>, usize),
>)
    requires
        i <= v@.len(),
    ensures
        match r {
            Some(p) => parse_running(v@, i as int) == Some(
                (
                    match p.0 {
                        Some(rs) => Some(rs@),
                        None => None,
                    },
                    p.1 as int,
                ),
            ) && i < p.1 <= v@.len(),
            None => parse_running(v@, i as int) is None,
        },
{
    let a = skip_ws_at(v, i);
    if a >= v.len() {
        return None;
    }
    if v[a] == 'n' {
        if v.len() - a >= 4 && v[a + 1] == 'u' && v[a + 2] == 'l' && v[a + 3] == 'l' {
            proof {
                assert(v@.subrange(a as int, a + 4 as int) =~= seq!['n', 'u', 'l', 'l']);
            }
            return Some((None, a + 4));
        } else {
            proof {
                if parse_lit(v@, a as int, seq!['n', 'u', 'l', 'l']) is Some {
                    assert(v@.subrange(a as int, a + 4 as int) == seq!['n', 'u', 'l', 'l']);
                    assert(v@[a as int + 1] == 'u' && v@[a as int + 2] == 'l' && v@[a as int + 3]
                        == 'l') by {
                        assert(v@.subrange(a as int, a + 4 as int)[1] == 'u');
                        assert(v@.subrange(a as int, a + 4 as int)[2] == 'l');
                        assert(v@.subrange(a as int, a + 4 as int)[3] == 'l');
                    }
                }
            }
            return None;
        }
    }
    if v[a] != '{' {
        return None;
    }
    let (n1, q1) = match parse_named_at(v, a + 1) {
        Some(x) => x,
        None => {
            return None;
        },
    };
    if !crate::chars::chars_eq_str(&n1, "key") {
        return None;
    }
    let (k, p) = match parse_jstring_at(v, q1) {
        Some(x) => x,
        None => {
            return None;
        },
    };
    let r1 = match expect_char_at(v, p, ',') {
        Some(x) => x,
        None => {
            return None;
        },
    };
    let (n2, q2) = match parse_named_at(v, r1) {
        Some(x) => x,
        None => {
            return None;
        },
    };
    if !crate::chars::chars_eq_str(&n2, "startTime") {
        return None;
    }
    let (w, p2) = match parse_u64_at(v, q2) {
        Some(x) => x,
        None => {
            return None;
        },
    };
    let r2 = match expect_char_at(v, p2, '}') {
        Some(x) => x,
        None => {
            return None;
        },
    };
    let ks = crate::chars::string_from_chars(&k);
    Some((Some(crate::snapshot::RunStamp { key: ks, wall_start: w }), r2))
}

/// Decides the snapshot usability checks exactly.
pub fn snapshot_wf_check(snap: &crate::snapshot::Snapshot) -> (r: bool)
    ensures
        r == crate::snapshot::snap_wf(snap@),
{
    let n = snap.trackers.len();
    let ghost es = snap@.trackers;
    // unique keys
    let mut i: usize = 0;
    while i < n
        invariant
            i <= n,
            n == snap.trackers@.len(),
            es == snap@.trackers,
            forall|a: int, b: int| 0 <= a < b < i ==> (#[trigger] es[a]).0 != (#[trigger] es[b]).0,
            forall|a: int, b: int|
                0 <= a < i && a < b < n ==> (#[trigger] es[a]).0 != (#[trigger] es[b]).0,
        decreases n - i,
    {
        let mut j: usize = i + 1;
        while j < n
            invariant
                i < j <= n,
                i < n,
                n == snap.trackers@.len(),
                es == snap@.trackers,
                forall|b: int| i < b < j ==> (#[trigger] es[b]).0 != es[i as int].0,
            decreases n - j,
        {
            if crate::chars::str_eq(snap.trackers[i].0.as_str(), snap.trackers[j].0.as_str()) {
                proof {
                    assert(es[i as int].0 == es[j as int].0);
                }
                return false;
            }
            j += 1;
        }
        i += 1;
    }
    proof {
        assert(crate::store::distinct_keys(es));
    }
    // the running pointer names an existing tracker
    match &snap.running {
        Some(rs) => {
            let mut k: usize = 0;
            let mut found = false;
            while k < n
                invariant
                    k <= n,
                    n == snap.trackers@.len(),
                    es == snap@.trackers,
                    found ==> crate::store::has_key(es, rs@.key),
                    !found ==> forall|b: int| 0 <= b < k ==> (#[trigger] es[b]).0 != rs@.key,
                decreases n - k,
            {
                if crate::chars::str_eq(snap.trackers[k].0.as_str(), rs.key.as_str()) {
                    proof {
                        assert(es[k as int].0 == rs@.key);
                    }
                    found = true;
                }
                k += 1;
            }
            if !found {
                return false;
            }
        },
        None => {},
    }
    // well-formed creation stamps
    let mut q: usize = 0;
    while q < n
        invariant
            q <= n,
            n == snap.trackers@.len(),
            es == snap@.trackers,
            forall|b: int| 0 <= b < q ==> (#[trigger] es[b]).1.start_time.wf(),
        decreases n - q,
    {
        if !snap.trackers[q].1.start_time.well_formed() {
            proof {
                assert(!es[q as int].1.start_time.wf());
            }
            return false;
        }
        q += 1;
    }
    true
}

/// Reads a whole snapshot out of file text: the exact snapshots this
/// library writes, plus interleaving whitespace, optional fields written
/// explicitly, and any equivalent spelling of each duration.
pub fn parse_snapshot_text(text: &str) -> (r: Result<crate::snapshot::Snapshot, ParseError>)
    ensures
        match spec_parse_snapshot(text@) {
            Some(m) => r is Ok && r->Ok_0@ == m && crate::snapshot::snap_wf(m),
            None => r is Err,
        },
{
    let v = crate::chars::str_to_chars(text);
    let a = match expect_char_at(&v, 0, '{') {
        Some(a) => a,
        None => {
            return Err(ParseError::Malformed);
        },
    };
    let (n1, q1) = match parse_named_at(&v, a) {
        Some(x) => x,
        None => {
            return Err(ParseError::Malformed);
        },
    };
    if !crate::chars::chars_eq_str(&n1, "running") {
        return Err(ParseError::Malformed);
    }
    let (run, p) = match parse_running_at(&v, q1) {
        Some(x) => x,
        None => {
            return Err(ParseError::Malformed);
        },
    };
    let r1 = match expect_char_at(&v, p, ',') {
        Some(x) => x,
        None => {
            return Err(ParseError::Malformed);
        },
    };
    let (n2, q2) = match parse_named_at(&v, r1) {
        Some(x) => x,
        None => {
            return Err(ParseError::Malformed);
        },
    };
    if !crate::chars::chars_eq_str(&n2, "trackers") {
        return Err(ParseError::Malformed);
    }
    let (es, p2) = match parse_trackers_at(&v, q2) {
        Some(x) => x,
        None => {
            return Err(ParseError::Malformed);
        },
    };
    let r2 = match expect_char_at(&v, p2, '}') {
        Some(x) => x,
        None => {
            return Err(ParseError::Malformed);
        },
    };
    if skip_ws_at(&v, r2) != v.len() {
        return Err(ParseError::Malformed);
    }
    let snap = crate::snapshot::Snapshot { running: run, trackers: es };
    proof {
        assert(snap@.trackers =~= parse_trackers(v@, q2 as int)->Some_0.0);
        assert(parse_snapshot_body(v@) == Some(snap@));
    }
    if snapshot_wf_check(&snap) {
        Ok(snap)
    } else {
        Err(ParseError::Malformed)
    }
}

// ----- reading back what was written -----
/// A suffix that starts with a non-blank character skips no whitespace.
proof fn lemma_skip_ws_noop(s: Seq<char>, i: int)
    requires
        0 <= i < s.len(),
        !is_ws_char(s[i]),
    ensures
        skip_ws(s, i) == i,
{
}

/// Reading the escaped body of `x` gives back `x` and stops just past the
/// closing quote.
proof fn lemma_read_jbody(s: Seq<char>, i: int, x: Seq<char>, rest: Seq<char>, acc: Seq<char>)
    requires
        0 <= i <= s.len(),
        s.subrange(i, s.len() as int) == esc_str(x) + seq!['"'] + rest,
    ensures
        parse_jbody(s, i, acc) == Some((acc + x, i + esc_str(x).len() + 1)),
    decreases x.len(),
{
    if x.len() == 0 {
        assert(esc_str(x) =~= Seq::<char>::empty());
        assert(esc_str(x) + seq!['"'] + rest =~= seq!['"'] + rest);
        lemma_subrange_concat(s, i, seq!['"'], rest);
        assert(seq!['"'][0] == '"');
        assert(s[i] == '"');
        assert(acc + x =~= acc);
    } else {
        let c = x[0];
        let x2 = x.drop_first();
        assert(esc_str(x) == esc_char(c) + esc_str(x2));
        assert((esc_char(c) + esc_str(x2)) + seq!['"'] + rest =~= esc_char(c) + (esc_str(x2)
            + seq!['"'] + rest));
        lemma_subrange_concat(s, i, esc_char(c), esc_str(x2) + seq!['"'] + rest);
        let el = esc_char(c).len() as int;
        assert(acc.push(c) + x2 =~= acc + x);
        if c == '"' {
            assert(esc_char(c)[0] == '\\' && esc_char(c)[1] == '"');
            assert(s[i] == '\\' && s[i + 1] == '"');
            lemma_read_jbody(s, i + 2, x2, rest, acc.push(c));
        } else if c == '\\' {
            assert(esc_char(c)[0] == '\\' && esc_char(c)[1] == '\\');
            assert(s[i] == '\\' && s[i + 1] == '\\');
            lemma_read_jbody(s, i + 2, x2, rest, acc.push(c));
        } else {
            assert(esc_char(c)[0] == c);
            assert(s[i] == c);
            assert(s[i] != '"' && s[i] != '\\');
            lemma_read_jbody(s, i + 1, x2, rest, acc.push(c));
        }
    }
}

/// Reading a rendered string value gives back the string.
proof fn lemma_read_jstr(s: Seq<char>, i: int, x: Seq<char>, rest: Seq<char>)
    requires
        0 <= i <= s.len(),
        s.subrange(i, s.len() as int) == jstr(x) + rest,
    ensures
        parse_jstring(s, i) == Some((x, i + jstr(x).len())),
{
    assert(jstr(x) + rest =~= seq!['"'] + (esc_str(x) + seq!['"'] + rest));
    lemma_subrange_concat(s, i, seq!['"'], esc_str(x) + seq!['"'] + rest);
    assert(seq!['"'][0] == '"');
    assert(s[i] == '"');
    assert(('"' as u32) == 34);
    assert(!is_ws_char('"'));
    lemma_skip_ws_noop(s, i);
    lemma_read_jbody(s, i + 1, x, rest, Seq::empty());
    assert(Seq::<char>::empty() + x =~= x);
}

/// Reading a rendered field name and its colon.
proof fn lemma_read_named(s: Seq<char>, i: int, name: Seq<char>, rest: Seq<char>)
    requires
        0 <= i <= s.len(),
        s.subrange(i, s.len() as int) == jstr(name) + seq![':'] + rest,
    ensures
        parse_named_start(s, i) == Some((name, i + jstr(name).len() + 1)),
{
    assert(jstr(name) + seq![':'] + rest =~= jstr(name) + (seq![':'] + rest));
    lemma_subrange_concat(s, i, jstr(name), seq![':'] + rest);
    lemma_read_jstr(s, i, name, seq![':'] + rest);
    let p = i + jstr(name).len() as int;
    lemma_subrange_concat(s, p, seq![':'], rest);
    assert(seq![':'][0] == ':');
    assert(s[p] == ':');
    assert((':' as u32) == 58);
    assert(!is_ws_char(':'));
    lemma_skip_ws_noop(s, p);
    assert(expect_char(s, p, ':') == Some(p + 1));
}

/// Reading a rendered duration string gives back the count.
proof fn lemma_read_dur_string(s: Seq<char>, i: int, n: u64, rest: Seq<char>)
    requires
        0 <= i <= s.len(),
        s.subrange(i, s.len() as int) == jstr(dur_chars(n)) + rest,
    ensures
        parse_dur_string(s, i) == Some((n, i + jstr(dur_chars(n)).len())),
{
    lemma_read_jstr(s, i, dur_chars(n), rest);
    crate::durtext::lemma_duration_round_trip(n);
}

/// Reading a rendered timestamp string gives back the stamp.
proof fn lemma_read_wall_string(s: Seq<char>, i: int, w: WallTime, rest: Seq<char>)
    requires
        0 <= i <= s.len(),
        w.wf(),
        s.subrange(i, s.len() as int) == jstr(wall_chars(w)) + rest,
    ensures
        parse_wall_string(s, i) == Some((w, i + jstr(wall_chars(w)).len())),
{
    lemma_read_jstr(s, i, wall_chars(w), rest);
    crate::wall::lemma_wall_round_trip(w);
}

/// Reading a rendered decimal number followed by a non-digit.
proof fn lemma_read_u64(s: Seq<char>, i: int, n: u64, rest: Seq<char>)
    requires
        0 <= i <= s.len(),
        s.subrange(i, s.len() as int) == dec_chars(n) + rest,
        rest.len() > 0,
        !is_digit_char(rest[0]),
        !is_ws_char(s[i]),
    ensures
        parse_u64(s, i) == Some((n, i + dec_chars(n).len())),
{
    crate::chars::lemma_dec_chars_val(n);
    lemma_subrange_concat(s, i, dec_chars(n), rest);
    let dl = dec_chars(n).len() as int;
    lemma_skip_ws_noop(s, i);
    assert forall|q: int| i <= q < i + dl implies is_digit_char(#[trigger] s[q]) by {
        assert(s[q] == dec_chars(n)[q - i]);
    }
    assert(s[i + dl] == rest[0]) by {
        lemma_subrange_concat(s, i + dl, rest, Seq::<char>::empty());
        assert(s.subrange(i + dl, s.len() as int) =~= rest + Seq::<char>::empty());
    }
    crate::durtext::lemma_digit_run_end_is(s, i, i + dl);
    assert(s.subrange(i, i + dl) == dec_chars(n));
}

/// Reading a rendered duration array gives back the items.
proof fn lemma_read_dur_array(s: Seq<char>, i: int, ds: Seq<u64>, rest: Seq<char>)
    requires
        0 <= i <= s.len(),
        s.subrange(i, s.len() as int) == dur_array_json(ds) + rest,
    ensures
        parse_dur_array(s, i) == Some((ds, i + dur_array_json(ds).len())),
{
    assert(dur_array_json(ds) + rest =~= seq!['['] + (dur_items_json(ds) + seq![']'] + rest));
    lemma_subrange_concat(s, i, seq!['['], dur_items_json(ds) + seq![']'] + rest);
    assert(seq!['['][0] == '[');
    assert(s[i] == '[');
    assert(('[' as u32) == 91);
    assert(!is_ws_char('['));
    lemma_skip_ws_noop(s, i);
    assert(expect_char(s, i, '[') == Some(i + 1));
    let a = i + 1;
    if ds.len() == 0 {
        assert(dur_items_json(ds) =~= Seq::<char>::empty());
        assert(dur_items_json(ds) + seq![']'] + rest =~= seq![']'] + rest);
        lemma_subrange_concat(s, a, seq![']'], rest);
        assert(seq![']'][0] == ']');
        assert(s[a] == ']');
        assert((']' as u32) == 93);
        assert(!is_ws_char(']'));
        lemma_skip_ws_noop(s, a);
        assert(parse_dur_array(s, i) == Some((Seq::<u64>::empty(), a + 1)));
        assert(ds =~= Seq::<u64>::empty());
    } else {
        let first = ds[0];
        let tail = ds.drop_first();
        assert(dur_items_json(ds) == jstr(dur_chars(first)) + rest_items_json(tail)) by {
            lemma_items_split(ds);
        }
        assert(dur_items_json(ds) + seq![']'] + rest =~= jstr(dur_chars(first)) + (
        rest_items_json(tail) + seq![']'] + rest));
        lemma_subrange_concat(s, a, jstr(dur_chars(first)), rest_items_json(tail) + seq![']']
            + rest);
        assert(s[a] == '"') by {
            assert((seq!['"'] + esc_str(dur_chars(first)))[0] == '"');
            assert(jstr(dur_chars(first))[0] == '"');
        }
        assert(('"' as u32) == 34);
        lemma_skip_ws_noop(s, a);
        assert(skip_ws(s, a) == a && s[a] != ']');
        lemma_read_dur_string(s, a, first, rest_items_json(tail) + seq![']'] + rest);
        let j0 = a + jstr(dur_chars(first)).len() as int;
        lemma_read_items(s, j0, tail, seq![first], rest);
        assert(seq![first] + tail =~= ds);
    }
}

/// The items after the first, each with its leading comma.
spec fn rest_items_json(ds: Seq<u64>) -> Seq<char>
    decreases ds.len(),
{
    if ds.len() == 0 {
        Seq::empty()
    } else {
        seq![','] + jstr(dur_chars(ds[0])) + rest_items_json(ds.drop_first())
    }
}

/// A nonempty rendered item list is its first item then the rest.
proof fn lemma_items_split(ds: Seq<u64>)
    requires
        ds.len() > 0,
    ensures
        dur_items_json(ds) == jstr(dur_chars(ds[0])) + rest_items_json(ds.drop_first()),
    decreases ds.len(),
{
    if ds.len() == 1 {
        assert(rest_items_json(ds.drop_first()) =~= Seq::<char>::empty());
        assert(dur_items_json(ds) =~= jstr(dur_chars(ds[0])) + rest_items_json(ds.drop_first()));
    } else {
        lemma_items_split(ds.drop_first());
        assert(dur_items_json(ds) == jstr(dur_chars(ds[0])) + seq![','] + dur_items_json(
            ds.drop_first(),
        ));
        assert(jstr(dur_chars(ds[0])) + seq![','] + dur_items_json(ds.drop_first()) =~= jstr(
            dur_chars(ds[0]),
        ) + rest_items_json(ds.drop_first()));
    }
}

/// Reading the rendered tail of an item list collects the items.
proof fn lemma_read_items(s: Seq<char>, i: int, ds: Seq<u64>, acc: Seq<u64>, rest: Seq<char>)
    requires
        0 <= i <= s.len(),
        s.subrange(i, s.len() as int) == rest_items_json(ds) + seq![']'] + rest,
    ensures
        parse_dur_items(s, i, acc) == Some(
            (acc + ds, i + rest_items_json(ds).len() + 1),
        ),
    decreases ds.len(),
{
    if ds.len() == 0 {
        assert(rest_items_json(ds) =~= Seq::<char>::empty());
        assert(rest_items_json(ds) + seq![']'] + rest =~= seq![']'] + rest);
        lemma_subrange_concat(s, i, seq![']'], rest);
        assert(seq![']'][0] == ']');
        assert(s[i] == ']');
        assert((']' as u32) == 93);
        assert(!is_ws_char(']'));
        lemma_skip_ws_noop(s, i);
        assert(acc + ds =~= acc);
    } else {
        let first = ds[0];
        let tail = ds.drop_first();
        assert(rest_items_json(ds) == seq![','] + jstr(dur_chars(first)) + rest_items_json(tail));
        assert(rest_items_json(ds) + seq![']'] + rest =~= seq![','] + (jstr(dur_chars(first)) + (
        rest_items_json(tail) + seq![']'] + rest)));
        lemma_subrange_concat(
            s,
            i,
            seq![','],
            jstr(dur_chars(first)) + (rest_items_json(tail) + seq![']'] + rest),
        );
        assert(seq![','][0] == ',');
        assert(s[i] == ',');
        assert((',' as u32) == 44 && (']' as u32) == 93);
        assert(!is_ws_char(','));
        lemma_skip_ws_noop(s, i);
        lemma_subrange_concat(
            s,
            i + 1,
            jstr(dur_chars(first)),
            rest_items_json(tail) + seq![']'] + rest,
        );
        lemma_read_dur_string(s, i + 1, first, rest_items_json(tail) + seq![']'] + rest);
        let j = i + 1 + jstr(dur_chars(first)).len() as int;
        lemma_read_items(s, j, tail, acc.push(first), rest);
        assert(acc.push(first) + tail =~= acc + ds);
    }
}

/// The field names are pairwise distinct.
proof fn lemma_field_names()
    ensures
        "description"@ != "duration"@,
        "duration"@ != "description"@,
        "positiveAdjustments"@ != "negativeAdjustments"@,
        "negativeAdjustments"@ != "positiveAdjustments"@,
        "startTime"@ != "positiveAdjustments"@,
        "positiveAdjustments"@ != "startTime"@,
        "startTime"@ != "negativeAdjustments"@,
        "negativeAdjustments"@ != "startTime"@,
{
    reveal_strlit("description");
    reveal_strlit("duration");
    reveal_strlit("positiveAdjustments");
    reveal_strlit("negativeAdjustments");
    reveal_strlit("startTime");
    assert("description"@.len() == 11);
    assert("duration"@.len() == 8);
    assert("positiveAdjustments"@.len() == 19);
    assert("negativeAdjustments"@.len() == 19);
    assert("startTime"@.len() == 9);
    assert("positiveAdjustments"@[0] == 'p');
    assert("negativeAdjustments"@[0] == 'n');
}

/// Reading the rendered tail of a tracker from its last field.
proof fn lemma_read_from_start_field(
    s: Seq<char>,
    q: int,
    desc: Option<Seq<char>>,
    acc: u64,
    pos: Seq<u64>,
    neg: Seq<u64>,
    w: WallTime,
    rest: Seq<char>,
)
    requires
        0 <= q <= s.len(),
        w.wf(),
        s.subrange(q, s.len() as int) == jstr(wall_chars(w)) + seq!['}'] + rest,
    ensures
        parse_tracker_final(s, "startTime"@, q, desc, acc, pos, neg) == Some(
            (
                TrackerModel { description: desc, acc_nanos: acc, pos, neg, start_time: w },
                q + jstr(wall_chars(w)).len() + 1,
            ),
        ),
{
    lemma_field_names();
    assert(jstr(wall_chars(w)) + seq!['}'] + rest =~= jstr(wall_chars(w)) + (seq!['}'] + rest));
    lemma_subrange_concat(s, q, jstr(wall_chars(w)), seq!['}'] + rest);
    lemma_read_wall_string(s, q, w, seq!['}'] + rest);
    let p = q + jstr(wall_chars(w)).len() as int;
    lemma_subrange_concat(s, p, seq!['}'], rest);
    assert(seq!['}'][0] == '}');
    assert(s[p] == '}');
    assert(('}' as u32) == 125);
    assert(!is_ws_char('}'));
    lemma_skip_ws_noop(s, p);
}

/// Reading the rendered tail of a tracker from its optional negative log.
proof fn lemma_read_from_neg(
    s: Seq<char>,
    q: int,
    desc: Option<Seq<char>>,
    acc: u64,
    pos: Seq<u64>,
    neg: Seq<u64>,
    w: WallTime,
    rest: Seq<char>,
)
    requires
        0 <= q <= s.len(),
        w.wf(),
        neg.len() > 0 ==> s.subrange(q, s.len() as int) == dur_array_json(neg) + seq![','] + jstr(
            "startTime"@,
        ) + seq![':'] + jstr(wall_chars(w)) + seq!['}'] + rest,
        neg.len() == 0 ==> s.subrange(q, s.len() as int) == jstr(wall_chars(w)) + seq!['}'] + rest,
    ensures
        neg.len() > 0 ==> parse_tracker_after_pos(s, "negativeAdjustments"@, q, desc, acc, pos)
            == Some(
            (
                TrackerModel { description: desc, acc_nanos: acc, pos, neg, start_time: w },
                q + dur_array_json(neg).len() + 1 + jstr("startTime"@).len() + 1 + jstr(
                    wall_chars(w),
                ).len() + 1,
            ),
        ),
        neg.len() == 0 ==> parse_tracker_after_pos(s, "startTime"@, q, desc, acc, pos) == Some(
            (
                TrackerModel { description: desc, acc_nanos: acc, pos, neg, start_time: w },
                q + jstr(wall_chars(w)).len() + 1,
            ),
        ),
{
    lemma_field_names();
    if neg.len() > 0 {
        let tail1 = seq![','] + jstr("startTime"@) + seq![':'] + jstr(wall_chars(w)) + seq!['}']
            + rest;
        assert(dur_array_json(neg) + seq![','] + jstr("startTime"@) + seq![':'] + jstr(
            wall_chars(w),
        ) + seq!['}'] + rest =~= dur_array_json(neg) + tail1);
        lemma_subrange_concat(s, q, dur_array_json(neg), tail1);
        lemma_read_dur_array(s, q, neg, tail1);
        let p = q + dur_array_json(neg).len() as int;
        let tail2 = jstr("startTime"@) + seq![':'] + (jstr(wall_chars(w)) + seq!['}'] + rest);
        assert(tail1 =~= seq![','] + tail2);
        lemma_subrange_concat(s, p, seq![','], tail2);
        assert(seq![','][0] == ',');
        assert(s[p] == ',');
        assert((',' as u32) == 44);
        assert(!is_ws_char(','));
        lemma_skip_ws_noop(s, p);
        let r = p + 1;
        assert(tail2 =~= (jstr("startTime"@) + seq![':']) + (jstr(wall_chars(w)) + seq!['}']
            + rest));
        lemma_subrange_concat(s, r, jstr("startTime"@) + seq![':'], jstr(wall_chars(w))
            + seq!['}'] + rest);
        assert(s.subrange(r, s.len() as int) == jstr("startTime"@) + seq![':'] + (jstr(
            wall_chars(w),
        ) + seq!['}'] + rest)) by {
            assert(tail2 =~= jstr("startTime"@) + seq![':'] + (jstr(wall_chars(w)) + seq!['}']
                + rest));
        }
        lemma_read_named(s, r, "startTime"@, jstr(wall_chars(w)) + seq!['}'] + rest);
        let q2 = r + jstr("startTime"@).len() as int + 1;
        lemma_subrange_concat(
            s,
            r,
            jstr("startTime"@) + seq![':'],
            jstr(wall_chars(w)) + seq!['}'] + rest,
        );
        lemma_read_from_start_field(s, q2, desc, acc, pos, neg, w, rest);
    } else {
        assert(neg =~= Seq::<u64>::empty());
        lemma_read_from_start_field(s, q, desc, acc, pos, neg, w, rest);
    }
}

/// Reading the rendered tail of a tracker from its mandatory duration.
#[verifier::rlimit(100)]
#[verifier::spinoff_prover]
proof fn lemma_read_from_duration(
    s: Seq<char>,
    q: int,
    desc: Option<Seq<char>>,
    t: TrackerModel,
    rest: Seq<char>,
)
    requires
        0 <= q <= s.len(),
        t.start_time.wf(),
        t.description == desc,
        s.subrange(q, s.len() as int) == jstr(dur_chars(t.acc_nanos)) + pos_part_json(t.pos)
            + neg_part_json(t.neg) + start_part_json(t.start_time) + seq!['}'] + rest,
    ensures
        parse_tracker_after_desc(s, "duration"@, q, desc) == Some(
            (
                t,
                q + jstr(dur_chars(t.acc_nanos)).len() + pos_part_json(t.pos).len()
                    + neg_part_json(t.neg).len() + start_part_json(t.start_time).len() + 1,
            ),
        ),
{
    lemma_field_names();
    reveal(pos_part_json);
    reveal(neg_part_json);
    reveal(start_part_json);
    let dv = jstr(dur_chars(t.acc_nanos));
    let tail1 = pos_part_json(t.pos) + neg_part_json(t.neg) + start_part_json(t.start_time)
        + seq!['}'] + rest;
    assert(s.subrange(q, s.len() as int) =~= dv + tail1);
    lemma_subrange_concat(s, q, dv, tail1);
    lemma_read_dur_string(s, q, t.acc_nanos, tail1);
    let p = q + dv.len() as int;
    // Whichever optional log comes first, a comma follows the duration.
    let w = t.start_time;
    if t.pos.len() > 0 {
        let tail2 = jstr("positiveAdjustments"@) + seq![':'] + (dur_array_json(t.pos)
            + neg_part_json(t.neg) + start_part_json(t.start_time) + seq!['}'] + rest);
        assert(tail1 =~= seq![','] + tail2);
        lemma_subrange_concat(s, p, seq![','], tail2);
        assert(seq![','][0] == ',');
        assert(s[p] == ',');
        assert((',' as u32) == 44 && !is_ws_char(','));
        lemma_skip_ws_noop(s, p);
        let r = p + 1;
        assert(tail2 =~= jstr("positiveAdjustments"@) + seq![':'] + (dur_array_json(t.pos)
            + neg_part_json(t.neg) + start_part_json(t.start_time) + seq!['}'] + rest));
        lemma_read_named(
            s,
            r,
            "positiveAdjustments"@,
            dur_array_json(t.pos) + neg_part_json(t.neg) + start_part_json(t.start_time)
                + seq!['}'] + rest,
        );
        let q2 = r + jstr("positiveAdjustments"@).len() as int + 1;
        assert(tail2 =~= (jstr("positiveAdjustments"@) + seq![':']) + (dur_array_json(t.pos)
            + neg_part_json(t.neg) + start_part_json(t.start_time) + seq!['}'] + rest));
        lemma_subrange_concat(
            s,
            r,
            jstr("positiveAdjustments"@) + seq![':'],
            dur_array_json(t.pos) + neg_part_json(t.neg) + start_part_json(t.start_time)
                + seq!['}'] + rest,
        );
        // Past the positive array: the negative log or the start field.
        lemma_read_after_pos_text(s, q2, desc, t, rest);
    } else {
        assert(pos_part_json(t.pos) =~= Seq::<char>::empty());
        lemma_read_tail_no_pos(s, p, desc, t, rest, tail1);
    }
}

/// After the positive log's value: comma, then the rest of the object.
#[verifier::rlimit(100)]
#[verifier::spinoff_prover]
proof fn lemma_read_after_pos_text(
    s: Seq<char>,
    q2: int,
    desc: Option<Seq<char>>,
    t: TrackerModel,
    rest: Seq<char>,
)
    requires
        0 <= q2 <= s.len(),
        t.start_time.wf(),
        t.description == desc,
        t.pos.len() > 0,
        s.subrange(q2, s.len() as int) == dur_array_json(t.pos) + neg_part_json(t.neg)
            + start_part_json(t.start_time) + seq!['}'] + rest,
    ensures
        ({
            let body = dur_array_json(t.pos) + neg_part_json(t.neg) + start_part_json(
                t.start_time,
            );
            ({
                match parse_dur_array(s, q2) {
                    Some((pos2, p2)) => pos2 == t.pos && p2 == q2 + dur_array_json(t.pos).len()
                        && ({
                        match expect_char(s, p2, ',') {
                            Some(r2) => match parse_named_start(s, r2) {
                                Some((n3, q3)) => parse_tracker_after_pos(s, n3, q3, desc, t.acc_nanos, t.pos)
                                    == Some((t, q2 + body.len() + 1)),
                                None => false,
                            },
                            None => false,
                        }
                    }),
                    None => false,
                }
            })
        }),
{
    lemma_field_names();
    reveal(neg_part_json);
    reveal(start_part_json);
    let w = t.start_time;
    let tail3 = neg_part_json(t.neg) + start_part_json(w) + seq!['}'] + rest;
    assert(s.subrange(q2, s.len() as int) =~= dur_array_json(t.pos) + tail3);
    lemma_subrange_concat(s, q2, dur_array_json(t.pos), tail3);
    lemma_read_dur_array(s, q2, t.pos, tail3);
    let p2 = q2 + dur_array_json(t.pos).len() as int;
    if t.neg.len() > 0 {
        let tail4 = jstr("negativeAdjustments"@) + seq![':'] + (dur_array_json(t.neg)
            + start_part_json(w) + seq!['}'] + rest);
        assert(tail3 =~= seq![','] + tail4);
        lemma_subrange_concat(s, p2, seq![','], tail4);
        assert(seq![','][0] == ',');
        assert(s[p2] == ',');
        assert((',' as u32) == 44 && !is_ws_char(','));
        lemma_skip_ws_noop(s, p2);
        let r2 = p2 + 1;
        lemma_read_named(
            s,
            r2,
            "negativeAdjustments"@,
            dur_array_json(t.neg) + start_part_json(w) + seq!['}'] + rest,
        );
        let q3 = r2 + jstr("negativeAdjustments"@).len() as int + 1;
        assert(tail4 =~= (jstr("negativeAdjustments"@) + seq![':']) + (dur_array_json(t.neg)
            + start_part_json(w) + seq!['}'] + rest));
        lemma_subrange_concat(
            s,
            r2,
            jstr("negativeAdjustments"@) + seq![':'],
            dur_array_json(t.neg) + start_part_json(w) + seq!['}'] + rest,
        );
        assert(s.subrange(q3, s.len() as int) =~= dur_array_json(t.neg) + seq![','] + jstr(
            "startTime"@,
        ) + seq![':'] + jstr(wall_chars(w)) + seq!['}'] + rest) by {
            assert(start_part_json(w) == seq![','] + jstr("startTime"@) + seq![':'] + jstr(
                wall_chars(w),
            ));
            assert(dur_array_json(t.neg) + start_part_json(w) + seq!['}'] + rest =~= dur_array_json(
                t.neg,
            ) + seq![','] + jstr("startTime"@) + seq![':'] + jstr(wall_chars(w)) + seq!['}']
                + rest);
        }
        lemma_read_from_neg(s, q3, desc, t.acc_nanos, t.pos, t.neg, w, rest);
        assert(TrackerModel {
            description: desc,
            acc_nanos: t.acc_nanos,
            pos: t.pos,
            neg: t.neg,
            start_time: w,
        } == t);
    } else {
        assert(neg_part_json(t.neg) =~= Seq::<char>::empty());
        let tail4 = jstr("startTime"@) + seq![':'] + (jstr(wall_chars(w)) + seq!['}'] + rest);
        assert(tail3 =~= seq![','] + tail4);
        lemma_subrange_concat(s, p2, seq![','], tail4);
        assert(seq![','][0] == ',');
        assert(s[p2] == ',');
        assert((',' as u32) == 44 && !is_ws_char(','));
        lemma_skip_ws_noop(s, p2);
        let r2 = p2 + 1;
        lemma_read_named(s, r2, "startTime"@, jstr(wall_chars(w)) + seq!['}'] + rest);
        let q3 = r2 + jstr("startTime"@).len() as int + 1;
        assert(tail4 =~= (jstr("startTime"@) + seq![':']) + (jstr(wall_chars(w)) + seq!['}']
            + rest));
        lemma_subrange_concat(
            s,
            r2,
            jstr("startTime"@) + seq![':'],
            jstr(wall_chars(w)) + seq!['}'] + rest,
        );
        lemma_read_from_neg(s, q3, desc, t.acc_nanos, t.pos, t.neg, w, rest);
        assert(TrackerModel {
            description: desc,
            acc_nanos: t.acc_nanos,
            pos: t.pos,
            neg: t.neg,
            start_time: w,
        } == t);
    }
}

/// After the duration value when no positive log exists: comma, then the
/// negative log or the start field.
#[verifier::rlimit(100)]
#[verifier::spinoff_prover]
proof fn lemma_read_tail_no_pos(
    s: Seq<char>,
    p: int,
    desc: Option<Seq<char>>,
    t: TrackerModel,
    rest: Seq<char>,
    tail1: Seq<char>,
)
    requires
        0 <= p <= s.len(),
        t.start_time.wf(),
        t.description == desc,
        t.pos.len() == 0,
        tail1 == neg_part_json(t.neg) + start_part_json(t.start_time) + seq!['}'] + rest,
        s.subrange(p, s.len() as int) == tail1,
    ensures
        ({
            match expect_char(s, p, ',') {
                Some(r) => match parse_named_start(s, r) {
                    Some((n2, q2)) => n2 != "positiveAdjustments"@ && parse_tracker_after_pos(
                        s,
                        n2,
                        q2,
                        desc,
                        t.acc_nanos,
                        Seq::<u64>::empty(),
                    ) == Some((t, p + tail1.len() - 1 - rest.len() + 1)),
                    None => false,
                },
                None => false,
            }
        }),
{
    lemma_field_names();
    reveal(neg_part_json);
    reveal(start_part_json);
    let w = t.start_time;
    if t.neg.len() > 0 {
        let tail4 = jstr("negativeAdjustments"@) + seq![':'] + (dur_array_json(t.neg)
            + start_part_json(w) + seq!['}'] + rest);
        assert(tail1 =~= seq![','] + tail4);
        lemma_subrange_concat(s, p, seq![','], tail4);
        assert(seq![','][0] == ',');
        assert(s[p] == ',');
        assert((',' as u32) == 44 && !is_ws_char(','));
        lemma_skip_ws_noop(s, p);
        let r = p + 1;
        lemma_read_named(
            s,
            r,
            "negativeAdjustments"@,
            dur_array_json(t.neg) + start_part_json(w) + seq!['}'] + rest,
        );
        let q3 = r + jstr("negativeAdjustments"@).len() as int + 1;
        assert(tail4 =~= (jstr("negativeAdjustments"@) + seq![':']) + (dur_array_json(t.neg)
            + start_part_json(w) + seq!['}'] + rest));
        lemma_subrange_concat(
            s,
            r,
            jstr("negativeAdjustments"@) + seq![':'],
            dur_array_json(t.neg) + start_part_json(w) + seq!['}'] + rest,
        );
        assert(s.subrange(q3, s.len() as int) =~= dur_array_json(t.neg) + seq![','] + jstr(
            "startTime"@,
        ) + seq![':'] + jstr(wall_chars(w)) + seq!['}'] + rest) by {
            assert(dur_array_json(t.neg) + start_part_json(w) + seq!['}'] + rest =~= dur_array_json(
                t.neg,
            ) + seq![','] + jstr("startTime"@) + seq![':'] + jstr(wall_chars(w)) + seq!['}']
                + rest);
        }
        lemma_read_from_neg(s, q3, desc, t.acc_nanos, Seq::<u64>::empty(), t.neg, w, rest);
        assert(t.pos =~= Seq::<u64>::empty());
        assert(TrackerModel {
            description: desc,
            acc_nanos: t.acc_nanos,
            pos: Seq::<u64>::empty(),
            neg: t.neg,
            start_time: w,
        } == t);
    } else {
        assert(neg_part_json(t.neg) =~= Seq::<char>::empty());
        let tail4 = jstr("startTime"@) + seq![':'] + (jstr(wall_chars(w)) + seq!['}'] + rest);
        assert(tail1 =~= seq![','] + tail4);
        lemma_subrange_concat(s, p, seq![','], tail4);
        assert(seq![','][0] == ',');
        assert(s[p] == ',');
        assert((',' as u32) == 44 && !is_ws_char(','));
        lemma_skip_ws_noop(s, p);
        let r = p + 1;
        lemma_read_named(s, r, "startTime"@, jstr(wall_chars(w)) + seq!['}'] + rest);
        let q3 = r + jstr("startTime"@).len() as int + 1;
        assert(tail4 =~= (jstr("startTime"@) + seq![':']) + (jstr(wall_chars(w)) + seq!['}']
            + rest));
        lemma_subrange_concat(
            s,
            r,
            jstr("startTime"@) + seq![':'],
            jstr(wall_chars(w)) + seq!['}'] + rest,
        );
        lemma_read_from_neg(s, q3, desc, t.acc_nanos, Seq::<u64>::empty(), t.neg, w, rest);
        assert(t.pos =~= Seq::<u64>::empty());
        assert(t.neg =~= Seq::<u64>::empty());
        assert(TrackerModel {
            description: desc,
            acc_nanos: t.acc_nanos,
            pos: Seq::<u64>::empty(),
            neg: Seq::<u64>::empty(),
            start_time: w,
        } == t);
    }
}

/// Reading a tracker body that carries a description.
#[verifier::rlimit(100)]
#[verifier::spinoff_prover]
proof fn lemma_read_tracker_some_desc(
    s: Seq<char>,
    i: int,
    a: int,
    dsc: Seq<char>,
    t: TrackerModel,
    rest: Seq<char>,
)
    requires
        0 <= i <= s.len(),
        0 <= a <= s.len(),
        t.start_time.wf(),
        t.description == Some(dsc),
        expect_char(s, i, '{') == Some(a),
        s.subrange(a, s.len() as int) == tracker_body_json(t) + seq!['}'] + rest,
    ensures
        parse_tracker(s, i) == Some((t, a + tracker_body_json(t).len() + 1)),
{
    lemma_field_names();
    reveal(tracker_body_json);
    reveal(desc_part_json);
    reveal(dur_part_json);
    let body = tracker_body_json(t);
    let tail0 = jstr(dsc) + seq![','] + dur_part_json(t.acc_nanos) + pos_part_json(t.pos)
        + neg_part_json(t.neg) + start_part_json(t.start_time) + seq!['}'] + rest;
    assert(body + seq!['}'] + rest =~= jstr("description"@) + seq![':'] + tail0);
    assert(s.subrange(a, s.len() as int) =~= jstr("description"@) + seq![':'] + tail0);
    lemma_read_named(s, a, "description"@, tail0);
    let q1 = a + jstr("description"@).len() as int + 1;
    assert((jstr("description"@) + seq![':']) + tail0 =~= jstr("description"@) + seq![':']
        + tail0);
    lemma_subrange_concat(s, a, jstr("description"@) + seq![':'], tail0);
    let tail1 = seq![','] + (jstr("duration"@) + seq![':'] + (jstr(dur_chars(t.acc_nanos))
        + pos_part_json(t.pos) + neg_part_json(t.neg) + start_part_json(t.start_time) + seq!['}']
        + rest));
    assert(tail0 =~= jstr(dsc) + tail1);
    lemma_subrange_concat(s, q1, jstr(dsc), tail1);
    lemma_read_jstr(s, q1, dsc, tail1);
    let p1 = q1 + jstr(dsc).len() as int;
    lemma_subrange_concat(
        s,
        p1,
        seq![','],
        jstr("duration"@) + seq![':'] + (jstr(dur_chars(t.acc_nanos)) + pos_part_json(t.pos)
            + neg_part_json(t.neg) + start_part_json(t.start_time) + seq!['}'] + rest),
    );
    assert(seq![','][0] == ',');
    assert(s[p1] == ',');
    assert((',' as u32) == 44 && !is_ws_char(','));
    lemma_skip_ws_noop(s, p1);
    let r1 = p1 + 1;
    lemma_read_named(
        s,
        r1,
        "duration"@,
        jstr(dur_chars(t.acc_nanos)) + pos_part_json(t.pos) + neg_part_json(t.neg)
            + start_part_json(t.start_time) + seq!['}'] + rest,
    );
    let q2 = r1 + jstr("duration"@).len() as int + 1;
    assert((jstr("duration"@) + seq![':']) + (jstr(dur_chars(t.acc_nanos)) + pos_part_json(t.pos)
        + neg_part_json(t.neg) + start_part_json(t.start_time) + seq!['}'] + rest) =~= jstr(
        "duration"@,
    ) + seq![':'] + (jstr(dur_chars(t.acc_nanos)) + pos_part_json(t.pos) + neg_part_json(t.neg)
        + start_part_json(t.start_time) + seq!['}'] + rest));
    lemma_subrange_concat(
        s,
        r1,
        jstr("duration"@) + seq![':'],
        jstr(dur_chars(t.acc_nanos)) + pos_part_json(t.pos) + neg_part_json(t.neg)
            + start_part_json(t.start_time) + seq!['}'] + rest,
    );
    assert(s.subrange(q2, s.len() as int) =~= jstr(dur_chars(t.acc_nanos)) + pos_part_json(t.pos)
        + neg_part_json(t.neg) + start_part_json(t.start_time) + seq!['}'] + rest);
    lemma_read_from_duration(s, q2, Some(dsc), t, rest);
}

/// Reading a tracker body with no description.
#[verifier::rlimit(100)]
#[verifier::spinoff_prover]
proof fn lemma_read_tracker_no_desc(s: Seq<char>, i: int, a: int, t: TrackerModel, rest: Seq<char>)
    requires
        0 <= i <= s.len(),
        0 <= a <= s.len(),
        t.start_time.wf(),
        t.description is None,
        expect_char(s, i, '{') == Some(a),
        s.subrange(a, s.len() as int) == tracker_body_json(t) + seq!['}'] + rest,
    ensures
        parse_tracker(s, i) == Some((t, a + tracker_body_json(t).len() + 1)),
{
    lemma_field_names();
    reveal(tracker_body_json);
    reveal(desc_part_json);
    reveal(dur_part_json);
    let body = tracker_body_json(t);
    assert(desc_part_json(t.description) =~= Seq::<char>::empty());
    let tail1 = jstr(dur_chars(t.acc_nanos)) + pos_part_json(t.pos) + neg_part_json(t.neg)
        + start_part_json(t.start_time) + seq!['}'] + rest;
    assert(body + seq!['}'] + rest =~= jstr("duration"@) + seq![':'] + tail1);
    assert(s.subrange(a, s.len() as int) =~= jstr("duration"@) + seq![':'] + tail1);
    lemma_read_named(s, a, "duration"@, tail1);
    let q1 = a + jstr("duration"@).len() as int + 1;
    lemma_subrange_concat(s, a, jstr("duration"@) + seq![':'], tail1);
    assert((jstr("duration"@) + seq![':']) + tail1 =~= jstr("duration"@) + seq![':'] + tail1);
    lemma_read_from_duration(s, q1, None, t, rest);
}

/// Reading a rendered tracker object gives back the tracker.
#[verifier::rlimit(100)]
#[verifier::spinoff_prover]
pub proof fn lemma_read_tracker(s: Seq<char>, i: int, t: TrackerModel, rest: Seq<char>)
    requires
        0 <= i <= s.len(),
        t.start_time.wf(),
        s.subrange(i, s.len() as int) == tracker_json(t) + rest,
    ensures
        parse_tracker(s, i) == Some((t, i + tracker_json(t).len())),
{
    let body = tracker_body_json(t);
    assert(tracker_json(t) + rest =~= seq!['{'] + (body + seq!['}'] + rest));
    lemma_subrange_concat(s, i, seq!['{'], body + seq!['}'] + rest);
    assert(seq!['{'][0] == '{');
    assert(s[i] == '{');
    assert(('{' as u32) == 123 && !is_ws_char('{'));
    lemma_skip_ws_noop(s, i);
    assert(expect_char(s, i, '{') == Some(i + 1));
    let a = i + 1;
    match t.description {
        Some(dsc) => {
            lemma_read_tracker_some_desc(s, i, a, dsc, t, rest);
        },
        None => {
            lemma_read_tracker_no_desc(s, i, a, t, rest);
        },
    }
}

/// Reading one rendered key/tracker pair.
proof fn lemma_read_pair(s: Seq<char>, i: int, k: Seq<char>, t: TrackerModel, rest: Seq<char>)
    requires
        0 <= i <= s.len(),
        t.start_time.wf(),
        s.subrange(i, s.len() as int) == jstr(k) + seq![':'] + tracker_json(t) + rest,
    ensures
        parse_pair(s, i) == Some(
            ((k, t), i + jstr(k).len() + 1 + tracker_json(t).len()),
        ),
{
    assert(jstr(k) + seq![':'] + tracker_json(t) + rest =~= jstr(k) + seq![':'] + (tracker_json(t)
        + rest));
    lemma_read_named(s, i, k, tracker_json(t) + rest);
    let q = i + jstr(k).len() + 1;
    assert((jstr(k) + seq![':']) + (tracker_json(t) + rest) =~= jstr(k) + seq![':'] + (
    tracker_json(t) + rest));
    lemma_subrange_concat(s, i, jstr(k) + seq![':'], tracker_json(t) + rest);
    lemma_read_tracker(s, q, t, rest);
}

/// The pairs after the first, each with its leading comma.
spec fn rest_pairs_json(es: Seq<(Seq<char>, TrackerModel)>) -> Seq<char>
    decreases es.len(),
{
    if es.len() == 0 {
        Seq::empty()
    } else {
        seq![','] + jstr(es[0].0) + seq![':'] + tracker_json(es[0].1) + rest_pairs_json(
            es.drop_first(),
        )
    }
}

/// A nonempty rendered pair list is its first pair then the rest.
proof fn lemma_pairs_split(es: Seq<(Seq<char>, TrackerModel)>)
    requires
        es.len() > 0,
    ensures
        pairs_json(es) == jstr(es[0].0) + seq![':'] + tracker_json(es[0].1) + rest_pairs_json(
            es.drop_first(),
        ),
    decreases es.len(),
{
    if es.len() == 1 {
        assert(rest_pairs_json(es.drop_first()) =~= Seq::<char>::empty());
        assert(pairs_json(es) =~= jstr(es[0].0) + seq![':'] + tracker_json(es[0].1)
            + rest_pairs_json(es.drop_first()));
    } else {
        lemma_pairs_split(es.drop_first());
        assert(pairs_json(es) =~= jstr(es[0].0) + seq![':'] + tracker_json(es[0].1)
            + rest_pairs_json(es.drop_first()));
    }
}

/// Reading the rendered tail of a pair list collects the pairs.
#[verifier::rlimit(100)]
#[verifier::spinoff_prover]
proof fn lemma_read_pairs(
    s: Seq<char>,
    i: int,
    es: Seq<(Seq<char>, TrackerModel)>,
    acc: Seq<(Seq<char>, TrackerModel)>,
    rest: Seq<char>,
)
    requires
        0 <= i <= s.len(),
        forall|q: int| 0 <= q < es.len() ==> (#[trigger] es[q]).1.start_time.wf(),
        s.subrange(i, s.len() as int) == rest_pairs_json(es) + seq!['}'] + rest,
    ensures
        parse_pairs(s, i, acc) == Some((acc + es, i + rest_pairs_json(es).len() + 1)),
    decreases es.len(),
{
    if es.len() == 0 {
        assert(rest_pairs_json(es) =~= Seq::<char>::empty());
        assert(rest_pairs_json(es) + seq!['}'] + rest =~= seq!['}'] + rest);
        lemma_subrange_concat(s, i, seq!['}'], rest);
        assert(seq!['}'][0] == '}');
        assert(s[i] == '}');
        assert(('}' as u32) == 125 && !is_ws_char('}'));
        lemma_skip_ws_noop(s, i);
        assert(acc + es =~= acc);
    } else {
        let k = es[0].0;
        let t = es[0].1;
        let tail = es.drop_first();
        assert(rest_pairs_json(es) == seq![','] + jstr(k) + seq![':'] + tracker_json(t)
            + rest_pairs_json(tail));
        let after = jstr(k) + seq![':'] + tracker_json(t) + (rest_pairs_json(tail) + seq!['}']
            + rest);
        assert(rest_pairs_json(es) + seq!['}'] + rest =~= seq![','] + after);
        lemma_subrange_concat(s, i, seq![','], after);
        assert(seq![','][0] == ',');
        assert(s[i] == ',');
        assert((',' as u32) == 44 && ('}' as u32) == 125 && !is_ws_char(','));
        lemma_skip_ws_noop(s, i);
        assert(after =~= jstr(k) + seq![':'] + tracker_json(t) + (rest_pairs_json(tail)
            + seq!['}'] + rest));
        lemma_read_pair(s, i + 1, k, t, rest_pairs_json(tail) + seq!['}'] + rest);
        let j = i + 1 + jstr(k).len() as int + 1 + tracker_json(t).len() as int;
        assert(after =~= (jstr(k) + seq![':'] + tracker_json(t)) + (rest_pairs_json(tail)
            + seq!['}'] + rest));
        lemma_subrange_concat(
            s,
            i + 1,
            jstr(k) + seq![':'] + tracker_json(t),
            rest_pairs_json(tail) + seq!['}'] + rest,
        );
        assert forall|q: int| 0 <= q < tail.len() implies (
        #[trigger] tail[q]).1.start_time.wf() by {
            assert(tail[q] == es[q + 1]);
        }
        lemma_read_pairs(s, j, tail, acc.push((k, t)), rest);
        assert(acc.push((k, t)) + tail =~= acc + es);
    }
}

/// Reading a rendered tracker map gives back the entries in order.
#[verifier::rlimit(100)]
#[verifier::spinoff_prover]
proof fn lemma_read_trackers(
    s: Seq<char>,
    i: int,
    es: Seq<(Seq<char>, TrackerModel)>,
    rest: Seq<char>,
)
    requires
        0 <= i <= s.len(),
        forall|q: int| 0 <= q < es.len() ==> (#[trigger] es[q]).1.start_time.wf(),
        s.subrange(i, s.len() as int) == trackers_json(es) + rest,
    ensures
        parse_trackers(s, i) == Some((es, i + trackers_json(es).len())),
{
    assert(trackers_json(es) + rest =~= seq!['{'] + (pairs_json(es) + seq!['}'] + rest));
    lemma_subrange_concat(s, i, seq!['{'], pairs_json(es) + seq!['}'] + rest);
    assert(seq!['{'][0] == '{');
    assert(s[i] == '{');
    assert(('{' as u32) == 123 && !is_ws_char('{'));
    lemma_skip_ws_noop(s, i);
    assert(expect_char(s, i, '{') == Some(i + 1));
    let a = i + 1;
    if es.len() == 0 {
        assert(pairs_json(es) =~= Seq::<char>::empty());
        assert(pairs_json(es) + seq!['}'] + rest =~= seq!['}'] + rest);
        lemma_subrange_concat(s, a, seq!['}'], rest);
        assert(seq!['}'][0] == '}');
        assert(s[a] == '}');
        assert(('}' as u32) == 125 && !is_ws_char('}'));
        lemma_skip_ws_noop(s, a);
        assert(es =~= Seq::<(Seq<char>, TrackerModel)>::empty());
    } else {
        let k = es[0].0;
        let t = es[0].1;
        let tail = es.drop_first();
        lemma_pairs_split(es);
        let after = rest_pairs_json(tail) + seq!['}'] + rest;
        assert(pairs_json(es) + seq!['}'] + rest =~= jstr(k) + seq![':'] + tracker_json(t)
            + after);
        assert(s.subrange(a, s.len() as int) =~= jstr(k) + seq![':'] + tracker_json(t) + after);
        assert(s[a] == '"') by {
            assert((seq!['"'] + esc_str(k))[0] == '"');
            assert(jstr(k)[0] == '"');
            assert((jstr(k) + seq![':'] + tracker_json(t) + after)[0] == '"');
        }
        assert(('"' as u32) == 34 && ('}' as u32) == 125 && !is_ws_char('"'));
        lemma_skip_ws_noop(s, a);
        assert(skip_ws(s, a) == a && s[a] != '}');
        lemma_read_pair(s, a, k, t, after);
        let j = a + jstr(k).len() as int + 1 + tracker_json(t).len() as int;
        assert((jstr(k) + seq![':'] + tracker_json(t)) + after =~= jstr(k) + seq![':']
            + tracker_json(t) + after);
        lemma_subrange_concat(s, a, jstr(k) + seq![':'] + tracker_json(t), after);
        assert forall|q: int| 0 <= q < tail.len() implies (
        #[trigger] tail[q]).1.start_time.wf() by {
            assert(tail[q] == es[q + 1]);
        }
        lemma_read_pairs(s, j, tail, seq![(k, t)], rest);
        assert(seq![(k, t)] + tail =~= es);
    }
}

/// Reading a rendered running pointer gives it back.
#[verifier::rlimit(100)]
#[verifier::spinoff_prover]
proof fn lemma_read_running(s: Seq<char>, i: int, r: Option<RunStampModel>, rest: Seq<char>)
    requires
        0 <= i <= s.len(),
        s.subrange(i, s.len() as int) == running_json(r) + rest,
    ensures
        parse_running(s, i) == Some((r, i + running_json(r).len())),
{
    match r {
        None => {
            lemma_subrange_concat(s, i, seq!['n', 'u', 'l', 'l'], rest);
            assert(seq!['n', 'u', 'l', 'l'][0] == 'n');
            assert(s[i] == 'n');
            assert(('n' as u32) == 110 && !is_ws_char('n'));
            lemma_skip_ws_noop(s, i);
            assert(parse_lit(s, i, seq!['n', 'u', 'l', 'l']) == Some(i + 4));
        },
        Some(rs) => {
            let key_grp = jstr("key"@) + seq![':'];
            let after_open = key_grp + (jstr(rs.key) + (seq![','] + ((jstr("startTime"@)
                + seq![':']) + (dec_chars(rs.wall_start) + (seq!['}'] + rest)))));
            assert(running_json(r) + rest =~= seq!['{'] + after_open);
            lemma_subrange_concat(s, i, seq!['{'], after_open);
            assert(seq!['{'][0] == '{');
            assert(s[i] == '{');
            assert(('{' as u32) == 123 && ('n' as u32) == 110 && !is_ws_char('{'));
            lemma_skip_ws_noop(s, i);
            let a = i + 1;
            assert(after_open =~= jstr("key"@) + seq![':'] + (jstr(rs.key) + (seq![','] + ((jstr(
                "startTime"@,
            ) + seq![':']) + (dec_chars(rs.wall_start) + (seq!['}'] + rest))))));
            lemma_read_named(
                s,
                a,
                "key"@,
                jstr(rs.key) + (seq![','] + ((jstr("startTime"@) + seq![':']) + (dec_chars(
                    rs.wall_start,
                ) + (seq!['}'] + rest)))),
            );
            let q1 = a + jstr("key"@).len() as int + 1;
            lemma_subrange_concat(
                s,
                a,
                key_grp,
                jstr(rs.key) + (seq![','] + ((jstr("startTime"@) + seq![':']) + (dec_chars(
                    rs.wall_start,
                ) + (seq!['}'] + rest)))),
            );
            lemma_read_jstr(
                s,
                q1,
                rs.key,
                seq![','] + ((jstr("startTime"@) + seq![':']) + (dec_chars(rs.wall_start) + (
                seq!['}'] + rest))),
            );
            let p = q1 + jstr(rs.key).len() as int;
            lemma_subrange_concat(
                s,
                q1,
                jstr(rs.key),
                seq![','] + ((jstr("startTime"@) + seq![':']) + (dec_chars(rs.wall_start) + (
                seq!['}'] + rest))),
            );
            lemma_subrange_concat(
                s,
                p,
                seq![','],
                (jstr("startTime"@) + seq![':']) + (dec_chars(rs.wall_start) + (seq!['}'] + rest)),
            );
            assert(seq![','][0] == ',');
            assert(s[p] == ',');
            assert((',' as u32) == 44 && !is_ws_char(','));
            lemma_skip_ws_noop(s, p);
            let r1 = p + 1;
            assert(s.subrange(r1, s.len() as int) =~= jstr("startTime"@) + seq![':'] + (dec_chars(
                rs.wall_start,
            ) + (seq!['}'] + rest)));
            lemma_read_named(s, r1, "startTime"@, dec_chars(rs.wall_start) + (seq!['}'] + rest));
            let q2 = r1 + jstr("startTime"@).len() as int + 1;
            lemma_subrange_concat(
                s,
                r1,
                jstr("startTime"@) + seq![':'],
                dec_chars(rs.wall_start) + (seq!['}'] + rest),
            );
            crate::chars::lemma_dec_chars_val(rs.wall_start);
            assert(s[q2] == dec_chars(rs.wall_start)[0]) by {
                lemma_subrange_concat(s, q2, dec_chars(rs.wall_start), seq!['}'] + rest);
            }
            assert(!is_ws_char(s[q2])) by {
                assert(is_digit_char(dec_chars(rs.wall_start)[0]));
                assert(!is_digit_char(' ') && !is_digit_char('\n') && !is_digit_char('\r')
                    && !is_digit_char('\t'));
            }
            assert((seq!['}'] + rest)[0] == '}');
            assert(!is_digit_char('}'));
            lemma_read_u64(s, q2, rs.wall_start, seq!['}'] + rest);
            let p2 = q2 + dec_chars(rs.wall_start).len() as int;
            lemma_subrange_concat(s, q2, dec_chars(rs.wall_start), seq!['}'] + rest);
            lemma_subrange_concat(s, p2, seq!['}'], rest);
            assert(seq!['}'][0] == '}');
            assert(s[p2] == '}');
            assert(('}' as u32) == 125 && !is_ws_char('}'));
            lemma_skip_ws_noop(s, p2);
            assert(s[i] != 'n');
        },
    }
}

/// Writing a snapshot and reading the text back yields the same snapshot:
/// the persisted store survives the save/load round trip, key for key,
/// duration for duration, adjustment for adjustment, and with the same
/// running pointer.
#[verifier::rlimit(100)]
#[verifier::spinoff_prover]
pub proof fn lemma_snapshot_round_trip(m: SnapModel)
    requires
        crate::snapshot::snap_wf(m),
    ensures
        spec_parse_snapshot(snapshot_json(m)) == Some(m),
{
    let s = snapshot_json(m);
    let run_grp = jstr("running"@) + seq![':'];
    let tr_grp = jstr("trackers"@) + seq![':'];
    let after_open = run_grp + (running_json(m.running) + (seq![','] + (tr_grp + (trackers_json(
        m.trackers,
    ) + seq!['}']))));
    assert(s =~= seq!['{'] + after_open);
    assert(s.subrange(0, s.len() as int) =~= s);
    lemma_subrange_concat(s, 0, seq!['{'], after_open);
    assert(seq!['{'][0] == '{');
    assert(s[0] == '{');
    assert(('{' as u32) == 123 && !is_ws_char('{'));
    lemma_skip_ws_noop(s, 0);
    let a: int = 1;
    assert(s.subrange(a, s.len() as int) =~= jstr("running"@) + seq![':'] + (running_json(
        m.running,
    ) + (seq![','] + (tr_grp + (trackers_json(m.trackers) + seq!['}'])))));
    lemma_read_named(
        s,
        a,
        "running"@,
        running_json(m.running) + (seq![','] + (tr_grp + (trackers_json(m.trackers)
            + seq!['}']))),
    );
    let q1 = a + jstr("running"@).len() as int + 1;
    lemma_subrange_concat(
        s,
        a,
        run_grp,
        running_json(m.running) + (seq![','] + (tr_grp + (trackers_json(m.trackers)
            + seq!['}']))),
    );
    lemma_read_running(
        s,
        q1,
        m.running,
        seq![','] + (tr_grp + (trackers_json(m.trackers) + seq!['}'])),
    );
    let p = q1 + running_json(m.running).len() as int;
    lemma_subrange_concat(
        s,
        q1,
        running_json(m.running),
        seq![','] + (tr_grp + (trackers_json(m.trackers) + seq!['}'])),
    );
    lemma_subrange_concat(s, p, seq![','], tr_grp + (trackers_json(m.trackers) + seq!['}']));
    assert(seq![','][0] == ',');
    assert(s[p] == ',');
    assert((',' as u32) == 44 && !is_ws_char(','));
    lemma_skip_ws_noop(s, p);
    let r1: int = p + 1;
    assert(s.subrange(r1, s.len() as int) =~= jstr("trackers"@) + seq![':'] + (trackers_json(
        m.trackers,
    ) + seq!['}']));
    lemma_read_named(s, r1, "trackers"@, trackers_json(m.trackers) + seq!['}']);
    let q2 = r1 + jstr("trackers"@).len() as int + 1;
    lemma_subrange_concat(s, r1, tr_grp, trackers_json(m.trackers) + seq!['}']);
    lemma_read_trackers(s, q2, m.trackers, seq!['}']);
    let p2 = q2 + trackers_json(m.trackers).len() as int;
    lemma_subrange_concat(s, q2, trackers_json(m.trackers), seq!['}']);
    lemma_subrange_concat(s, p2, seq!['}'], Seq::<char>::empty());
    assert(seq!['}'][0] == '}');
    assert(s[p2] == '}');
    assert(('}' as u32) == 125 && !is_ws_char('}'));
    lemma_skip_ws_noop(s, p2);
    let r2 = p2 + 1;
    assert(r2 == s.len());
    assert(skip_ws(s, r2) == s.len());
    assert(parse_snapshot_body(s) == Some(SnapModel { running: m.running, trackers: m.trackers }));
    assert(SnapModel { running: m.running, trackers: m.trackers } == m);
}

} // verus!
