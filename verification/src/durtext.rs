//! The duration text format used in the snapshot file: a space-separated
//! list of value/unit tokens, largest unit first, as in `1d 2h 3m 4s 5ms`.
//! Zero components are omitted; a zero duration is written `0s`.  Reading
//! accepts any token list and sums it, so hand-written forms such as
//! `90m` or `1h 30m` name the same duration.
use vstd::prelude::*;

use crate::chars::{all_digits, dec_chars, dec_val, digit_value, is_digit, is_digit_char,
    digit_val, lemma_dec_chars_val, lemma_dec_val_nonneg, lemma_subrange_concat, push_u64};
use crate::dur::{sat_add, sat_mul, Dur, NANOS_PER_SEC};

verus! {

pub const NANOS_PER_DAY: u64 = 86_400_000_000_000;

pub const NANOS_PER_HOUR: u64 = 3_600_000_000_000;

pub const NANOS_PER_MIN: u64 = 60_000_000_000;

pub const NANOS_PER_MILLI: u64 = 1_000_000;

pub const NANOS_PER_MICRO: u64 = 1_000;

/// Unit names are lowercase ASCII letters.
pub open spec fn is_unit_char(c: char) -> bool {
    let u = c as u32;
    97 <= u && u <= 122
}

fn unit_char(c: char) -> (r: bool)
    ensures
        r == is_unit_char(c),
{
    let u = c as u32;
    97 <= u && u <= 122
}

/// The nanoseconds named by a unit token, if it is a known unit.
pub open spec fn unit_mult(u: Seq<char>) -> Option<u64> {
    if u == seq!['d'] {
        Some(NANOS_PER_DAY)
    } else if u == seq!['h'] {
        Some(NANOS_PER_HOUR)
    } else if u == seq!['m'] {
        Some(NANOS_PER_MIN)
    } else if u == seq!['s'] {
        Some(NANOS_PER_SEC)
    } else if u == seq!['m', 's'] {
        Some(NANOS_PER_MILLI)
    } else if u == seq!['u', 's'] {
        Some(NANOS_PER_MICRO)
    } else if u == seq!['n', 's'] {
        Some(1u64)
    } else {
        None
    }
}

/// One rendered component, or nothing when its value is zero.
pub open spec fn opt_part(v: u64, u: Seq<char>) -> Seq<(u64, Seq<char>)> {
    if v == 0 {
        Seq::empty()
    } else {
        seq![(v, u)]
    }
}

/// The canonical components of a duration, largest unit first.
pub open spec fn dur_parts(n: u64) -> Seq<(u64, Seq<char>)> {
    if n == 0 {
        seq![(0u64, seq!['s'])]
    } else {
        let d = n / NANOS_PER_DAY;
        let r1 = n % NANOS_PER_DAY;
        let h = r1 / NANOS_PER_HOUR;
        let r2 = r1 % NANOS_PER_HOUR;
        let mi = r2 / NANOS_PER_MIN;
        let r3 = r2 % NANOS_PER_MIN;
        let s = r3 / NANOS_PER_SEC;
        let r4 = r3 % NANOS_PER_SEC;
        let ms = r4 / NANOS_PER_MILLI;
        let r5 = r4 % NANOS_PER_MILLI;
        let us = r5 / NANOS_PER_MICRO;
        let ns = r5 % NANOS_PER_MICRO;
        opt_part(d, seq!['d']) + opt_part(h, seq!['h']) + opt_part(mi, seq!['m']) + opt_part(
            s,
            seq!['s'],
        ) + opt_part(ms, seq!['m', 's']) + opt_part(us, seq!['u', 's']) + opt_part(
            ns,
            seq!['n', 's'],
        )
    }
}

/// One token's text: the decimal value directly followed by its unit.
pub open spec fn token_chars(p: (u64, Seq<char>)) -> Seq<char> {
    dec_chars(p.0) + p.1
}

/// A token list's text: tokens joined by single spaces.
pub open spec fn tokens_chars(ps: Seq<(u64, Seq<char>)>) -> Seq<char>
    decreases ps.len(),
{
    if ps.len() == 0 {
        Seq::empty()
    } else if ps.len() == 1 {
        token_chars(ps[0])
    } else {
        token_chars(ps[0]) + seq![' '] + tokens_chars(ps.drop_first())
    }
}

/// The canonical text of a duration.
pub open spec fn dur_chars(n: u64) -> Seq<char> {
    tokens_chars(dur_parts(n))
}

/// The saturating value of a token list, starting from `acc`.
pub open spec fn tokens_value(ps: Seq<(u64, Seq<char>)>, acc: u64) -> u64
    decreases ps.len(),
{
    if ps.len() == 0 {
        acc
    } else {
        tokens_value(
            ps.drop_first(),
            sat_add(acc, sat_mul(ps[0].0, unit_mult(ps[0].1)->Some_0)),
        )
    }
}

/// The end of the run of decimal digits starting at `i`.
pub open spec fn digit_run_end(s: Seq<char>, i: int) -> int
    decreases s.len() - i,
{
    if i < 0 || i >= s.len() {
        i
    } else if !is_digit_char(s[i]) {
        i
    } else {
        digit_run_end(s, i + 1)
    }
}

/// The end of the run of unit letters starting at `i`.
pub open spec fn unit_run_end(s: Seq<char>, i: int) -> int
    decreases s.len() - i,
{
    if i < 0 || i >= s.len() {
        i
    } else if !is_unit_char(s[i]) {
        i
    } else {
        unit_run_end(s, i + 1)
    }
}

pub proof fn lemma_digit_run_end(s: Seq<char>, i: int)
    requires
        0 <= i <= s.len(),
    ensures
        i <= digit_run_end(s, i) <= s.len(),
        forall|q: int| i <= q < digit_run_end(s, i) ==> is_digit_char(#[trigger] s[q]),
        digit_run_end(s, i) == s.len() || !is_digit_char(s[digit_run_end(s, i)]),
    decreases s.len() - i,
{
    if i < s.len() && is_digit_char(s[i]) {
        lemma_digit_run_end(s, i + 1);
    }
}

pub proof fn lemma_digit_run_end_is(s: Seq<char>, i: int, j: int)
    requires
        0 <= i <= j <= s.len(),
        forall|q: int| i <= q < j ==> is_digit_char(#[trigger] s[q]),
        j == s.len() || !is_digit_char(s[j]),
    ensures
        digit_run_end(s, i) == j,
    decreases j - i,
{
    if i < j {
        lemma_digit_run_end_is(s, i + 1, j);
    }
}

pub proof fn lemma_unit_run_end(s: Seq<char>, i: int)
    requires
        0 <= i <= s.len(),
    ensures
        i <= unit_run_end(s, i) <= s.len(),
        forall|q: int| i <= q < unit_run_end(s, i) ==> is_unit_char(#[trigger] s[q]),
        unit_run_end(s, i) == s.len() || !is_unit_char(s[unit_run_end(s, i)]),
    decreases s.len() - i,
{
    if i < s.len() && is_unit_char(s[i]) {
        lemma_unit_run_end(s, i + 1);
    }
}

pub proof fn lemma_unit_run_end_is(s: Seq<char>, i: int, j: int)
    requires
        0 <= i <= j <= s.len(),
        forall|q: int| i <= q < j ==> is_unit_char(#[trigger] s[q]),
        j == s.len() || !is_unit_char(s[j]),
    ensures
        unit_run_end(s, i) == j,
    decreases j - i,
{
    if i < j {
        lemma_unit_run_end_is(s, i + 1, j);
    }
}

/// Reads a token list from `i` on, accumulating into `acc`; `seen` records
/// whether a token has been read yet.  `None` on any malformed text.
pub open spec fn parse_dur_from(s: Seq<char>, i: int, acc: u64, seen: bool) -> Option<u64>
    decreases s.len() - i,
    when 0 <= i
    via parse_dur_from_dec
{
    if i >= s.len() {
        if seen {
            Some(acc)
        } else {
            None
        }
    } else if s[i] == ' ' {
        parse_dur_from(s, i + 1, acc, seen)
    } else {
        let j = digit_run_end(s, i);
        if j == i {
            None
        } else if dec_val(s.subrange(i, j)) > u64::MAX {
            None
        } else {
            let v = dec_val(s.subrange(i, j)) as u64;
            let k = unit_run_end(s, j);
            if k == j {
                None
            } else {
                match unit_mult(s.subrange(j, k)) {
                    Some(mult) => parse_dur_from(s, k, sat_add(acc, sat_mul(v, mult)), true),
                    None => None,
                }
            }
        }
    }
}

#[via_fn]
proof fn parse_dur_from_dec(s: Seq<char>, i: int, acc: u64, seen: bool) {
    if 0 <= i < s.len() && s[i] != ' ' {
        lemma_digit_run_end(s, i);
        lemma_unit_run_end(s, digit_run_end(s, i));
    }
}

/// The whole of `content` as a duration.
pub open spec fn spec_parse_duration(content: Seq<char>) -> Option<u64> {
    parse_dur_from(content, 0, 0, false)
}

fn mul_sat(a: u64, b: u64) -> (r: u64)
    ensures
        r == sat_mul(a, b),
{
    match a.checked_mul(b) {
        Some(x) => x,
        None => u64::MAX,
    }
}

/// Reads the digit run at `i`: its end, and its value unless it exceeds
/// `u64`.
pub(crate) fn read_number(v: &Vec<char>, i: usize) -> (r: (usize, Option<u64>))
    requires
        i <= v@.len(),
    ensures
        r.0 == digit_run_end(v@, i as int),
        i <= r.0 <= v@.len(),
        match r.1 {
            Some(val) => dec_val(v@.subrange(i as int, r.0 as int)) == val,
            None => dec_val(v@.subrange(i as int, r.0 as int)) > u64::MAX,
        },
{
    let n = v.len();
    let mut j = i;
    let mut acc: u64 = 0;
    let mut over = false;
    while j < n && is_digit(v[j])
        invariant
            i <= j <= n,
            n == v@.len(),
            forall|q: int| i <= q < j ==> is_digit_char(#[trigger] v@[q]),
            !over ==> acc == dec_val(v@.subrange(i as int, j as int)),
            over ==> dec_val(v@.subrange(i as int, j as int)) > u64::MAX,
        decreases n - j,
    {
        let d = digit_value(v[j]);
        let ghost pre = v@.subrange(i as int, j as int);
        proof {
            assert(v@.subrange(i as int, j + 1 as int).drop_last() =~= pre);
            assert(v@.subrange(i as int, j + 1 as int).last() == v@[j as int]);
            lemma_dec_val_nonneg(pre);
        }
        if !over {
            let stepped = match acc.checked_mul(10) {
                Some(x) => x.checked_add(d),
                None => None,
            };
            match stepped {
                Some(y) => {
                    acc = y;
                },
                None => {
                    over = true;
                },
            }
        }
        j += 1;
    }
    proof {
        lemma_digit_run_end_is(v@, i as int, j as int);
    }
    (j, if over {
        None
    } else {
        Some(acc)
    })
}

/// The end of the unit-letter run at `i`.
fn read_unit_end(v: &Vec<char>, i: usize) -> (r: usize)
    requires
        i <= v@.len(),
    ensures
        r == unit_run_end(v@, i as int),
        i <= r <= v@.len(),
{
    let n = v.len();
    let mut j = i;
    while j < n && unit_char(v[j])
        invariant
            i <= j <= n,
            n == v@.len(),
            forall|q: int| i <= q < j ==> is_unit_char(#[trigger] v@[q]),
        decreases n - j,
    {
        j += 1;
    }
    proof {
        lemma_unit_run_end_is(v@, i as int, j as int);
    }
    j
}

/// The multiplier of the unit written at `[j, k)`.
fn unit_lookup(v: &Vec<char>, j: usize, k: usize) -> (r: Option<u64>)
    requires
        j <= k <= v@.len(),
    ensures
        r == unit_mult(v@.subrange(j as int, k as int)),
{
    let ghost sub = v@.subrange(j as int, k as int);
    if k - j == 1 {
        let c = v[j];
        proof {
            assert(sub =~= seq![v@[j as int]]);
            assert(sub[0] == c);
            assert(seq!['d'][0] == 'd');
            assert(seq!['h'][0] == 'h');
            assert(seq!['m'][0] == 'm');
            assert(seq!['s'][0] == 's');
            assert(seq!['m', 's'].len() == 2);
            assert(seq!['u', 's'].len() == 2);
            assert(seq!['n', 's'].len() == 2);
        }
        if c == 'd' {
            proof {
                assert(unit_mult(sub) == Some(NANOS_PER_DAY));
            }
            Some(NANOS_PER_DAY)
        } else if c == 'h' {
            proof {
                assert(unit_mult(sub) == Some(NANOS_PER_HOUR));
            }
            Some(NANOS_PER_HOUR)
        } else if c == 'm' {
            proof {
                assert(unit_mult(sub) == Some(NANOS_PER_MIN));
            }
            Some(NANOS_PER_MIN)
        } else if c == 's' {
            proof {
                assert(unit_mult(sub) == Some(NANOS_PER_SEC));
            }
            Some(NANOS_PER_SEC)
        } else {
            proof {
                assert(unit_mult(sub) is None);
            }
            None
        }
    } else if k - j == 2 {
        let c0 = v[j];
        let c1 = v[j + 1];
        proof {
            assert(sub =~= seq![v@[j as int], v@[j + 1 as int]]);
            assert(sub[0] == c0 && sub[1] == c1);
            assert(seq!['d'].len() == 1 && seq!['h'].len() == 1);
            assert(seq!['m'].len() == 1 && seq!['s'].len() == 1);
            assert(seq!['m', 's'][0] == 'm' && seq!['m', 's'][1] == 's');
            assert(seq!['u', 's'][0] == 'u' && seq!['u', 's'][1] == 's');
            assert(seq!['n', 's'][0] == 'n' && seq!['n', 's'][1] == 's');
        }
        if c0 == 'm' && c1 == 's' {
            proof {
                assert(unit_mult(sub) == Some(NANOS_PER_MILLI));
            }
            Some(NANOS_PER_MILLI)
        } else if c0 == 'u' && c1 == 's' {
            proof {
                assert(unit_mult(sub) == Some(NANOS_PER_MICRO));
            }
            Some(NANOS_PER_MICRO)
        } else if c0 == 'n' && c1 == 's' {
            proof {
                assert(unit_mult(sub) == Some(1u64));
            }
            Some(1)
        } else {
            proof {
                assert(unit_mult(sub) is None);
            }
            None
        }
    } else {
        proof {
            assert(sub.len() != 1 && sub.len() != 2);
            assert(seq!['d'].len() == 1 && seq!['h'].len() == 1);
            assert(seq!['m'].len() == 1 && seq!['s'].len() == 1);
            assert(seq!['m', 's'].len() == 2 && seq!['u', 's'].len() == 2 && seq!['n', 's'].len()
                == 2);
            assert(unit_mult(sub) is None);
        }
        None
    }
}

/// Reads the whole of `content` as a duration: a nonempty list of
/// value/unit tokens, summed with saturation.
pub fn parse_duration(content: &Vec<char>) -> (r: Option<Dur>)
    ensures
        match spec_parse_duration(content@) {
            Some(n) => r == Some(Dur { nanos: n }),
            None => r is None,
        },
{
    let n = content.len();
    let mut i: usize = 0;
    let mut acc: u64 = 0;
    let mut seen = false;
    loop
        invariant
            i <= n,
            n == content@.len(),
            parse_dur_from(content@, 0, 0, false) == parse_dur_from(
                content@,
                i as int,
                acc,
                seen,
            ),
        decreases n - i,
    {
        if i >= n {
            return if seen {
                Some(Dur::from_nanos(acc))
            } else {
                None
            };
        }
        let c = content[i];
        if c == ' ' {
            i += 1;
            continue ;
        }
        let (j, val) = read_number(content, i);
        if j == i {
            return None;
        }
        let v = match val {
            Some(v) => v,
            None => {
                return None;
            },
        };
        let k = read_unit_end(content, j);
        if k == j {
            return None;
        }
        let mult = match unit_lookup(content, j, k) {
            Some(m) => m,
            None => {
                return None;
            },
        };
        acc = acc.saturating_add(mul_sat(v, mult));
        seen = true;
        i = k;
    }
}

/// Joining one more token onto rendered text.
pub proof fn lemma_tokens_push(ps: Seq<(u64, Seq<char>)>, p: (u64, Seq<char>))
    ensures
        tokens_chars(ps.push(p)) == if ps.len() == 0 {
            token_chars(p)
        } else {
            tokens_chars(ps) + seq![' '] + token_chars(p)
        },
    decreases ps.len(),
{
    if ps.len() == 0 {
        assert(ps.push(p) =~= seq![p]);
        assert(ps.push(p)[0] == p);
    } else {
        assert(ps.push(p).drop_first() =~= ps.drop_first().push(p));
        lemma_tokens_push(ps.drop_first(), p);
        if ps.len() == 1 {
            assert(ps.drop_first() =~= Seq::<(u64, Seq<char>)>::empty());
            assert(tokens_chars(ps.push(p)) =~= tokens_chars(ps) + seq![' '] + token_chars(p));
        } else {
            assert(tokens_chars(ps.push(p)) =~= tokens_chars(ps) + seq![' '] + token_chars(p));
        }
    }
}

/// Appends one nonzero component, with a separating space when text has
/// been written already; reports whether any text has been written.
fn push_component(
    out: &mut Vec<char>,
    started: bool,
    v: u64,
    unit: Ghost<Seq<char>>,
    u0: char,
    u1: Option<char>,
) -> (r: bool)
    requires
        unit@ == (match u1 {
            None => seq![u0],
            Some(c1) => seq![u0, c1],
        }),
    ensures
        v == 0 ==> final(out)@ == old(out)@ && r == started,
        v != 0 ==> final(out)@ == old(out)@ + (if started {
            seq![' ']
        } else {
            Seq::<char>::empty()
        }) + token_chars((v, unit@)) && r,
{
    if v == 0 {
        return started;
    }
    if started {
        out.push(' ');
    }
    push_u64(out, v);
    out.push(u0);
    match u1 {
        Some(c1) => {
            out.push(c1);
            proof {
                assert(unit@ =~= seq![u0, c1]);
                assert(out@ =~= old(out)@ + (if started {
                    seq![' ']
                } else {
                    Seq::<char>::empty()
                }) + token_chars((v, unit@)));
            }
        },
        None => {
            proof {
                assert(unit@ =~= seq![u0]);
                assert(out@ =~= old(out)@ + (if started {
                    seq![' ']
                } else {
                    Seq::<char>::empty()
                }) + token_chars((v, unit@)));
            }
        },
    }
    true
}

/// One ghost bookkeeping step for `push_component`: the token list grows
/// when the component is nonzero, and the text grows to match.
proof fn lemma_emit_step(
    ps: Seq<(u64, Seq<char>)>,
    v: u64,
    unit: Seq<char>,
    pre: Seq<char>,
    txt: Seq<char>,
)
    requires
        txt == pre + tokens_chars(ps),
    ensures
        v != 0 ==> pre + tokens_chars(ps.push((v, unit))) == txt + (if ps.len() == 0 {
            Seq::<char>::empty()
        } else {
            seq![' ']
        }) + token_chars((v, unit)),
        v == 0 ==> pre + tokens_chars(ps + opt_part(v, unit)) == txt,
        v != 0 ==> ps + opt_part(v, unit) == ps.push((v, unit)),
{
    lemma_tokens_push(ps, (v, unit));
    if v != 0 {
        assert(ps + opt_part(v, unit) =~= ps.push((v, unit)));
        if ps.len() == 0 {
            assert(pre + tokens_chars(ps.push((v, unit))) =~= txt + Seq::<char>::empty()
                + token_chars((v, unit)));
        } else {
            assert(pre + tokens_chars(ps.push((v, unit))) =~= txt + seq![' '] + token_chars(
                (v, unit),
            ));
        }
    } else {
        assert(ps + opt_part(v, unit) =~= ps);
    }
}

/// Appends the canonical text of a duration of `n` nanoseconds.
#[verifier::rlimit(100)]
#[verifier::spinoff_prover]
pub fn push_duration(out: &mut Vec<char>, n: u64)
    ensures
        final(out)@ == old(out)@ + dur_chars(n),
{
    if n == 0 {
        out.push('0');
        out.push('s');
        proof {
            assert(dec_chars(0) =~= seq!['0']);
            assert(dur_chars(0) =~= seq!['0', 's']);
            assert(out@ =~= old(out)@ + dur_chars(0));
        }
        return ;
    }
    let d = n / NANOS_PER_DAY;
    let r1 = n % NANOS_PER_DAY;
    let h = r1 / NANOS_PER_HOUR;
    let r2 = r1 % NANOS_PER_HOUR;
    let mi = r2 / NANOS_PER_MIN;
    let r3 = r2 % NANOS_PER_MIN;
    let s = r3 / NANOS_PER_SEC;
    let r4 = r3 % NANOS_PER_SEC;
    let ms = r4 / NANOS_PER_MILLI;
    let r5 = r4 % NANOS_PER_MILLI;
    let us = r5 / NANOS_PER_MICRO;
    let ns = r5 % NANOS_PER_MICRO;
    let ghost mut emitted: Seq<(u64, Seq<char>)> = Seq::empty();
    let ghost ud: Seq<char> = seq!['d'];
    let ghost uh: Seq<char> = seq!['h'];
    let ghost umin: Seq<char> = seq!['m'];
    let ghost usec: Seq<char> = seq!['s'];
    let ghost ums: Seq<char> = seq!['m', 's'];
    let ghost uus: Seq<char> = seq!['u', 's'];
    let ghost uns: Seq<char> = seq!['n', 's'];
    let ghost pre = out@;
    let mut started = false;
    proof {
        assert(tokens_chars(emitted) =~= Seq::<char>::empty());
        assert(out@ =~= pre + tokens_chars(emitted));
    }
    let ghost txt0 = out@;
    proof {
        lemma_emit_step(emitted, d, seq!['d'], pre, txt0);
    }
    started = push_component(out, started, d, Ghost(ud), 'd', None);
    proof {
        emitted = emitted + opt_part(d, seq!['d']);
        assert(out@ == pre + tokens_chars(emitted));
        assert(started == (emitted.len() != 0));
    }
    let ghost txt1 = out@;
    proof {
        lemma_emit_step(emitted, h, seq!['h'], pre, txt1);
    }
    started = push_component(out, started, h, Ghost(uh), 'h', None);
    proof {
        emitted = emitted + opt_part(h, seq!['h']);
        assert(out@ == pre + tokens_chars(emitted));
        assert(started == (emitted.len() != 0));
    }
    let ghost txt2 = out@;
    proof {
        lemma_emit_step(emitted, mi, seq!['m'], pre, txt2);
    }
    started = push_component(out, started, mi, Ghost(umin), 'm', None);
    proof {
        emitted = emitted + opt_part(mi, seq!['m']);
        assert(out@ == pre + tokens_chars(emitted));
        assert(started == (emitted.len() != 0));
    }
    let ghost txt3 = out@;
    proof {
        lemma_emit_step(emitted, s, seq!['s'], pre, txt3);
    }
    started = push_component(out, started, s, Ghost(usec), 's', None);
    proof {
        emitted = emitted + opt_part(s, seq!['s']);
        assert(out@ == pre + tokens_chars(emitted));
        assert(started == (emitted.len() != 0));
    }
    let ghost txt4 = out@;
    proof {
        lemma_emit_step(emitted, ms, seq!['m', 's'], pre, txt4);
    }
    started = push_component(out, started, ms, Ghost(ums), 'm', Some('s'));
    proof {
        emitted = emitted + opt_part(ms, seq!['m', 's']);
        assert(out@ == pre + tokens_chars(emitted));
        assert(started == (emitted.len() != 0));
    }
    let ghost txt5 = out@;
    proof {
        lemma_emit_step(emitted, us, seq!['u', 's'], pre, txt5);
    }
    started = push_component(out, started, us, Ghost(uus), 'u', Some('s'));
    proof {
        emitted = emitted + opt_part(us, seq!['u', 's']);
        assert(out@ == pre + tokens_chars(emitted));
        assert(started == (emitted.len() != 0));
    }
    let ghost txt6 = out@;
    proof {
        lemma_emit_step(emitted, ns, seq!['n', 's'], pre, txt6);
    }
    started = push_component(out, started, ns, Ghost(uns), 'n', Some('s'));
    proof {
        emitted = emitted + opt_part(ns, seq!['n', 's']);
        assert(out@ == pre + tokens_chars(emitted));
        assert(emitted == dur_parts(n));
        assert(out@ == old(out)@ + dur_chars(n));
    }
}

/// The multipliers of the seven unit names.
pub proof fn lemma_units_known()
    ensures
        unit_mult(seq!['d']) == Some(NANOS_PER_DAY),
        unit_mult(seq!['h']) == Some(NANOS_PER_HOUR),
        unit_mult(seq!['m']) == Some(NANOS_PER_MIN),
        unit_mult(seq!['s']) == Some(NANOS_PER_SEC),
        unit_mult(seq!['m', 's']) == Some(NANOS_PER_MILLI),
        unit_mult(seq!['u', 's']) == Some(NANOS_PER_MICRO),
        unit_mult(seq!['n', 's']) == Some(1u64),
{
    assert(seq!['d'][0] == 'd' && seq!['d'].len() == 1);
    assert(seq!['h'][0] == 'h' && seq!['h'].len() == 1);
    assert(seq!['m'][0] == 'm' && seq!['m'].len() == 1);
    assert(seq!['s'][0] == 's' && seq!['s'].len() == 1);
    assert(seq!['m', 's'][0] == 'm' && seq!['m', 's'][1] == 's' && seq!['m', 's'].len() == 2);
    assert(seq!['u', 's'][0] == 'u' && seq!['u', 's'][1] == 's' && seq!['u', 's'].len() == 2);
    assert(seq!['n', 's'][0] == 'n' && seq!['n', 's'][1] == 's' && seq!['n', 's'].len() == 2);
}

/// A known unit token is one or two unit letters and holds no digit.
pub proof fn lemma_unit_token_shape(u: Seq<char>)
    requires
        unit_mult(u) is Some,
    ensures
        1 <= u.len() <= 2,
        forall|q: int|
            0 <= q < u.len() ==> is_unit_char(#[trigger] u[q]) && !is_digit_char(u[q]),
{
    lemma_units_known();
    if u == seq!['d'] {
        assert(u[0] == 'd');
    } else if u == seq!['h'] {
        assert(u[0] == 'h');
    } else if u == seq!['m'] {
        assert(u[0] == 'm');
    } else if u == seq!['s'] {
        assert(u[0] == 's');
    } else if u == seq!['m', 's'] {
        assert(u[0] == 'm' && u[1] == 's');
    } else if u == seq!['u', 's'] {
        assert(u[0] == 'u' && u[1] == 's');
    } else {
        assert(u == seq!['n', 's']);
        assert(u[0] == 'n' && u[1] == 's');
    }
}

/// Reading the rendered text of a token list consumes it all and sums it.
pub proof fn lemma_parse_tokens(
    s: Seq<char>,
    i: int,
    ps: Seq<(u64, Seq<char>)>,
    acc: u64,
    seen: bool,
)
    requires
        0 <= i <= s.len(),
        s.subrange(i, s.len() as int) == tokens_chars(ps),
        forall|q: int| 0 <= q < ps.len() ==> unit_mult((#[trigger] ps[q]).1) is Some,
        seen || ps.len() > 0,
    ensures
        parse_dur_from(s, i, acc, seen) == Some(tokens_value(ps, acc)),
    decreases ps.len(),
{
    if ps.len() == 0 {
        assert(tokens_chars(ps) =~= Seq::<char>::empty());
        assert(s.subrange(i, s.len() as int).len() == 0);
        assert(i == s.len());
    } else {
        let v = ps[0].0;
        let u = ps[0].1;
        assert(unit_mult(ps[0].1) is Some);
        lemma_unit_token_shape(u);
        lemma_dec_chars_val(v);
        let dc = dec_chars(v);
        let dl = dc.len() as int;
        let ul = u.len() as int;
        let rest: Seq<char> = if ps.len() == 1 {
            Seq::<char>::empty()
        } else {
            seq![' '] + tokens_chars(ps.drop_first())
        };
        assert(s.subrange(i, s.len() as int) == dc + (u + rest)) by {
            if ps.len() == 1 {
                assert(tokens_chars(ps) == token_chars(ps[0]));
                assert(dc + (u + rest) =~= dc + u);
            } else {
                assert(tokens_chars(ps) == token_chars(ps[0]) + seq![' '] + tokens_chars(
                    ps.drop_first(),
                ));
                assert(dc + (u + rest) =~= token_chars(ps[0]) + seq![' '] + tokens_chars(
                    ps.drop_first(),
                ));
            }
        }
        lemma_subrange_concat(s, i, dc, u + rest);
        lemma_subrange_concat(s, i + dl, u, rest);
        // The digit run is exactly the rendered digits.
        assert(i < s.len());
        assert(s[i] == dc[0]);
        assert(is_digit_char(s[i]));
        assert(s[i] != ' ') by {
            assert(!is_digit_char(' '));
        }
        assert(i + dl < s.len());
        assert(s[i + dl] == u[0]);
        assert(!is_digit_char(s[i + dl]));
        assert forall|q: int| i <= q < i + dl implies is_digit_char(#[trigger] s[q]) by {
            assert(s[q] == dc[q - i]);
        }
        lemma_digit_run_end_is(s, i, i + dl);
        assert(s.subrange(i, i + dl) == dc);
        assert(dec_val(s.subrange(i, i + dl)) == v);
        // The unit run is exactly the rendered unit.
        assert forall|q: int| i + dl <= q < i + dl + ul implies is_unit_char(
            #[trigger] s[q],
        ) by {
            assert(s[q] == u[q - (i + dl)]);
        }
        if ps.len() == 1 {
            assert(rest.len() == 0);
            assert(i + dl + ul == s.len());
            lemma_unit_run_end_is(s, i + dl, i + dl + ul);
        } else {
            assert(rest[0] == ' ') by {
                assert(rest == seq![' '] + tokens_chars(ps.drop_first()));
                assert((seq![' '] + tokens_chars(ps.drop_first()))[0] == ' ');
            }
            assert(s[i + dl + ul] == rest[0]) by {
                lemma_subrange_concat(s, i + dl + ul, rest, Seq::<char>::empty());
                assert(s.subrange(i + dl + ul as int, s.len() as int) =~= rest + Seq::<
                    char,
                >::empty());
            }
            assert(!is_unit_char(' '));
            lemma_unit_run_end_is(s, i + dl, i + dl + ul);
        }
        assert(s.subrange(i + dl, i + dl + ul) == u);
        let mult = unit_mult(u)->Some_0;
        let acc2 = sat_add(acc, sat_mul(v, mult));
        assert(tokens_value(ps, acc) == tokens_value(ps.drop_first(), acc2));
        if ps.len() == 1 {
            assert(ps.drop_first() =~= Seq::<(u64, Seq<char>)>::empty());
            assert(parse_dur_from(s, i, acc, seen) == parse_dur_from(s, i + dl + ul, acc2, true));
            assert(parse_dur_from(s, i + dl + ul, acc2, true) == Some(acc2));
        } else {
            let k = i + dl + ul;
            assert(parse_dur_from(s, i, acc, seen) == parse_dur_from(s, k, acc2, true));
            assert(s[k] == ' ');
            assert(parse_dur_from(s, k, acc2, true) == parse_dur_from(s, k + 1, acc2, true));
            assert(s.subrange(k + 1 as int, s.len() as int) == tokens_chars(ps.drop_first())) by {
                lemma_subrange_concat(s, k, seq![' '], tokens_chars(ps.drop_first()));
                assert(s.subrange(k as int, s.len() as int) == rest);
                assert(rest =~= seq![' '] + tokens_chars(ps.drop_first()));
            }
            assert forall|q: int|
                0 <= q < ps.drop_first().len() implies unit_mult(
                (#[trigger] ps.drop_first()[q]).1,
            ) is Some by {
                assert(ps.drop_first()[q] == ps[q + 1]);
            }
            lemma_parse_tokens(s, k + 1, ps.drop_first(), acc2, true);
        }
    }
}

/// The value of one optional component.
proof fn lemma_tv_opt(v: u64, u: Seq<char>, acc: u64)
    requires
        unit_mult(u) is Some,
    ensures
        tokens_value(opt_part(v, u), acc) == if v == 0 {
            acc
        } else {
            sat_add(acc, sat_mul(v, unit_mult(u)->Some_0))
        },
{
    if v != 0 {
        assert(opt_part(v, u) == seq![(v, u)]);
        assert(seq![(v, u)][0] == (v, u));
        assert(seq![(v, u)].drop_first() =~= Seq::<(u64, Seq<char>)>::empty());
        let acc2 = sat_add(acc, sat_mul(v, unit_mult(u)->Some_0));
        assert(tokens_value(Seq::<(u64, Seq<char>)>::empty(), acc2) == acc2);
        assert(tokens_value(seq![(v, u)], acc) == tokens_value(
            seq![(v, u)].drop_first(),
            acc2,
        ));
    } else {
        assert(opt_part(v, u) == Seq::<(u64, Seq<char>)>::empty());
        assert(tokens_value(Seq::<(u64, Seq<char>)>::empty(), acc) == acc);
    }
}

/// Token lists concatenate by accumulating.
proof fn lemma_tv_concat(a: Seq<(u64, Seq<char>)>, b: Seq<(u64, Seq<char>)>, acc: u64)
    ensures
        tokens_value(a + b, acc) == tokens_value(b, tokens_value(a, acc)),
    decreases a.len(),
{
    if a.len() == 0 {
        assert(a + b =~= b);
    } else {
        assert((a + b)[0] == a[0]);
        assert((a + b).drop_first() =~= a.drop_first() + b);
        lemma_tv_concat(a.drop_first(), b, sat_add(acc, sat_mul(a[0].0, unit_mult(a[0].1)->Some_0)));
    }
}

/// Every canonical component bears a known unit.
pub proof fn lemma_parts_ok(n: u64)
    ensures
        forall|q: int|
            0 <= q < dur_parts(n).len() ==> unit_mult((#[trigger] dur_parts(n)[q]).1) is Some,
{
    lemma_units_known();
    let ps = dur_parts(n);
    if n == 0 {
        assert(ps[0] == (0u64, seq!['s']));
    } else {
        assert forall|q: int| 0 <= q < ps.len() implies unit_mult(
            (#[trigger] ps[q]).1,
        ) is Some by {
            let d = n / NANOS_PER_DAY;
            let r1 = n % NANOS_PER_DAY;
            let h = r1 / NANOS_PER_HOUR;
            let r2 = r1 % NANOS_PER_HOUR;
            let mi = r2 / NANOS_PER_MIN;
            let r3 = r2 % NANOS_PER_MIN;
            let s = r3 / NANOS_PER_SEC;
            let r4 = r3 % NANOS_PER_SEC;
            let ms = r4 / NANOS_PER_MILLI;
            let r5 = r4 % NANOS_PER_MILLI;
            let us = r5 / NANOS_PER_MICRO;
            let ns = r5 % NANOS_PER_MICRO;
            let p1 = opt_part(d, seq!['d']);
            let p2 = opt_part(h, seq!['h']);
            let p3 = opt_part(mi, seq!['m']);
            let p4 = opt_part(s, seq!['s']);
            let p5 = opt_part(ms, seq!['m', 's']);
            let p6 = opt_part(us, seq!['u', 's']);
            let p7 = opt_part(ns, seq!['n', 's']);
            assert(ps == p1 + p2 + p3 + p4 + p5 + p6 + p7);
            if q < p1.len() {
                assert(ps[q] == p1[0]);
            } else if q < p1.len() + p2.len() {
                assert(ps[q] == p2[0]);
            } else if q < p1.len() + p2.len() + p3.len() {
                assert(ps[q] == p3[0]);
            } else if q < p1.len() + p2.len() + p3.len() + p4.len() {
                assert(ps[q] == p4[0]);
            } else if q < p1.len() + p2.len() + p3.len() + p4.len() + p5.len() {
                assert(ps[q] == p5[0]);
            } else if q < p1.len() + p2.len() + p3.len() + p4.len() + p5.len() + p6.len() {
                assert(ps[q] == p6[0]);
            } else {
                assert(ps[q] == p7[0]);
            }
        }
    }
}

/// The canonical components of `n` sum back to exactly `n`.
#[verifier::rlimit(100)]
#[verifier::spinoff_prover]
pub proof fn lemma_parts_value(n: u64)
    ensures
        tokens_value(dur_parts(n), 0) == n,
        dur_parts(n).len() >= 1,
    {
    lemma_units_known();
    if n == 0 {
        let ps = dur_parts(0);
        assert(ps[0] == (0u64, seq!['s']));
        assert(ps.drop_first() =~= Seq::<(u64, Seq<char>)>::empty());
        assert(sat_mul(0, NANOS_PER_SEC) == 0);
        assert(sat_add(0, 0) == 0);
        assert(tokens_value(Seq::<(u64, Seq<char>)>::empty(), 0) == 0);
        assert(tokens_value(ps, 0) == tokens_value(ps.drop_first(), 0));
    } else {
        let d = n / NANOS_PER_DAY;
        let r1 = n % NANOS_PER_DAY;
        let h = r1 / NANOS_PER_HOUR;
        let r2 = r1 % NANOS_PER_HOUR;
        let mi = r2 / NANOS_PER_MIN;
        let r3 = r2 % NANOS_PER_MIN;
        let s = r3 / NANOS_PER_SEC;
        let r4 = r3 % NANOS_PER_SEC;
        let ms = r4 / NANOS_PER_MILLI;
        let r5 = r4 % NANOS_PER_MILLI;
        let us = r5 / NANOS_PER_MICRO;
        let ns = r5 % NANOS_PER_MICRO;
        assert(n == d * NANOS_PER_DAY + r1) by {
            vstd::arithmetic::div_mod::lemma_fundamental_div_mod(n as int, NANOS_PER_DAY as int);
        }
        assert(r1 == h * NANOS_PER_HOUR + r2) by {
            vstd::arithmetic::div_mod::lemma_fundamental_div_mod(r1 as int, NANOS_PER_HOUR as int);
        }
        assert(r2 == mi * NANOS_PER_MIN + r3) by {
            vstd::arithmetic::div_mod::lemma_fundamental_div_mod(r2 as int, NANOS_PER_MIN as int);
        }
        assert(r3 == s * NANOS_PER_SEC + r4) by {
            vstd::arithmetic::div_mod::lemma_fundamental_div_mod(r3 as int, NANOS_PER_SEC as int);
        }
        assert(r4 == ms * NANOS_PER_MILLI + r5) by {
            vstd::arithmetic::div_mod::lemma_fundamental_div_mod(r4 as int, NANOS_PER_MILLI as int);
        }
        assert(r5 == us * NANOS_PER_MICRO + ns) by {
            vstd::arithmetic::div_mod::lemma_fundamental_div_mod(r5 as int, NANOS_PER_MICRO as int);
        }
        let p1 = opt_part(d, seq!['d']);
        let p2 = opt_part(h, seq!['h']);
        let p3 = opt_part(mi, seq!['m']);
        let p4 = opt_part(s, seq!['s']);
        let p5 = opt_part(ms, seq!['m', 's']);
        let p6 = opt_part(us, seq!['u', 's']);
        let p7 = opt_part(ns, seq!['n', 's']);
        let a1 = p1;
        let a2 = a1 + p2;
        let a3 = a2 + p3;
        let a4 = a3 + p4;
        let a5 = a4 + p5;
        let a6 = a5 + p6;
        let a7 = a6 + p7;
        assert(dur_parts(n) == a7);
        let v1 = (d * NANOS_PER_DAY) as u64;
        let v2 = (d * NANOS_PER_DAY + h * NANOS_PER_HOUR) as u64;
        let v3 = (d * NANOS_PER_DAY + h * NANOS_PER_HOUR + mi * NANOS_PER_MIN) as u64;
        let v4 = (d * NANOS_PER_DAY + h * NANOS_PER_HOUR + mi * NANOS_PER_MIN + s
            * NANOS_PER_SEC) as u64;
        let v5 = (d * NANOS_PER_DAY + h * NANOS_PER_HOUR + mi * NANOS_PER_MIN + s * NANOS_PER_SEC
            + ms * NANOS_PER_MILLI) as u64;
        let v6 = (d * NANOS_PER_DAY + h * NANOS_PER_HOUR + mi * NANOS_PER_MIN + s * NANOS_PER_SEC
            + ms * NANOS_PER_MILLI + us * NANOS_PER_MICRO) as u64;
        lemma_tv_opt(d, seq!['d'], 0);
        assert(tokens_value(a1, 0) == v1) by {
            assert(sat_mul(d, NANOS_PER_DAY) == d * NANOS_PER_DAY);
        }
        lemma_tv_concat(a1, p2, 0);
        lemma_tv_opt(h, seq!['h'], v1);
        assert(tokens_value(a2, 0) == v2);
        lemma_tv_concat(a2, p3, 0);
        lemma_tv_opt(mi, seq!['m'], v2);
        assert(tokens_value(a3, 0) == v3);
        lemma_tv_concat(a3, p4, 0);
        lemma_tv_opt(s, seq!['s'], v3);
        assert(tokens_value(a4, 0) == v4);
        lemma_tv_concat(a4, p5, 0);
        lemma_tv_opt(ms, seq!['m', 's'], v4);
        assert(tokens_value(a5, 0) == v5);
        lemma_tv_concat(a5, p6, 0);
        lemma_tv_opt(us, seq!['u', 's'], v5);
        assert(tokens_value(a6, 0) == v6);
        lemma_tv_concat(a6, p7, 0);
        lemma_tv_opt(ns, seq!['n', 's'], v6);
        assert(tokens_value(a7, 0) == n);
        assert(a7.len() >= 1) by {
            if a7.len() == 0 {
                assert(p1.len() == 0 && p2.len() == 0 && p3.len() == 0 && p4.len() == 0 && p5.len()
                    == 0 && p6.len() == 0 && p7.len() == 0);
                assert(d == 0 && h == 0 && mi == 0 && s == 0 && ms == 0 && us == 0 && ns == 0);
            }
        }
    }
}

/// Writing a duration and reading the text back gives the same count of
/// nanoseconds: the snapshot's duration fields survive the round trip
/// exactly.
pub proof fn lemma_duration_round_trip(n: u64)
    ensures
        spec_parse_duration(dur_chars(n)) == Some(n),
{
    lemma_parts_ok(n);
    lemma_parts_value(n);
    let ps = dur_parts(n);
    let s = dur_chars(n);
    assert(s.subrange(0, s.len() as int) =~= s);
    lemma_parse_tokens(s, 0, ps, 0, false);
}

} // verus!
