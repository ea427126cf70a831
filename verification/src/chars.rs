//! Character-level helpers shared by the text formats of this library:
//! digit and whitespace classification, decimal rendering and parsing of
//! `u64` values, and conversions between `str`/`String` and `Vec<char>`.
use vstd::prelude::*;
use vstd::string::*;

verus! {

pub open spec fn is_ws_char(c: char) -> bool {
    c == ' ' || c == '\n' || c == '\r' || c == '\t'
}

pub fn is_ws(c: char) -> (r: bool)
    ensures
        r == is_ws_char(c),
{
    c == ' ' || c == '\n' || c == '\r' || c == '\t'
}

/// The value of a decimal digit character; 10 for anything else.
pub open spec fn digit_val(c: char) -> u64 {
    if c == '0' {
        0
    } else if c == '1' {
        1
    } else if c == '2' {
        2
    } else if c == '3' {
        3
    } else if c == '4' {
        4
    } else if c == '5' {
        5
    } else if c == '6' {
        6
    } else if c == '7' {
        7
    } else if c == '8' {
        8
    } else if c == '9' {
        9
    } else {
        10
    }
}

pub open spec fn is_digit_char(c: char) -> bool {
    digit_val(c) < 10
}

pub fn digit_value(c: char) -> (r: u64)
    ensures
        r == digit_val(c),
{
    if c == '0' {
        0
    } else if c == '1' {
        1
    } else if c == '2' {
        2
    } else if c == '3' {
        3
    } else if c == '4' {
        4
    } else if c == '5' {
        5
    } else if c == '6' {
        6
    } else if c == '7' {
        7
    } else if c == '8' {
        8
    } else if c == '9' {
        9
    } else {
        10
    }
}

pub fn is_digit(c: char) -> (r: bool)
    ensures
        r == is_digit_char(c),
{
    digit_value(c) < 10
}

/// The character for a decimal digit value below ten.
pub open spec fn digit_char(d: u64) -> char {
    if d == 0 {
        '0'
    } else if d == 1 {
        '1'
    } else if d == 2 {
        '2'
    } else if d == 3 {
        '3'
    } else if d == 4 {
        '4'
    } else if d == 5 {
        '5'
    } else if d == 6 {
        '6'
    } else if d == 7 {
        '7'
    } else if d == 8 {
        '8'
    } else {
        '9'
    }
}

pub fn digit_to_char(d: u64) -> (r: char)
    requires
        d < 10,
    ensures
        r == digit_char(d),
{
    if d == 0 {
        '0'
    } else if d == 1 {
        '1'
    } else if d == 2 {
        '2'
    } else if d == 3 {
        '3'
    } else if d == 4 {
        '4'
    } else if d == 5 {
        '5'
    } else if d == 6 {
        '6'
    } else if d == 7 {
        '7'
    } else if d == 8 {
        '8'
    } else {
        '9'
    }
}

/// Digits of `d` agree with `digit_char` and back.
pub proof fn lemma_digit_round_trip(d: u64)
    requires
        d < 10,
    ensures
        digit_val(digit_char(d)) == d,
        is_digit_char(digit_char(d)),
{
}

/// The decimal digit string of a `u64`, most significant digit first.
pub open spec fn dec_chars(n: u64) -> Seq<char>
    decreases n,
{
    if n < 10 {
        seq![digit_char(n)]
    } else {
        dec_chars(n / 10).push(digit_char(n % 10))
    }
}

pub open spec fn all_digits(s: Seq<char>) -> bool {
    forall|i: int| 0 <= i < s.len() ==> is_digit_char(#[trigger] s[i])
}

/// The numeric value of a digit string, as an unbounded integer.
pub open spec fn dec_val(s: Seq<char>) -> int
    decreases s.len(),
{
    if s.len() == 0 {
        0
    } else {
        dec_val(s.drop_last()) * 10 + digit_val(s.last())
    }
}

pub proof fn lemma_dec_val_nonneg(s: Seq<char>)
    ensures
        dec_val(s) >= 0,
    decreases s.len(),
{
    if s.len() > 0 {
        lemma_dec_val_nonneg(s.drop_last());
    }
}

/// Rendering a number and reading the digits back gives the number.
pub proof fn lemma_dec_chars_val(n: u64)
    ensures
        dec_chars(n).len() >= 1,
        all_digits(dec_chars(n)),
        dec_val(dec_chars(n)) == n,
    decreases n,
{
    if n < 10 {
        lemma_digit_round_trip(n);
        assert(dec_chars(n) =~= seq![digit_char(n)]);
        assert(dec_chars(n).drop_last() =~= Seq::<char>::empty());
        assert(dec_val(dec_chars(n)) == dec_val(Seq::<char>::empty()) * 10 + digit_val(
            digit_char(n),
        ));
    } else {
        lemma_dec_chars_val(n / 10);
        let pre = dec_chars(n / 10);
        assert(dec_chars(n) =~= pre.push(digit_char(n % 10)));
        assert(dec_chars(n).drop_last() =~= pre);
        assert(dec_val(dec_chars(n)) == dec_val(pre) * 10 + digit_val(digit_char(n % 10)));
        lemma_digit_round_trip(n % 10);
        assert((n / 10) * 10 + n % 10 == n) by {
            vstd::arithmetic::div_mod::lemma_fundamental_div_mod(n as int, 10);
        }
    }
}

/// Appends the decimal digits of `n` to `out`.
pub fn push_u64(out: &mut Vec<char>, n: u64)
    ensures
        final(out)@ == old(out)@ + dec_chars(n),
    decreases n,
{
    if n < 10 {
        out.push(digit_to_char(n));
        assert(out@ =~= old(out)@ + dec_chars(n));
    } else {
        push_u64(out, n / 10);
        out.push(digit_to_char(n % 10));
        assert(out@ =~= old(out)@ + dec_chars(n));
    }
}

/// The characters of `s`, in order.
pub fn str_to_chars(s: &str) -> (r: Vec<char>)
    ensures
        r@ == s@,
{
    let n = s.unicode_len();
    let mut out: Vec<char> = Vec::new();
    let mut i: usize = 0;
    while i < n
        invariant
            i <= n,
            n == s@.len(),
            out@ == s@.subrange(0, i as int),
        decreases n - i,
    {
        let c = s.get_char(i);
        out.push(c);
        assert(out@ =~= s@.subrange(0, i + 1 as int));
        i += 1;
    }
    assert(s@.subrange(0, n as int) =~= s@);
    out
}

/// Relies on `Iterator::collect` for `String`: collecting `char`s yields the
/// string of exactly those characters, in order.
#[verifier::external_body]
pub fn string_from_chars(v: &Vec<char>) -> (r: String)
    ensures
        r@ == v@,
{
    v.iter().collect()
}

/// Character-for-character equality of two character vectors.
pub fn chars_eq(a: &Vec<char>, b: &Vec<char>) -> (r: bool)
    ensures
        r == (a@ == b@),
{
    if a.len() != b.len() {
        assert(a@ != b@) by {
            assert(a@.len() != b@.len());
        }
        return false;
    }
    let n = a.len();
    let mut i: usize = 0;
    while i < n
        invariant
            i <= n,
            n == a@.len() == b@.len(),
            forall|j: int| 0 <= j < i ==> a@[j] == b@[j],
        decreases n - i,
    {
        if a[i] != b[i] {
            return false;
        }
        i += 1;
    }
    assert(a@ =~= b@);
    true
}

/// Does `v` spell exactly the characters of `lit`?
pub fn chars_eq_str(v: &Vec<char>, lit: &str) -> (r: bool)
    ensures
        r == (v@ == lit@),
{
    let l = str_to_chars(lit);
    chars_eq(v, &l)
}

/// Splitting a suffix of `s` along a concatenation.
pub proof fn lemma_subrange_concat(s: Seq<char>, i: int, a: Seq<char>, b: Seq<char>)
    requires
        0 <= i <= s.len(),
        s.subrange(i, s.len() as int) == a + b,
    ensures
        i + a.len() + b.len() == s.len(),
        s.subrange(i, i + a.len() as int) == a,
        s.subrange(i + a.len() as int, s.len() as int) == b,
        forall|q: int| 0 <= q < a.len() ==> s[i + q] == #[trigger] a[q],
{
    let t = s.subrange(i, s.len() as int);
    assert(t.len() == a.len() + b.len());
    assert forall|q: int| 0 <= q < a.len() implies s[i + q] == #[trigger] a[q] by {
        assert(t[q] == (a + b)[q]);
    }
    assert(s.subrange(i, i + a.len() as int) =~= a);
    assert(s.subrange(i + a.len() as int, s.len() as int) =~= b) by {
        assert forall|q: int|
            0 <= q < b.len() implies s.subrange(i + a.len() as int, s.len() as int)[q] == b[q] by {
            assert(t[a.len() + q] == (a + b)[a.len() + q]);
        }
    }
}

/// Character-for-character equality of two string slices.
pub fn str_eq(a: &str, b: &str) -> (r: bool)
    ensures
        r == (a@ == b@),
{
    let av = str_to_chars(a);
    let bv = str_to_chars(b);
    chars_eq(&av, &bv)
}

} // verus!
