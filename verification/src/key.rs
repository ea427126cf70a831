//! The key format policy: a tracker key is one or more word characters
//! (ASCII letters, digits or underscore), a single hyphen, then one or more
//! decimal digits — the shape of an issue key such as `PROJECT-123`.
use vstd::prelude::*;

use crate::chars::str_to_chars;

verus! {

/// An ASCII letter, digit or underscore.
pub open spec fn is_word_char(c: char) -> bool {
    let u = c as u32;
    (48 <= u && u <= 57) || (65 <= u && u <= 90) || (97 <= u && u <= 122) || u == 95
}

/// An ASCII decimal digit.
pub open spec fn is_ascii_digit(c: char) -> bool {
    let u = c as u32;
    48 <= u && u <= 57
}

/// The format policy: word characters, one hyphen, then digits.
pub open spec fn valid_key(s: Seq<char>) -> bool {
    exists|i: int|
        {
            &&& 1 <= i
            &&& i + 2 <= s.len()
            &&& s[i] == '-'
            &&& (forall|j: int| 0 <= j < i ==> is_word_char(#[trigger] s[j]))
            &&& (forall|j: int| i < j < s.len() ==> is_ascii_digit(#[trigger] s[j]))
        }
}

fn word_char(c: char) -> (r: bool)
    ensures
        r == is_word_char(c),
{
    let u = c as u32;
    (48 <= u && u <= 57) || (65 <= u && u <= 90) || (97 <= u && u <= 122) || u == 95
}

fn ascii_digit(c: char) -> (r: bool)
    ensures
        r == is_ascii_digit(c),
{
    let u = c as u32;
    48 <= u && u <= 57
}

/// Decides the format policy for a whole key.
pub fn is_valid_key(key: &str) -> (r: bool)
    ensures
        r == valid_key(key@),
{
    let v = str_to_chars(key);
    valid_key_chars(&v)
}

/// Decides the format policy over a character vector.
pub fn valid_key_chars(v: &Vec<char>) -> (r: bool)
    ensures
        r == valid_key(v@),
{
    let n = v.len();
    let s = Ghost(v@);
    // Find the first hyphen.
    let mut i: usize = 0;
    while i < n && v[i] != '-'
        invariant
            i <= n,
            n == s@.len(),
            s@ == v@,
            forall|j: int| 0 <= j < i ==> s@[j] != '-',
        decreases n - i,
    {
        i += 1;
    }
    if i >= n || i == 0 || i + 1 >= n {
        // No hyphen, or nothing before it, or nothing after it.
        assert(!valid_key(s@)) by {
            if valid_key(s@) {
                let w = choose|w: int|
                    {
                        &&& 1 <= w
                        &&& w + 2 <= s@.len()
                        &&& s@[w] == '-'
                        &&& (forall|j: int| 0 <= j < w ==> is_word_char(#[trigger] s@[j]))
                        &&& (forall|j: int| w < j < s@.len() ==> is_ascii_digit(#[trigger] s@[j]))
                    };
                assert(s@[w] == '-');
            }
        }
        return false;
    }
    // From here on: `i` is the first hyphen, strictly inside the key.
    // A witness position for `valid_key` must be this very hyphen, since
    // word characters are never hyphens.
    let mut j: usize = 0;
    while j < i
        invariant
            j <= i,
            i < n,
            i >= 1,
            i + 1 < n,
            n == s@.len(),
            s@ == v@,
            s@[i as int] == '-',
            forall|k: int| 0 <= k < i ==> s@[k] != '-',
            forall|k: int| 0 <= k < j ==> is_word_char(#[trigger] s@[k]),
        decreases i - j,
    {
        if !word_char(v[j]) {
            assert(!valid_key(s@)) by {
                if valid_key(s@) {
                    let w = choose|w: int|
                        {
                            &&& 1 <= w
                            &&& w + 2 <= s@.len()
                            &&& s@[w] == '-'
                            &&& (forall|k: int| 0 <= k < w ==> is_word_char(#[trigger] s@[k]))
                            &&& (forall|k: int| w < k < s@.len() ==> is_ascii_digit(#[trigger] s@[k]))
                        };
                    assert(!is_word_char('-'));
                    assert(w == i);
                    assert(is_word_char(s@[j as int]));
                }
            }
            return false;
        }
        j += 1;
    }
    let mut k: usize = i + 1;
    while k < n
        invariant
            i < k <= n,
            i + 1 < n,
            n == s@.len(),
            s@ == v@,
            forall|m: int| i < m < k ==> is_ascii_digit(#[trigger] s@[m]),
            forall|m: int| 0 <= m < i ==> is_word_char(#[trigger] s@[m]),
            s@[i as int] == '-',
        decreases n - k,
    {
        if !ascii_digit(v[k]) {
            assert(!valid_key(s@)) by {
                if valid_key(s@) {
                    let w = choose|w: int|
                        {
                            &&& 1 <= w
                            &&& w + 2 <= s@.len()
                            &&& s@[w] == '-'
                            &&& (forall|m: int| 0 <= m < w ==> is_word_char(#[trigger] s@[m]))
                            &&& (forall|m: int| w < m < s@.len() ==> is_ascii_digit(#[trigger] s@[m]))
                        };
                    assert(!is_word_char('-'));
                    assert(w == i);
                    assert(is_ascii_digit(s@[k as int]));
                }
            }
            return false;
        }
        k += 1;
    }
    assert(valid_key(s@)) by {
        let w = i as int;
        assert({
            &&& 1 <= w
            &&& w + 2 <= s@.len()
            &&& s@[w] == '-'
            &&& (forall|j2: int| 0 <= j2 < w ==> is_word_char(#[trigger] s@[j2]))
            &&& (forall|j2: int| w < j2 < s@.len() ==> is_ascii_digit(#[trigger] s@[j2]))
        });
    }
    true
}

} // verus!
