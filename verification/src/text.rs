//! Character classification and string building.
//!
//! The lexical grammar is Unicode-aware: identifiers may start with any
//! alphabetic character. For characters outside the ASCII range the
//! alphabetic property is given by [`alpha_like`], a name for what
//! `char::is_alphabetic` returns there; inside the ASCII range the
//! property is stated exactly.

use vstd::prelude::*;

verus! {

/// What `char::is_alphabetic` returns on a character outside the ASCII
/// range: a fixed property of the character alone.
pub uninterp spec fn alpha_like(c: char) -> bool;

/// A letter: an ASCII letter, or a non-ASCII character with the Unicode
/// alphabetic property.
pub open spec fn is_letter(c: char) -> bool {
    ('a' as u32 <= c as u32 && c as u32 <= 'z' as u32) || ('A' as u32 <= c as u32 && c as u32
        <= 'Z' as u32) || (c as u32 > 127 && alpha_like(c))
}

/// A decimal digit, `0` through `9`.
pub open spec fn is_digit(c: char) -> bool {
    '0' as u32 <= c as u32 && c as u32 <= '9' as u32
}

/// A character that may start an identifier or keyword.
pub open spec fn is_word_start(c: char) -> bool {
    is_letter(c) || c == '_'
}

/// A character that may continue an identifier or keyword.
pub open spec fn is_word_char(c: char) -> bool {
    is_letter(c) || is_digit(c) || c == '_'
}

/// A whitespace character the scanner discards.
pub open spec fn is_blank(c: char) -> bool {
    c == ' ' || c == '\r' || c == '\t' || c == '\n'
}

/// Relies on `char::is_alphabetic`: true exactly on characters with the
/// Unicode alphabetic property, which on ASCII are the letters `a`-`z` and
/// `A`-`Z`; on other characters the result is a fixed function of the
/// character, named [`alpha_like`].
pub assume_specification[ char::is_alphabetic ](c: char) -> (r: bool)
    ensures
        r == is_letter(c),
        c as u32 > 127 ==> r == alpha_like(c),
;

/// Whether `c` is a decimal digit.
pub fn digit_char(c: char) -> (r: bool)
    ensures
        r == is_digit(c),
{
    let u = c as u32;
    '0' as u32 <= u && u <= '9' as u32
}

/// Whether `c` may start an identifier or keyword.
pub fn word_start_char(c: char) -> (r: bool)
    ensures
        r == is_word_start(c),
{
    c.is_alphabetic() || c == '_'
}

/// Whether `c` may continue an identifier or keyword.
pub fn word_char(c: char) -> (r: bool)
    ensures
        r == is_word_char(c),
{
    c.is_alphabetic() || digit_char(c) || c == '_'
}

/// Relies on `String::push`: appends the character to the string.
#[verifier::external_body]
fn push_char(s: &mut String, c: char)
    ensures
        final(s)@ == old(s)@.push(c),
{
    s.push(c)
}

/// Builds the string whose characters are exactly the given sequence.
pub fn chars_to_string(v: &Vec<char>) -> (r: String)
    ensures
        r@ == v@,
{
    let mut r = String::new();
    let mut i: usize = 0;
    while i < v.len()
        invariant
            0 <= i <= v.len(),
            r@ == v@.take(i as int),
        decreases v.len() - i,
    {
        push_char(&mut r, v[i]);
        i = i + 1;
        proof {
            assert(v@.take(i as int) =~= v@.take(i - 1).push(v@[i - 1]));
        }
    }
    proof {
        assert(v@.take(v@.len() as int) =~= v@);
    }
    r
}

/// Whether the characters of `v` are exactly those of `w`.
pub fn matches_word(v: &Vec<char>, w: &str) -> (r: bool)
    ensures
        r == (v@ == w@),
{
    let n = w.unicode_len();
    if v.len() != n {
        proof {
            assert(v@ != w@);
        }
        return false;
    }
    let mut i: usize = 0;
    while i < n
        invariant
            0 <= i <= n,
            n == w@.len(),
            n == v@.len(),
            forall|j: int| 0 <= j < i ==> v@[j] == w@[j],
        decreases n - i,
    {
        if v[i] != w.get_char(i) {
            proof {
                assert(v@[i as int] != w@[i as int]);
            }
            return false;
        }
        i = i + 1;
    }
    proof {
        assert(v@ =~= w@);
    }
    true
}

} // verus!
