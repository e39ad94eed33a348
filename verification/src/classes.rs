//! Character classes of the lexical grammar.
//!
//! Whitespace, letters and numeric characters are Unicode notions whose
//! tables live in the standard library. Their membership is left
//! uninterpreted here; all that is assumed is that the standard predicates
//! on `char` compute them.

use vstd::prelude::*;

verus! {

/// Membership in the Unicode `White_Space` property, as `char::is_whitespace`
/// decides it.
pub uninterp spec fn unicode_whitespace(c: char) -> bool;

/// Membership in the Unicode `Alphabetic` property, as `char::is_alphabetic`
/// decides it.
pub uninterp spec fn unicode_alphabetic(c: char) -> bool;

/// Membership in the Unicode general categories for numbers (`Nd`, `Nl` and
/// `No`), as `char::is_numeric` decides it.
pub uninterp spec fn unicode_numeric(c: char) -> bool;

/// Alphabetic or numeric.
pub open spec fn unicode_alphanumeric(c: char) -> bool {
    unicode_alphabetic(c) || unicode_numeric(c)
}

/// The ten ASCII decimal digits.
pub open spec fn ascii_digit(c: char) -> bool {
    '0' <= c && c <= '9'
}

/// Trusted: `char::is_whitespace` returns exactly the `White_Space` membership
/// that [`unicode_whitespace`] names.
pub assume_specification[ char::is_whitespace ](c: char) -> (b: bool)
    ensures
        b == unicode_whitespace(c),
;

/// Trusted: `char::is_alphabetic` returns exactly the `Alphabetic` membership
/// that [`unicode_alphabetic`] names.
pub assume_specification[ char::is_alphabetic ](c: char) -> (b: bool)
    ensures
        b == unicode_alphabetic(c),
;

/// Trusted: `char::is_alphanumeric` is true exactly for the characters for
/// which `char::is_alphabetic` or `char::is_numeric` is: those that
/// [`unicode_alphabetic`] or [`unicode_numeric`] names.
pub assume_specification[ char::is_alphanumeric ](c: char) -> (b: bool)
    ensures
        b == (unicode_alphabetic(c) || unicode_numeric(c)),
;

/// Trusted: `char::is_ascii_digit` is true exactly for `'0'` through `'9'`.
pub assume_specification[ char::is_ascii_digit ](c: &char) -> (b: bool)
    ensures
        b == ascii_digit(*c),
;

/// The sets of characters that a scanner consumes as a run.
pub enum CharClass {
    /// Characters skipped between tokens.
    Whitespace,
    /// Characters of the integer and fraction parts of a number.
    Digit,
    /// Characters that may follow the first letter of a word.
    WordPart,
    /// Characters inside a string literal: anything but the quote.
    StringBody,
}

impl CharClass {
    pub open spec fn contains(self, c: char) -> bool {
        match self {
            CharClass::Whitespace => unicode_whitespace(c),
            CharClass::Digit => ascii_digit(c),
            CharClass::WordPart => unicode_alphanumeric(c) || c == '_',
            CharClass::StringBody => c != '\'',
        }
    }
}

/// Length of the longest prefix of `s` made only of characters of `class`.
pub open spec fn run_len(s: Seq<char>, class: CharClass) -> nat
    decreases s.len(),
{
    if s.len() > 0 && class.contains(s[0]) {
        1 + run_len(s.skip(1), class)
    } else {
        0
    }
}

/// `n` is where the leading run of `class` characters in `s` ends: everything
/// before `n` belongs to the class, and `n` is the end of `s` or the first
/// character outside the class.
pub open spec fn is_run_end(s: Seq<char>, class: CharClass, n: int) -> bool {
    &&& 0 <= n <= s.len()
    &&& forall|i: int| 0 <= i < n ==> class.contains(#[trigger] s[i])
    &&& n < s.len() ==> !class.contains(s[n])
}

/// Whether every character of `s` belongs to `class`.
pub open spec fn all_in(s: Seq<char>, class: CharClass) -> bool {
    forall|i: int| 0 <= i < s.len() ==> class.contains(#[trigger] s[i])
}

/// Whether `s` starts with a character of `class`.
pub open spec fn starts_in(s: Seq<char>, class: CharClass) -> bool {
    s.len() > 0 && class.contains(s[0])
}

/// The run length is a run end.
pub proof fn lemma_run_len_is_run_end(s: Seq<char>, class: CharClass)
    ensures
        is_run_end(s, class, run_len(s, class) as int),
    decreases s.len(),
{
    if s.len() > 0 && class.contains(s[0]) {
        let t = s.skip(1);
        lemma_run_len_is_run_end(t, class);
        let n = run_len(s, class) as int;
        assert forall|i: int| 0 <= i < n implies class.contains(#[trigger] s[i]) by {
            if i > 0 {
                assert(s[i] == t[i - 1]);
            }
        }
        if n < s.len() {
            assert(s[n] == t[n - 1]);
        }
    }
}

/// A run has only one end, so any `n` that ends the run is the run length.
pub proof fn lemma_run_end_is_run_len(s: Seq<char>, class: CharClass, n: int)
    requires
        is_run_end(s, class, n),
    ensures
        run_len(s, class) == n,
    decreases s.len(),
{
    if n > 0 {
        let t = s.skip(1);
        assert(class.contains(s[0]));
        assert forall|i: int| 0 <= i < n - 1 implies class.contains(#[trigger] t[i]) by {
            assert(t[i] == s[i + 1]);
        }
        if n - 1 < t.len() {
            assert(t[n - 1] == s[n]);
        }
        lemma_run_end_is_run_len(t, class, n - 1);
    }
}

/// Characters of a class, followed by input that does not go on with the
/// class, are exactly the leading run.
pub proof fn lemma_run_len_of_run(run: Seq<char>, rest: Seq<char>, class: CharClass)
    requires
        all_in(run, class),
        !starts_in(rest, class),
    ensures
        run_len(run + rest, class) == run.len(),
{
    let s = run + rest;
    assert forall|i: int| 0 <= i < run.len() implies class.contains(#[trigger] s[i]) by {
        assert(s[i] == run[i]);
    }
    if run.len() < s.len() {
        assert(s[run.len() as int] == rest[0]);
    }
    lemma_run_end_is_run_len(s, class, run.len() as int);
}

} // verus!
