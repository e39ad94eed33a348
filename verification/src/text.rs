//! Contracts for the standard string operations that the lexer relies on.

use vstd::prelude::*;
use vstd::utf8::{
    encode_scalar, encode_utf8, encode_utf8_first_scalar, encode_utf8_valid_utf8,
    is_char_boundary, pop_first_scalar,
};

verus! {

/// The uppercase form of a string, as `str::to_uppercase` computes it from the
/// Unicode case mappings.
pub uninterp spec fn uppercase(s: Seq<char>) -> Seq<char>;

/// The lowercase form of a string, as `str::to_lowercase` computes it from the
/// Unicode case mappings.
pub uninterp spec fn lowercase(s: Seq<char>) -> Seq<char>;

/// Trusted: `str::to_uppercase` returns a new string holding the uppercase
/// form that [`uppercase`] names; the result depends on the characters alone.
pub assume_specification[ str::to_uppercase ](s: &str) -> (r: std::string::String)
    ensures
        r@ == uppercase(s@),
;

/// Trusted: `str::to_lowercase` returns a new string holding the lowercase
/// form that [`lowercase`] names; the result depends on the characters alone.
pub assume_specification[ str::to_lowercase ](s: &str) -> (r: std::string::String)
    ensures
        r@ == lowercase(s@),
;

/// Trusted: `String::push` appends the character to the end of the string and
/// changes nothing else.
pub assume_specification[ std::string::String::push ](s: &mut std::string::String, c: char)
    ensures
        final(s)@ == old(s)@.push(c),
;

/// Trusted: equality of string slices (`==` on `str`) holds exactly when both
/// hold the same characters in the same order.
pub assume_specification[ <str as PartialEq>::eq ](a: &str, b: &str) -> (r: bool)
    ensures
        r == (a@ == b@),
;

/// Trusted: `char::len_utf8` returns the number of bytes that the UTF-8
/// encoding of the character takes.
pub assume_specification[ char::len_utf8 ](c: char) -> (n: usize)
    ensures
        n == encode_scalar(c as u32).len(),
;

/// In the UTF-8 encoding of a non-empty string, the first character ends at a
/// character boundary, and the bytes after it encode the other characters.
pub proof fn lemma_first_char_boundary(s: Seq<char>)
    requires
        s.len() > 0,
    ensures
        is_char_boundary(encode_utf8(s), encode_scalar(s[0] as u32).len() as int),
        encode_utf8(s).subrange(
            encode_scalar(s[0] as u32).len() as int,
            encode_utf8(s).len() as int,
        ) == encode_utf8(s.skip(1)),
{
    encode_utf8_first_scalar(s);
    encode_utf8_valid_utf8(s);
    assert(pop_first_scalar(encode_utf8(s)) =~= encode_utf8(s.drop_first()));
    assert(s.drop_first() =~= s.skip(1));
    reveal_with_fuel(is_char_boundary, 2);
}

} // verus!
