//! Laws of the token stream.

use vstd::prelude::*;
use crate::classes::{
    all_in, ascii_digit, lemma_run_end_is_run_len, lemma_run_len_is_run_end,
    lemma_run_len_of_run, run_len, starts_in, unicode_alphabetic, unicode_whitespace, CharClass,
};
use crate::grammar::{
    lemma_scan_step_consumes, next_step, number_len, number_step, rest_after,
    scan_step, skip_whitespace, string_step, symbol_step, tokens_of, tokens_view, word_step,
    word_token, Step,
};
use crate::keyword::keyword_of;
use crate::lexer::Lexer;
use crate::text::uppercase;
use crate::token::{symbol_of, LexError, Token, TokenView};

verus! {

// The stream

/// Every token costs input: a pull that yields a token leaves a strictly
/// shorter suffix of the input, so the stream is finite and no character is
/// looked at again once it is part of a token.
pub proof fn lemma_token_consumes_input(s: Seq<char>)
    requires
        next_step(s).found matches Some(Ok(_)),
    ensures
        next_step(s).rest.len() < s.len(),
        next_step(s).rest == s.skip(s.len() - next_step(s).rest.len()),
{
    lemma_scan_step_consumes(s);
}

/// What `n` elements of the stream leave is a suffix of the input.
pub proof fn lemma_rest_after_is_suffix(s: Seq<char>, n: nat)
    ensures
        rest_after(s, n).len() <= s.len(),
        rest_after(s, n) == s.skip(s.len() - rest_after(s, n).len()),
    decreases n,
{
    if n == 0 {
        assert(s.skip(0) =~= s);
    } else {
        let rest = next_step(s).rest;
        lemma_scan_step_consumes(s);
        lemma_rest_after_is_suffix(rest, (n - 1) as nat);
        let k = s.len() - rest.len();
        let m = rest.len() - rest_after(rest, (n - 1) as nat).len();
        if scan_step(s).found is Err {
            assert(rest.len() == 0);
        }
        assert(s.skip(k).skip(m) =~= s.skip(k + m));
    }
}

/// The stream ends for good: once it has yielded its end or an error, no
/// input is left and every later pull yields the end again.
pub proof fn lemma_stream_stays_ended(s: Seq<char>)
    requires
        !(next_step(s).found matches Some(Ok(_))),
    ensures
        next_step(s).rest.len() == 0,
        next_step(next_step(s).rest).found is None,
        next_step(next_step(s).rest).rest == next_step(s).rest,
{
    let rest = next_step(s).rest;
    assert(rest.len() == 0);
    assert(skip_whitespace(rest) =~= rest);
}

/// The token stream has at most as many tokens as the input has characters.
pub proof fn lemma_token_count_is_bounded(s: Seq<char>)
    ensures
        tokens_of(s) matches Ok(tokens) ==> tokens.len() <= s.len(),
    decreases s.len(),
{
    if next_step(s).found matches Some(Ok(_)) {
        lemma_scan_step_consumes(s);
        lemma_token_count_is_bounded(next_step(s).rest);
    }
}

/// Tokenizing is a function of the input: two lexers over the same input
/// yield the same tokens, or fail with the same error.
pub proof fn lemma_same_input_same_tokens(
    first: Lexer,
    second: Lexer,
    first_result: Result<Vec<Token>, LexError>,
    second_result: Result<Vec<Token>, LexError>,
)
    requires
        first@ == second@,
        tokens_view(first_result) == tokens_of(first@),
        tokens_view(second_result) == tokens_of(second@),
    ensures
        tokens_view(first_result) == tokens_view(second_result),
{
}

// Whitespace

/// Whitespace in front of a token is transparent: with or without it, and
/// however much of it there is, the same token is found, the same input is
/// left, and the same token stream follows.
pub proof fn lemma_leading_whitespace_is_transparent(space: Seq<char>, s: Seq<char>)
    requires
        all_in(space, CharClass::Whitespace),
    ensures
        skip_whitespace(space + s) == skip_whitespace(s),
        scan_step(space + s) == scan_step(s),
        next_step(space + s) == next_step(s),
        tokens_of(space + s) == tokens_of(s),
{
    let joined = space + s;
    let n = space.len() + run_len(s, CharClass::Whitespace);
    lemma_run_len_is_run_end(s, CharClass::Whitespace);
    assert forall|i: int| 0 <= i < n implies CharClass::Whitespace.contains(
        #[trigger] joined[i],
    ) by {
        if i < space.len() {
            assert(joined[i] == space[i]);
        } else {
            assert(joined[i] == s[i - space.len()]);
        }
    }
    if n < joined.len() {
        assert(joined[n as int] == s[n - space.len()]);
    }
    lemma_run_end_is_run_len(joined, CharClass::Whitespace, n as int);
    assert(joined.skip(n as int) =~= s.skip(run_len(s, CharClass::Whitespace) as int));
}

/// Whitespace between tokens is transparent: where the lexer comes to stand
/// at a run of whitespace, more whitespace after that run changes nothing in
/// the token stream.
pub proof fn lemma_whitespace_between_tokens_is_transparent(
    before: Seq<char>,
    space: Seq<char>,
    more: Seq<char>,
    after: Seq<char>,
    n: nat,
)
    requires
        rest_after(before + space + after, n) == space + after,
        space.len() > 0,
        all_in(space, CharClass::Whitespace),
        all_in(more, CharClass::Whitespace),
    ensures
        rest_after(before + space + more + after, n) == space + more + after,
        tokens_of(before + space + more + after) == tokens_of(before + space + after),
    decreases n,
{
    let x = space + after;
    let y = space + more + after;
    let s = before + space + after;
    let s2 = before + space + more + after;
    assert(s =~= before + x);
    assert(s2 =~= before + y);
    if n == 0 {
        assert(before.len() == 0);
        assert(s =~= x);
        assert(s2 =~= y);
        assert(y =~= (space + more) + after);
        assert forall|i: int| 0 <= i < (space + more).len() implies CharClass::Whitespace.contains(
            #[trigger] (space + more)[i],
        ) by {
            if i < space.len() {
                assert((space + more)[i] == space[i]);
            } else {
                assert((space + more)[i] == more[i - space.len()]);
            }
        }
        lemma_leading_whitespace_is_transparent(space + more, after);
        lemma_leading_whitespace_is_transparent(space, after);
    } else {
        let step = next_step(s);
        let k = (n - 1) as nat;
        lemma_scan_step_consumes(s);
        lemma_rest_after_is_suffix(step.rest, k);
        if !(step.found matches Some(Ok(_))) {
            lemma_stream_stays_ended(s);
            assert(false);
        }
        let taken = s.len() - step.rest.len();
        let head = before.take(taken);
        let tail = before.skip(taken);
        assert(taken <= before.len());
        assert(step.rest =~= tail + x);
        assert(s =~= head + (tail + x));
        assert(s2 =~= head + (tail + y));
        assert((tail + x)[0] == (tail + y)[0]) by {
            if tail.len() > 0 {
                assert((tail + x)[0] == tail[0]);
                assert((tail + y)[0] == tail[0]);
            } else {
                assert((tail + x)[0] == space[0]);
                assert((tail + y)[0] == space[0]);
            }
        }
        lemma_token_is_local(head, tail + x, tail + y);
        assert(tail + x =~= tail + space + after);
        assert(tail + y =~= tail + space + more + after);
        lemma_whitespace_between_tokens_is_transparent(tail, space, more, after, k);
    }
}

// Locality

/// The length of a run does not depend on what follows the character after
/// it: if the run in `p + x` ends inside `p`, or at the end of `p` with `x`
/// and `y` starting alike, then the run in `p + y` is as long.
proof fn lemma_run_is_local(p: Seq<char>, x: Seq<char>, y: Seq<char>, class: CharClass)
    requires
        run_len(p + x, class) < p.len() || (run_len(p + x, class) == p.len() && x.len() > 0
            && y.len() > 0 && x[0] == y[0]),
    ensures
        run_len(p + y, class) == run_len(p + x, class),
{
    let n = run_len(p + x, class) as int;
    lemma_run_len_is_run_end(p + x, class);
    assert forall|i: int| 0 <= i < n implies class.contains(#[trigger] (p + y)[i]) by {
        assert((p + y)[i] == (p + x)[i]);
    }
    assert((p + y)[n] == (p + x)[n]);
    lemma_run_end_is_run_len(p + y, class, n);
}

/// A string literal ends at its closing quote, whatever follows.
proof fn lemma_string_is_local(a: Seq<char>, x: Seq<char>, y: Seq<char>)
    requires
        string_step(a + x).found matches Ok(Some(_)),
        string_step(a + x).rest == x,
    ensures
        string_step(a + y).found == string_step(a + x).found,
        string_step(a + y).rest == y,
{
    let n = run_len((a + x).skip(1), CharClass::StringBody) as int;
    lemma_run_len_is_run_end((a + x).skip(1), CharClass::StringBody);
    assert((a + x).skip(1).skip(n + 1).len() == x.len());
    assert(a.len() == n + 2);
    let body = a.skip(1);
    assert((a + x).skip(1) =~= body + x);
    assert((a + y).skip(1) =~= body + y);
    assert((a + y)[0] == (a + x)[0]);
    lemma_run_is_local(body, x, y, CharClass::StringBody);
    assert((body + y).take(n) =~= (body + x).take(n));
    assert((body + y).skip(n + 1) =~= y);
}

/// A number literal that ends in front of `x` ends in front of any `y` that
/// starts like `x`.
proof fn lemma_number_is_local(a: Seq<char>, x: Seq<char>, y: Seq<char>)
    requires
        number_step(a + x).found is Some,
        number_step(a + x).rest == x,
        x.len() > 0,
        y.len() > 0,
        x[0] == y[0],
    ensures
        number_step(a + y).found == number_step(a + x).found,
        number_step(a + y).rest == y,
{
    let whole = run_len(a + x, CharClass::Digit) as int;
    let len = number_len(a + x) as int;
    lemma_run_len_is_run_end(a + x, CharClass::Digit);
    if whole < (a + x).len() {
        lemma_run_len_is_run_end((a + x).skip(whole + 1), CharClass::Digit);
    }
    assert((a + x).skip(len).len() == x.len());
    assert(len == a.len());
    assert((a + y)[whole] == (a + x)[whole]);
    lemma_run_is_local(a, x, y, CharClass::Digit);
    if whole < a.len() {
        let fraction = a.skip(whole + 1);
        assert((a + x).skip(whole + 1) =~= fraction + x);
        assert((a + y).skip(whole + 1) =~= fraction + y);
        lemma_run_is_local(fraction, x, y, CharClass::Digit);
    }
    assert(number_len(a + y) == len);
    assert((a + y).take(len) =~= (a + x).take(len));
    assert((a + y).skip(len) =~= y);
}

/// A word that ends in front of `x` ends in front of any `y` that starts
/// like `x`.
proof fn lemma_word_is_local(a: Seq<char>, x: Seq<char>, y: Seq<char>)
    requires
        word_step(a + x).found is Some,
        word_step(a + x).rest == x,
        x.len() > 0,
        y.len() > 0,
        x[0] == y[0],
    ensures
        word_step(a + y).found == word_step(a + x).found,
        word_step(a + y).rest == y,
{
    let n = run_len((a + x).skip(1), CharClass::WordPart) as int;
    lemma_run_len_is_run_end((a + x).skip(1), CharClass::WordPart);
    assert((a + x).skip(1 + n).len() == x.len());
    assert(a.len() == 1 + n);
    let tail = a.skip(1);
    assert((a + x).skip(1) =~= tail + x);
    assert((a + y).skip(1) =~= tail + y);
    assert((a + y)[0] == (a + x)[0]);
    lemma_run_is_local(tail, x, y, CharClass::WordPart);
    assert((a + y).take(1 + n) =~= (a + x).take(1 + n));
    assert((a + y).skip(1 + n) =~= y);
}

/// A punctuation token is one character, whatever follows.
proof fn lemma_symbol_is_local(a: Seq<char>, x: Seq<char>, y: Seq<char>)
    requires
        symbol_step(a + x).found matches Ok(Some(_)),
        symbol_step(a + x).rest == x,
    ensures
        symbol_step(a + y).found == symbol_step(a + x).found,
        symbol_step(a + y).rest == y,
{
    assert((a + x).skip(1).len() == x.len());
    assert(a.len() == 1);
    assert((a + y)[0] == (a + x)[0]);
    assert((a + y).skip(1) =~= y);
}

/// A token depends on its own characters and on the one character after
/// them, and on nothing else: if a token ends where `x` begins, and `y`
/// begins with the same character, then with `y` in place of `x` the same
/// token is found and `y` is left.
pub proof fn lemma_token_is_local(a: Seq<char>, x: Seq<char>, y: Seq<char>)
    requires
        next_step(a + x).found matches Some(Ok(_)),
        next_step(a + x).rest == x,
        x.len() > 0,
        y.len() > 0,
        x[0] == y[0],
    ensures
        next_step(a + y).found == next_step(a + x).found,
        next_step(a + y).rest == y,
{
    let space = run_len(a + x, CharClass::Whitespace) as int;
    lemma_run_len_is_run_end(a + x, CharClass::Whitespace);
    lemma_scan_step_consumes(a + x);
    let t = skip_whitespace(a + x);
    assert(t.len() > 0);
    // The token lies in front of `x`, so the whitespace ends inside `a`.
    assert(space < a.len()) by {
        lemma_run_len_is_run_end(t.skip(1), CharClass::StringBody);
        lemma_run_len_is_run_end(t, CharClass::Digit);
        lemma_run_len_is_run_end(t.skip(1), CharClass::WordPart);
        let whole = run_len(t, CharClass::Digit) as int;
        if whole < t.len() {
            lemma_run_len_is_run_end(t.skip(whole + 1), CharClass::Digit);
        }
    }
    lemma_run_is_local(a, x, y, CharClass::Whitespace);
    let lexeme = a.skip(space);
    assert(t =~= lexeme + x);
    assert(skip_whitespace(a + y) =~= lexeme + y);
    assert((lexeme + y)[0] == (lexeme + x)[0]);
    if t[0] == '\'' {
        lemma_string_is_local(lexeme, x, y);
    } else if ascii_digit(t[0]) {
        lemma_number_is_local(lexeme, x, y);
    } else if unicode_alphabetic(t[0]) {
        lemma_word_is_local(lexeme, x, y);
    } else {
        lemma_symbol_is_local(lexeme, x, y);
    }
}

// The shape of each lexeme

/// A string literal is a quote, a body without quotes, and a quote: its token
/// holds the body, and what follows the closing quote is left.
pub proof fn lemma_string_literal(body: Seq<char>, rest: Seq<char>)
    requires
        all_in(body, CharClass::StringBody),
    ensures
        string_step(seq!['\''] + body + seq!['\''] + rest).found matches Ok(Some(TokenView::String(text)))
            && text == body,
        string_step(seq!['\''] + body + seq!['\''] + rest).rest == rest,
{
    let s = seq!['\''] + body + seq!['\''] + rest;
    let after_body = seq!['\''] + rest;
    assert(s.skip(1) =~= body + after_body);
    lemma_run_len_of_run(body, after_body, CharClass::StringBody);
    assert((body + after_body).take(body.len() as int) =~= body);
    assert((body + after_body).skip(body.len() as int + 1) =~= rest);
}

/// A quote that no other quote follows starts an unterminated string: the
/// step fails and uses up the input.
pub proof fn lemma_unterminated_string(body: Seq<char>)
    requires
        all_in(body, CharClass::StringBody),
    ensures
        string_step(seq!['\''] + body).found matches Err(LexError::UnterminatedString),
        string_step(seq!['\''] + body).rest.len() == 0,
{
    let s = seq!['\''] + body;
    assert(s.skip(1) =~= body + Seq::<char>::empty());
    lemma_run_len_of_run(body, Seq::<char>::empty(), CharClass::StringBody);
}

/// Digits that neither a digit nor a dot follows are a number literal.
pub proof fn lemma_integer_literal(digits: Seq<char>, rest: Seq<char>)
    requires
        digits.len() > 0,
        all_in(digits, CharClass::Digit),
        !starts_in(rest, CharClass::Digit),
        rest.len() > 0 ==> rest[0] != '.',
    ensures
        number_step(digits + rest) == (Step { found: Some(TokenView::Number(digits)), rest }),
{
    let s = digits + rest;
    lemma_run_len_of_run(digits, rest, CharClass::Digit);
    if digits.len() < s.len() {
        assert(s[digits.len() as int] == rest[0]);
    }
    assert(s.take(digits.len() as int) =~= digits);
    assert(s.skip(digits.len() as int) =~= rest);
}

/// Digits, a dot, and any digits after it (none at all will do) are a number
/// literal, dot included.
pub proof fn lemma_decimal_literal(whole: Seq<char>, fraction: Seq<char>, rest: Seq<char>)
    requires
        whole.len() > 0,
        all_in(whole, CharClass::Digit),
        all_in(fraction, CharClass::Digit),
        !starts_in(rest, CharClass::Digit),
    ensures
        number_step(whole + seq!['.'] + fraction + rest) == (Step {
            found: Some(TokenView::Number(whole + seq!['.'] + fraction)),
            rest,
        }),
{
    let literal = whole + seq!['.'] + fraction;
    let s = literal + rest;
    let after_whole = seq!['.'] + fraction + rest;
    assert(s =~= whole + after_whole);
    lemma_run_len_of_run(whole, after_whole, CharClass::Digit);
    assert(s[whole.len() as int] == '.');
    assert(s.skip(whole.len() as int + 1) =~= fraction + rest);
    lemma_run_len_of_run(fraction, rest, CharClass::Digit);
    assert(s.take(literal.len() as int) =~= literal);
    assert(s.skip(literal.len() as int) =~= rest);
}

/// An alphabetic character and the word characters after it, up to the first
/// character that is none, are one word.
pub proof fn lemma_word(first: char, tail: Seq<char>, rest: Seq<char>)
    requires
        unicode_alphabetic(first),
        all_in(tail, CharClass::WordPart),
        !starts_in(rest, CharClass::WordPart),
    ensures
        word_step(seq![first] + tail + rest) == (Step {
            found: Some(word_token(seq![first] + tail)),
            rest,
        }),
{
    let word = seq![first] + tail;
    let s = word + rest;
    assert(s.skip(1) =~= tail + rest);
    lemma_run_len_of_run(tail, rest, CharClass::WordPart);
    assert(s.take(word.len() as int) =~= word);
    assert(s.skip(word.len() as int) =~= rest);
}

/// Keyword recognition ignores case: words with the same uppercase form are
/// the same keyword, or are both identifiers.
pub proof fn lemma_keywords_ignore_case(word1: Seq<char>, word2: Seq<char>)
    requires
        uppercase(word1) == uppercase(word2),
    ensures
        keyword_of(uppercase(word1)) == keyword_of(uppercase(word2)),
        word_token(word1) is Keyword <==> word_token(word2) is Keyword,
        word_token(word1) is Keyword ==> word_token(word1) == word_token(word2),
{
}

/// Punctuation is its own token and takes one character: a character of the
/// punctuation table, unless it is whitespace or alphabetic, is found as its
/// token, and everything after it is left.
pub proof fn lemma_punctuation_is_one_token(c: char, rest: Seq<char>)
    requires
        symbol_of(c) is Some,
        !unicode_whitespace(c),
        !unicode_alphabetic(c),
    ensures
        next_step(seq![c] + rest).found == Some(Ok::<TokenView, LexError>(symbol_of(c)->0)),
        next_step(seq![c] + rest).rest == rest,
{
    let s = seq![c] + rest;
    lemma_run_end_is_run_len(s, CharClass::Whitespace, 0);
    assert(skip_whitespace(s) =~= s);
    assert(s.skip(1) =~= rest);
}

/// A character that is neither whitespace nor the start of any token is
/// reported as unexpected. The scanning step leaves it in the input; the
/// token stream ends with the error.
pub proof fn lemma_unexpected_character(c: char, rest: Seq<char>)
    requires
        !unicode_whitespace(c),
        c != '\'',
        !ascii_digit(c),
        !unicode_alphabetic(c),
        symbol_of(c) is None,
    ensures
        scan_step(seq![c] + rest).found == Err::<Option<TokenView>, LexError>(
            LexError::UnexpectedCharacter(c),
        ),
        scan_step(seq![c] + rest).rest == seq![c] + rest,
        next_step(seq![c] + rest).found == Some(
            Err::<TokenView, LexError>(LexError::UnexpectedCharacter(c)),
        ),
        next_step(seq![c] + rest).rest.len() == 0,
        tokens_of(seq![c] + rest) == Err::<Seq<TokenView>, LexError>(
            LexError::UnexpectedCharacter(c),
        ),
{
    let s = seq![c] + rest;
    lemma_run_end_is_run_len(s, CharClass::Whitespace, 0);
    assert(skip_whitespace(s) =~= s);
}

} // verus!
