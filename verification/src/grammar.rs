//! The lexical grammar, as functions from the remaining input to what a
//! scanning step finds there and what it leaves.

use vstd::prelude::*;
use crate::classes::{ascii_digit, lemma_run_len_is_run_end, run_len, unicode_alphabetic, CharClass};
use crate::keyword::keyword_of;
use crate::text::{lowercase, uppercase};
use crate::token::{symbol_of, LexError, Token, TokenView};

verus! {

/// The result of one scanning step: what was found at the front of the input,
/// and the input that is left for the steps after it.
pub struct Step<T> {
    pub found: T,
    pub rest: Seq<char>,
}

/// The input without its leading whitespace.
pub open spec fn skip_whitespace(s: Seq<char>) -> Seq<char> {
    s.skip(run_len(s, CharClass::Whitespace) as int)
}

/// A string literal: a quote, any characters but a quote, and a closing quote.
/// The token holds the characters between the quotes. Input that ends before
/// the closing quote is an error and is used up entirely. Input that does not
/// start with a quote holds no string literal.
pub open spec fn string_step(s: Seq<char>) -> Step<Result<Option<TokenView>, LexError>> {
    if s.len() == 0 || s[0] != '\'' {
        Step { found: Ok(None), rest: s }
    } else {
        let body = s.skip(1);
        let n = run_len(body, CharClass::StringBody) as int;
        if n < body.len() {
            Step { found: Ok(Some(TokenView::String(body.take(n)))), rest: body.skip(n + 1) }
        } else {
            Step { found: Err(LexError::UnterminatedString), rest: Seq::empty() }
        }
    }
}

/// Length of the number literal at the front of `s`: one or more digits,
/// then, if a dot follows them, the dot and any digits after it.
pub open spec fn number_len(s: Seq<char>) -> nat {
    let whole = run_len(s, CharClass::Digit);
    if 0 < whole < s.len() && s[whole as int] == '.' {
        whole + 1 + run_len(s.skip(whole as int + 1), CharClass::Digit)
    } else {
        whole
    }
}

/// A number literal; its token holds the literal as written.
pub open spec fn number_step(s: Seq<char>) -> Step<Option<TokenView>> {
    let n = number_len(s) as int;
    if n == 0 {
        Step { found: None, rest: s }
    } else {
        Step { found: Some(TokenView::Number(s.take(n))), rest: s.skip(n) }
    }
}

/// Length of the word at the front of `s`: an alphabetic character, then any
/// alphanumeric characters and underscores.
pub open spec fn word_len(s: Seq<char>) -> nat {
    if s.len() > 0 && unicode_alphabetic(s[0]) {
        1 + run_len(s.skip(1), CharClass::WordPart)
    } else {
        0
    }
}

/// The token of a word: its keyword if the uppercased word is in the keyword
/// table, else an identifier holding the lowercased word.
pub open spec fn word_token(word: Seq<char>) -> TokenView {
    match keyword_of(uppercase(word)) {
        Some(keyword) => TokenView::Keyword(keyword),
        None => TokenView::Ident(lowercase(word)),
    }
}

/// A keyword or an identifier.
pub open spec fn word_step(s: Seq<char>) -> Step<Option<TokenView>> {
    let n = word_len(s) as int;
    if n == 0 {
        Step { found: None, rest: s }
    } else {
        Step { found: Some(word_token(s.take(n))), rest: s.skip(n) }
    }
}

/// A punctuation character. A character outside the punctuation table is an
/// error and stays in the input.
pub open spec fn symbol_step(s: Seq<char>) -> Step<Result<Option<TokenView>, LexError>> {
    if s.len() == 0 {
        Step { found: Ok(None), rest: s }
    } else {
        match symbol_of(s[0]) {
            Some(token) => Step { found: Ok(Some(token)), rest: s.skip(1) },
            None => Step { found: Err(LexError::UnexpectedCharacter(s[0])), rest: s },
        }
    }
}

/// One token: leading whitespace is dropped, then the first character left
/// decides which kind of lexeme is scanned. Nothing is found when only
/// whitespace was left.
pub open spec fn scan_step(s: Seq<char>) -> Step<Result<Option<TokenView>, LexError>> {
    let t = skip_whitespace(s);
    if t.len() == 0 {
        Step { found: Ok(None), rest: t }
    } else if t[0] == '\'' {
        string_step(t)
    } else if ascii_digit(t[0]) {
        Step { found: Ok(number_step(t).found), rest: number_step(t).rest }
    } else if unicode_alphabetic(t[0]) {
        Step { found: Ok(word_step(t).found), rest: word_step(t).rest }
    } else {
        symbol_step(t)
    }
}

/// One element of the token stream. An error ends the stream: whatever input
/// was left is dropped with it.
pub open spec fn next_step(s: Seq<char>) -> Step<Option<Result<TokenView, LexError>>> {
    let step = scan_step(s);
    match step.found {
        Ok(Some(token)) => Step { found: Some(Ok(token)), rest: step.rest },
        Ok(None) => Step { found: None, rest: step.rest },
        Err(error) => Step { found: Some(Err(error)), rest: Seq::empty() },
    }
}

/// The input that is left after `n` elements of the token stream.
pub open spec fn rest_after(s: Seq<char>, n: nat) -> Seq<char>
    decreases n,
{
    if n == 0 {
        s
    } else {
        rest_after(next_step(s).rest, (n - 1) as nat)
    }
}

/// The stream `stream` with `tokens` in front of it: an error stays the error.
pub open spec fn preceded_by(
    tokens: Seq<TokenView>,
    stream: Result<Seq<TokenView>, LexError>,
) -> Result<Seq<TokenView>, LexError> {
    match stream {
        Ok(rest) => Ok(tokens + rest),
        Err(error) => Err(error),
    }
}

/// The whole token stream: the tokens in source order, or the first error.
pub open spec fn tokens_of(s: Seq<char>) -> Result<Seq<TokenView>, LexError>
    decreases s.len(),
    via tokens_of_decreases
{
    let step = next_step(s);
    match step.found {
        None => Ok(Seq::empty()),
        Some(Err(error)) => Err(error),
        Some(Ok(token)) => preceded_by(seq![token], tokens_of(step.rest)),
    }
}

#[via_fn]
proof fn tokens_of_decreases(s: Seq<char>) {
    lemma_scan_step_consumes(s);
}

/// The view of what a scanning step returns.
pub open spec fn scan_view(r: Result<Option<Token>, LexError>) -> Result<Option<TokenView>, LexError> {
    match r {
        Ok(found) => Ok(found.deep_view()),
        Err(error) => Err(error),
    }
}

/// The view of an element of the token stream.
pub open spec fn item_view(r: Option<Result<Token, LexError>>) -> Option<Result<TokenView, LexError>> {
    match r {
        Some(Ok(token)) => Some(Ok(token@)),
        Some(Err(error)) => Some(Err(error)),
        None => None,
    }
}

/// The view of a collected token stream.
pub open spec fn tokens_view(r: Result<Vec<Token>, LexError>) -> Result<Seq<TokenView>, LexError> {
    match r {
        Ok(tokens) => Ok(tokens.deep_view()),
        Err(error) => Err(error),
    }
}

/// Skipping whitespace leaves a suffix of the input.
pub proof fn lemma_skip_whitespace_is_suffix(s: Seq<char>)
    ensures
        skip_whitespace(s).len() <= s.len(),
        skip_whitespace(s) == s.skip(s.len() - skip_whitespace(s).len()),
{
    lemma_run_len_is_run_end(s, CharClass::Whitespace);
}

/// A scanning step never looks back: what it leaves is a suffix of its input,
/// and a step that finds a token leaves strictly less than it was given.
pub proof fn lemma_scan_step_consumes(s: Seq<char>)
    ensures
        scan_step(s).rest.len() <= s.len(),
        scan_step(s).rest == s.skip(s.len() - scan_step(s).rest.len()),
        scan_step(s).found matches Ok(Some(_)) ==> scan_step(s).rest.len() < s.len(),
{
    lemma_skip_whitespace_is_suffix(s);
    let t = skip_whitespace(s);
    let k = s.len() - t.len();
    if t.len() > 0 {
        lemma_run_len_is_run_end(t.skip(1), CharClass::StringBody);
        lemma_run_len_is_run_end(t, CharClass::Digit);
        lemma_run_len_is_run_end(t.skip(1), CharClass::WordPart);
        let whole = run_len(t, CharClass::Digit) as int;
        if whole < t.len() {
            lemma_run_len_is_run_end(t.skip(whole + 1), CharClass::Digit);
        }
        let rest = scan_step(s).rest;
        let m = t.len() - rest.len();
        assert(rest =~= t.skip(m));
        assert(t.skip(m) =~= s.skip(k + m));
    } else {
        assert(t =~= s.skip(s.len() as int));
    }
}

} // verus!
