//! The lexer: a cursor over the characters of the input.

use vstd::prelude::*;
use vstd::utf8::encode_utf8_decode_utf8;
use crate::classes::{
    ascii_digit, lemma_run_end_is_run_len, unicode_alphabetic, unicode_whitespace, CharClass,
};
use crate::grammar::{
    item_view, lemma_scan_step_consumes, next_step, number_step, preceded_by, scan_step,
    scan_view, skip_whitespace, string_step, symbol_step, tokens_of, tokens_view, word_step,
};
use crate::keyword::Keyword;
use crate::text::lemma_first_char_boundary;
use crate::token::{LexError, Token, TokenView};

verus! {

/// A lexer over SQL text. It holds the part of the text that it has not
/// consumed yet, which is also its view.
pub struct Lexer<'a> {
    rest: &'a str,
}

impl<'a> View for Lexer<'a> {
    type V = Seq<char>;

    closed spec fn view(&self) -> Seq<char> {
        self.rest@
    }
}

impl<'a> Lexer<'a> {
    /// A lexer at the start of `sql_text`. Nothing is scanned yet.
    pub fn new(sql_text: &'a str) -> (lexer: Lexer<'a>)
        ensures
            lexer@ == sql_text@,
    {
        Lexer { rest: sql_text }
    }

    /// The next character, which stays in the input.
    fn peek(&self) -> (r: Option<char>)
        ensures
            self@.len() == 0 ==> r is None,
            self@.len() > 0 ==> r == Some(self@[0]),
    {
        let mut chars = self.rest.chars();
        chars.next()
    }

    /// Takes the next character out of the input.
    fn bump(&mut self) -> (r: Option<char>)
        ensures
            old(self)@.len() == 0 ==> r is None && final(self)@ == old(self)@,
            old(self)@.len() > 0 ==> r == Some(old(self)@[0]) && final(self)@ == old(self)@.skip(1),
    {
        match self.peek() {
            Some(c) => {
                proof {
                    lemma_first_char_boundary(self.rest@);
                }
                let (_, tail) = self.rest.split_at(c.len_utf8());
                proof {
                    encode_utf8_decode_utf8(tail@);
                    encode_utf8_decode_utf8(self.rest@.skip(1));
                }
                self.rest = tail;
                Some(c)
            },
            None => None,
        }
    }

    /// Drops all the input that is left.
    fn finish(&mut self)
        ensures
            final(self)@ == Seq::<char>::empty(),
    {
        proof {
            reveal_strlit("");
        }
        self.rest = "";
        assert(self@ =~= Seq::<char>::empty());
    }

    /// Consumes the next character if `predicate` accepts it, and returns it.
    pub fn next_if<F: Fn(char) -> bool>(&mut self, predicate: F) -> (r: Option<char>)
        requires
            old(self)@.len() > 0 ==> call_requires(predicate, (old(self)@[0],)),
        ensures
            match r {
                Some(c) => {
                    &&& old(self)@.len() > 0
                    &&& c == old(self)@[0]
                    &&& call_ensures(predicate, (c,), true)
                    &&& final(self)@ == old(self)@.skip(1)
                },
                None => {
                    &&& final(self)@ == old(self)@
                    &&& old(self)@.len() > 0 ==> call_ensures(predicate, (old(self)@[0],), false)
                },
            },
    {
        match self.peek() {
            Some(c) => {
                if predicate(c) {
                    self.bump()
                } else {
                    None
                }
            },
            None => None,
        }
    }

    /// Consumes characters for as long as `predicate` accepts them, and
    /// returns them; `None` if it accepts not even the first.
    pub fn next_while<F: Fn(char) -> bool>(&mut self, predicate: F) -> (r: Option<String>)
        requires
            forall|i: int| 0 <= i < old(self)@.len() ==> call_requires(predicate, (#[trigger] old(self)@[i],)),
        ensures
            ({
                let n = old(self)@.len() - final(self)@.len();
                &&& 0 <= n <= old(self)@.len()
                &&& final(self)@ == old(self)@.skip(n)
                &&& forall|i: int| 0 <= i < n ==> call_ensures(predicate, (#[trigger] old(self)@[i],), true)
                &&& n < old(self)@.len() ==> call_ensures(predicate, (old(self)@[n],), false)
                &&& match r {
                    Some(text) => n > 0 && text@ == old(self)@.take(n),
                    None => n == 0,
                }
            }),
    {
        let mut value = String::new();
        let ghost mut n: int = 0;
        loop
            invariant
                0 <= n <= old(self)@.len(),
                self@ == old(self)@.skip(n),
                value@ == old(self)@.take(n),
                forall|i: int| 0 <= i < old(self)@.len() ==> call_requires(predicate, (#[trigger] old(self)@[i],)),
                forall|i: int| 0 <= i < n ==> call_ensures(predicate, (#[trigger] old(self)@[i],), true),
            ensures
                0 <= n <= old(self)@.len(),
                self@ == old(self)@.skip(n),
                value@ == old(self)@.take(n),
                forall|i: int| 0 <= i < n ==> call_ensures(predicate, (#[trigger] old(self)@[i],), true),
                n < old(self)@.len() ==> call_ensures(predicate, (old(self)@[n],), false),
            decreases old(self)@.len() - n,
        {
            match self.next_if(&predicate) {
                Some(c) => {
                    value.push(c);
                    proof {
                        assert(old(self)@.skip(n).skip(1) =~= old(self)@.skip(n + 1));
                        assert(old(self)@.take(n).push(c) =~= old(self)@.take(n + 1));
                        n = n + 1;
                    }
                },
                None => {
                    break ;
                },
            }
        }
        if value.as_str().is_empty() {
            None
        } else {
            Some(value)
        }
    }

    /// Consumes the next character if `predicate` makes a token of it, and
    /// returns that token.
    pub fn next_if_token<F: Fn(char) -> Option<Token>>(&mut self, predicate: F) -> (r: Option<Token>)
        requires
            old(self)@.len() > 0 ==> call_requires(predicate, (old(self)@[0],)),
        ensures
            match r {
                Some(token) => {
                    &&& old(self)@.len() > 0
                    &&& call_ensures(predicate, (old(self)@[0],), Some(token))
                    &&& final(self)@ == old(self)@.skip(1)
                },
                None => {
                    &&& final(self)@ == old(self)@
                    &&& old(self)@.len() > 0 ==> call_ensures(predicate, (old(self)@[0],), None)
                },
            },
    {
        match self.peek() {
            Some(c) => {
                let token = predicate(c);
                if token.is_some() {
                    self.bump();
                }
                token
            },
            None => None,
        }
    }

    /// Drops the whitespace at the front of the input.
    pub fn erase_whitespace(&mut self)
        ensures
            final(self)@ == skip_whitespace(old(self)@),
    {
        let is_space = |c: char| -> (b: bool)
            ensures
                b == unicode_whitespace(c),
            { c.is_whitespace() };
        let _ = self.next_while(is_space);
        proof {
            lemma_run_end_is_run_len(old(self)@, CharClass::Whitespace, old(self)@.len() - self@.len());
        }
    }

    /// Scans a string literal, if the input starts with a quote.
    pub fn scan_string(&mut self) -> (r: Result<Option<Token>, LexError>)
        ensures
            scan_view(r) == string_step(old(self)@).found,
            final(self)@ == string_step(old(self)@).rest,
    {
        let is_quote = |c: char| -> (b: bool)
            ensures
                b == (c == '\''),
            { c == '\'' };
        if self.next_if(is_quote).is_none() {
            return Ok(None);
        }
        let mut val = String::new();
        let ghost body = self@;
        let ghost mut n: int = 0;
        loop
            invariant_except_break
                self@ == body.skip(n),
            invariant
                old(self)@.len() > 0,
                old(self)@[0] == '\'',
                body == old(self)@.skip(1),
                0 <= n <= body.len(),
                val@ == body.take(n),
                forall|i: int| 0 <= i < n ==> #[trigger] body[i] != '\'',
            ensures
                n < body.len(),
                body[n] == '\'',
                self@ == body.skip(n + 1),
            decreases body.len() - n,
        {
            match self.bump() {
                Some(c) => {
                    proof {
                        assert(body.skip(n).skip(1) =~= body.skip(n + 1));
                    }
                    if c == '\'' {
                        break ;
                    }
                    val.push(c);
                    proof {
                        assert(body.take(n).push(c) =~= body.take(n + 1));
                        n = n + 1;
                    }
                },
                None => {
                    proof {
                        lemma_run_end_is_run_len(body, CharClass::StringBody, n);
                        assert(self@ =~= Seq::<char>::empty());
                    }
                    return Err(LexError::UnterminatedString);
                },
            }
        }
        proof {
            lemma_run_end_is_run_len(body, CharClass::StringBody, n);
        }
        Ok(Some(Token::String(val)))
    }

    /// Scans a number literal, if the input starts with a digit.
    pub fn scan_number(&mut self) -> (r: Option<Token>)
        ensures
            r.deep_view() == number_step(old(self)@).found,
            final(self)@ == number_step(old(self)@).rest,
    {
        let is_digit = |c: char| -> (b: bool)
            ensures
                b == ascii_digit(c),
            { c.is_ascii_digit() };
        let is_dot = |c: char| -> (b: bool)
            ensures
                b == (c == '.'),
            { c == '.' };
        let mut num = match self.next_while(&is_digit) {
            Some(digits) => digits,
            None => {
                proof {
                    lemma_run_end_is_run_len(old(self)@, CharClass::Digit, 0);
                }
                return None;
            },
        };
        let ghost whole = old(self)@.len() - self@.len();
        proof {
            lemma_run_end_is_run_len(old(self)@, CharClass::Digit, whole);
        }
        if let Some(sep) = self.next_if(is_dot) {
            num.push(sep);
            let ghost fraction = self@;
            let ghost mut n: int = 0;
            proof {
                assert(fraction =~= old(self)@.skip(whole + 1));
                assert(old(self)@.take(whole).push(sep) =~= old(self)@.take(whole + 1));
            }
            loop
                invariant
                    0 <= whole < old(self)@.len(),
                    fraction == old(self)@.skip(whole + 1),
                    0 <= n <= fraction.len(),
                    self@ == fraction.skip(n),
                    num@ == old(self)@.take(whole + 1 + n),
                    forall|i: int| 0 <= i < n ==> ascii_digit(#[trigger] fraction[i]),
                    forall|c: char| call_requires(is_digit, (c,)),
                    forall|c: char, b: bool| call_ensures(is_digit, (c,), b) ==> b == ascii_digit(c),
                ensures
                    0 <= n <= fraction.len(),
                    self@ == fraction.skip(n),
                    num@ == old(self)@.take(whole + 1 + n),
                    forall|i: int| 0 <= i < n ==> ascii_digit(#[trigger] fraction[i]),
                    n < fraction.len() ==> !ascii_digit(fraction[n]),
                decreases fraction.len() - n,
            {
                match self.next_if(&is_digit) {
                    Some(c) => {
                        num.push(c);
                        proof {
                            assert(fraction.skip(n).skip(1) =~= fraction.skip(n + 1));
                            assert(old(self)@.take(whole + 1 + n).push(c) =~= old(self)@.take(
                                whole + 1 + n + 1,
                            ));
                            n = n + 1;
                        }
                    },
                    None => {
                        break ;
                    },
                }
            }
            proof {
                lemma_run_end_is_run_len(fraction, CharClass::Digit, n);
                assert(fraction.skip(n) =~= old(self)@.skip(whole + 1 + n));
            }
        }
        Some(Token::Number(num))
    }

    /// Scans a keyword or an identifier, if the input starts with an
    /// alphabetic character.
    pub fn scan_ident(&mut self) -> (r: Option<Token>)
        ensures
            r.deep_view() == word_step(old(self)@).found,
            final(self)@ == word_step(old(self)@).rest,
    {
        let is_first = |c: char| -> (b: bool)
            ensures
                b == unicode_alphabetic(c),
            { c.is_alphabetic() };
        let is_part = |c: char| -> (b: bool)
            ensures
                b == CharClass::WordPart.contains(c),
            { c.is_alphanumeric() || c == '_' };
        let first = match self.next_if(is_first) {
            Some(c) => c,
            None => {
                return None;
            },
        };
        let mut value = String::new();
        value.push(first);
        let ghost tail = self@;
        let ghost mut n: int = 0;
        proof {
            assert(Seq::<char>::empty().push(first) =~= old(self)@.take(1));
        }
        loop
            invariant
                0 < old(self)@.len(),
                tail == old(self)@.skip(1),
                0 <= n <= tail.len(),
                self@ == tail.skip(n),
                value@ == old(self)@.take(1 + n),
                forall|i: int| 0 <= i < n ==> CharClass::WordPart.contains(#[trigger] tail[i]),
                forall|c: char| call_requires(is_part, (c,)),
                forall|c: char, b: bool|
                    call_ensures(is_part, (c,), b) ==> b == CharClass::WordPart.contains(c),
            ensures
                0 <= n <= tail.len(),
                self@ == tail.skip(n),
                value@ == old(self)@.take(1 + n),
                forall|i: int| 0 <= i < n ==> CharClass::WordPart.contains(#[trigger] tail[i]),
                n < tail.len() ==> !CharClass::WordPart.contains(tail[n]),
            decreases tail.len() - n,
        {
            match self.next_if(&is_part) {
                Some(c) => {
                    value.push(c);
                    proof {
                        assert(tail.skip(n).skip(1) =~= tail.skip(n + 1));
                        assert(old(self)@.take(1 + n).push(c) =~= old(self)@.take(1 + n + 1));
                        n = n + 1;
                    }
                },
                None => {
                    break ;
                },
            }
        }
        proof {
            lemma_run_end_is_run_len(tail, CharClass::WordPart, n);
            assert(tail.skip(n) =~= old(self)@.skip(1 + n));
        }
        let token = match Keyword::from_str(value.as_str()) {
            Some(keyword) => Token::Keyword(keyword),
            None => Token::Ident(value.as_str().to_lowercase()),
        };
        Some(token)
    }

    /// Scans one punctuation character. A character that is no punctuation
    /// is reported and left in the input.
    pub fn scan_symbol(&mut self) -> (r: Result<Option<Token>, LexError>)
        ensures
            scan_view(r) == symbol_step(old(self)@).found,
            final(self)@ == symbol_step(old(self)@).rest,
    {
        match self.next_if_token(Token::symbol) {
            Some(token) => Ok(Some(token)),
            None => match self.peek() {
                Some(c) => Err(LexError::UnexpectedCharacter(c)),
                None => Ok(None),
            },
        }
    }

    /// Scans the next token. `Ok(None)` means that the input has ended.
    pub fn scan(&mut self) -> (r: Result<Option<Token>, LexError>)
        ensures
            scan_view(r) == scan_step(old(self)@).found,
            final(self)@ == scan_step(old(self)@).rest,
    {
        self.erase_whitespace();
        match self.peek() {
            Some(c) => {
                if c == '\'' {
                    self.scan_string()
                } else if c.is_ascii_digit() {
                    Ok(self.scan_number())
                } else if c.is_alphabetic() {
                    Ok(self.scan_ident())
                } else {
                    self.scan_symbol()
                }
            },
            None => Ok(None),
        }
    }

    /// The next element of the token stream: a token, an error, or `None` at
    /// the end of the input. After an error the stream has ended.
    pub fn next(&mut self) -> (r: Option<Result<Token, LexError>>)
        ensures
            item_view(r) == next_step(old(self)@).found,
            final(self)@ == next_step(old(self)@).rest,
    {
        match self.scan() {
            Ok(Some(token)) => Some(Ok(token)),
            Ok(None) => None,
            Err(error) => {
                self.finish();
                Some(Err(error))
            },
        }
    }

    /// Runs the token stream to its end and collects it: all tokens in
    /// source order, or the first error.
    pub fn tokenize(self) -> (r: Result<Vec<Token>, LexError>)
        ensures
            tokens_view(r) == tokens_of(self@),
    {
        let mut lexer = self;
        let mut tokens: Vec<Token> = Vec::new();
        loop
            invariant
                tokens_of(self@) == preceded_by(tokens.deep_view(), tokens_of(lexer@)),
            decreases lexer@.len(),
        {
            let ghost collected = tokens.deep_view();
            proof {
                lemma_scan_step_consumes(lexer@);
            }
            match lexer.next() {
                Some(Ok(token)) => {
                    tokens.push(token);
                    proof {
                        assert(tokens.deep_view() =~= collected.push(token@));
                        if let Ok(rest) = tokens_of(lexer@) {
                            assert(collected.push(token@) + rest =~= collected + (seq![token@] + rest));
                        }
                    }
                },
                Some(Err(error)) => {
                    return Err(error);
                },
                None => {
                    assert(tokens.deep_view() + Seq::<TokenView>::empty() =~= tokens.deep_view());
                    return Ok(tokens);
                },
            }
        }
    }
}

} // verus!
