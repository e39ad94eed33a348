//! Tokens, their mathematical view, and lexical errors.

use vstd::prelude::*;
use crate::keyword::Keyword;

verus! {

/// One classified lexeme.
#[derive(Debug, PartialEq, Eq)]
pub enum Token {
    /// A reserved word.
    Keyword(Keyword),
    /// A name that is not reserved, in lowercase.
    Ident(String),
    /// The characters between the quotes of a string literal.
    String(String),
    /// The text of a number literal.
    Number(String),
    OpenParen,
    CloseParen,
    Comma,
    Semicolon,
    Asterisk,
    Plus,
    Minus,
    Slash,
}

/// A token with its text as a sequence of characters.
pub enum TokenView {
    Keyword(Keyword),
    Ident(Seq<char>),
    String(Seq<char>),
    Number(Seq<char>),
    OpenParen,
    CloseParen,
    Comma,
    Semicolon,
    Asterisk,
    Plus,
    Minus,
    Slash,
}

impl View for Token {
    type V = TokenView;

    open spec fn view(&self) -> TokenView {
        match self {
            Token::Keyword(k) => TokenView::Keyword(*k),
            Token::Ident(s) => TokenView::Ident(s@),
            Token::String(s) => TokenView::String(s@),
            Token::Number(s) => TokenView::Number(s@),
            Token::OpenParen => TokenView::OpenParen,
            Token::CloseParen => TokenView::CloseParen,
            Token::Comma => TokenView::Comma,
            Token::Semicolon => TokenView::Semicolon,
            Token::Asterisk => TokenView::Asterisk,
            Token::Plus => TokenView::Plus,
            Token::Minus => TokenView::Minus,
            Token::Slash => TokenView::Slash,
        }
    }
}

impl DeepView for Token {
    type V = TokenView;

    open spec fn deep_view(&self) -> TokenView {
        self@
    }
}

impl Clone for Token {
    fn clone(&self) -> (r: Token)
        ensures
            r@ == self@,
    {
        match self {
            Token::Keyword(keyword) => Token::Keyword(*keyword),
            Token::Ident(text) => Token::Ident(text.clone()),
            Token::String(text) => Token::String(text.clone()),
            Token::Number(text) => Token::Number(text.clone()),
            Token::OpenParen => Token::OpenParen,
            Token::CloseParen => Token::CloseParen,
            Token::Comma => Token::Comma,
            Token::Semicolon => Token::Semicolon,
            Token::Asterisk => Token::Asterisk,
            Token::Plus => Token::Plus,
            Token::Minus => Token::Minus,
            Token::Slash => Token::Slash,
        }
    }
}

/// The punctuation table: the token that a single character stands for.
pub open spec fn symbol_of(c: char) -> Option<TokenView> {
    if c == '*' {
        Some(TokenView::Asterisk)
    } else if c == '(' {
        Some(TokenView::OpenParen)
    } else if c == ')' {
        Some(TokenView::CloseParen)
    } else if c == ',' {
        Some(TokenView::Comma)
    } else if c == ';' {
        Some(TokenView::Semicolon)
    } else if c == '+' {
        Some(TokenView::Plus)
    } else if c == '-' {
        Some(TokenView::Minus)
    } else if c == '/' {
        Some(TokenView::Slash)
    } else {
        None
    }
}

impl Token {
    /// Looks a character up in the punctuation table.
    pub fn symbol(c: char) -> (r: Option<Token>)
        ensures
            r.deep_view() == symbol_of(c),
    {
        match c {
            '*' => Some(Token::Asterisk),
            '(' => Some(Token::OpenParen),
            ')' => Some(Token::CloseParen),
            ',' => Some(Token::Comma),
            ';' => Some(Token::Semicolon),
            '+' => Some(Token::Plus),
            '-' => Some(Token::Minus),
            '/' => Some(Token::Slash),
            _ => None,
        }
    }
}

/// Why a piece of input could not be classified.
#[derive(Debug, Clone, Copy, PartialEq, Eq)]
pub enum LexError {
    /// The input ended inside a string literal.
    UnterminatedString,
    /// A character that starts no token.
    UnexpectedCharacter(char),
}

impl LexError {
    /// The text of [`LexError::message`].
    pub open spec fn message_text(self) -> Seq<char> {
        match self {
            LexError::UnterminatedString => "[Lexer] Unexpected end of string"@,
            LexError::UnexpectedCharacter(c) => "[Lexer] Unexpected character "@.push(c),
        }
    }

    /// A human-readable description of the error; for an unexpected character
    /// it ends with that character.
    pub fn message(&self) -> (r: String)
        ensures
            r@ == self.message_text(),
    {
        match self {
            LexError::UnterminatedString => "[Lexer] Unexpected end of string".to_owned(),
            LexError::UnexpectedCharacter(c) => {
                let mut text = "[Lexer] Unexpected character ".to_owned();
                text.push(*c);
                text
            },
        }
    }
}

} // verus!
