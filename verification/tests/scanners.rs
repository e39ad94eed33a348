use sql_lexer::{Keyword, LexError, Lexer, Token};

#[test]
fn scan_skips_whitespace_and_dispatches_on_the_first_character() {
    let mut lexer = Lexer::new("  'a' 12 key ; ");
    assert_eq!(lexer.scan(), Ok(Some(Token::String("a".to_string()))));
    assert_eq!(lexer.scan(), Ok(Some(Token::Number("12".to_string()))));
    assert_eq!(lexer.scan(), Ok(Some(Token::Keyword(Keyword::Key))));
    assert_eq!(lexer.scan(), Ok(Some(Token::Semicolon)));
    assert_eq!(lexer.scan(), Ok(None));
    assert_eq!(lexer.scan(), Ok(None));
}

#[test]
fn scan_leaves_an_unexpected_character_in_the_input() {
    let mut lexer = Lexer::new(" @x");
    assert_eq!(lexer.scan(), Err(LexError::UnexpectedCharacter('@')));
    assert_eq!(lexer.scan(), Err(LexError::UnexpectedCharacter('@')));
    assert_eq!(lexer.next_if(|c| c == '@'), Some('@'));
    assert_eq!(lexer.scan(), Ok(Some(Token::Ident("x".to_string()))));
}

#[test]
fn scan_symbol_leaves_what_is_no_punctuation() {
    let mut lexer = Lexer::new("a+");
    assert_eq!(lexer.scan_symbol(), Err(LexError::UnexpectedCharacter('a')));
    assert_eq!(lexer.scan_ident(), Some(Token::Ident("a".to_string())));
    assert_eq!(lexer.scan_symbol(), Ok(Some(Token::Plus)));
    assert_eq!(lexer.scan_symbol(), Ok(None));
}

#[test]
fn scan_symbol_does_not_skip_whitespace() {
    let mut lexer = Lexer::new(" +");
    assert_eq!(lexer.scan_symbol(), Err(LexError::UnexpectedCharacter(' ')));
}

#[test]
fn scan_string_needs_an_opening_quote() {
    let mut lexer = Lexer::new("abc'");
    assert_eq!(lexer.scan_string(), Ok(None));
    assert_eq!(lexer.scan_ident(), Some(Token::Ident("abc".to_string())));
    assert_eq!(lexer.scan_string(), Err(LexError::UnterminatedString));
    assert_eq!(lexer.scan_string(), Ok(None));
    assert_eq!(lexer.scan(), Ok(None));
}

#[test]
fn scan_string_takes_the_text_between_the_quotes() {
    let mut lexer = Lexer::new("'hello'rest");
    assert_eq!(lexer.scan_string(), Ok(Some(Token::String("hello".to_string()))));
    assert_eq!(lexer.scan_ident(), Some(Token::Ident("rest".to_string())));
    let mut lexer = Lexer::new("''");
    assert_eq!(lexer.scan_string(), Ok(Some(Token::String(String::new()))));
    assert_eq!(lexer.scan_string(), Ok(None));
}

#[test]
fn unterminated_string_uses_up_the_input() {
    let mut lexer = Lexer::new("'abc def");
    assert_eq!(lexer.scan_string(), Err(LexError::UnterminatedString));
    assert_eq!(lexer.scan(), Ok(None));
}

#[test]
fn scan_number_needs_a_digit() {
    let mut lexer = Lexer::new("x1");
    assert_eq!(lexer.scan_number(), None);
    assert_eq!(lexer.scan_ident(), Some(Token::Ident("x1".to_string())));
    let mut lexer = Lexer::new(".5");
    assert_eq!(lexer.scan_number(), None);
    let mut lexer = Lexer::new("");
    assert_eq!(lexer.scan_number(), None);
}

#[test]
fn scan_number_takes_digits_a_dot_and_digits() {
    let mut lexer = Lexer::new("12.50.7");
    assert_eq!(lexer.scan_number(), Some(Token::Number("12.50".to_string())));
    assert_eq!(lexer.next_if(|c| c == '.'), Some('.'));
    assert_eq!(lexer.scan_number(), Some(Token::Number("7".to_string())));
    assert_eq!(lexer.scan_number(), None);
}

#[test]
fn scan_number_accepts_a_trailing_dot() {
    let mut lexer = Lexer::new("12.x");
    assert_eq!(lexer.scan_number(), Some(Token::Number("12.".to_string())));
    assert_eq!(lexer.scan_ident(), Some(Token::Ident("x".to_string())));
    let mut lexer = Lexer::new("3.");
    assert_eq!(lexer.scan_number(), Some(Token::Number("3.".to_string())));
    assert_eq!(lexer.scan(), Ok(None));
}

#[test]
fn scan_ident_needs_a_letter() {
    let mut lexer = Lexer::new("1a");
    assert_eq!(lexer.scan_ident(), None);
    let mut lexer = Lexer::new("_a");
    assert_eq!(lexer.scan_ident(), None);
    let mut lexer = Lexer::new("");
    assert_eq!(lexer.scan_ident(), None);
}

#[test]
fn scan_ident_tells_keywords_from_identifiers() {
    let mut lexer = Lexer::new("Table1");
    assert_eq!(lexer.scan_ident(), Some(Token::Ident("table1".to_string())));
    let mut lexer = Lexer::new("TABLE(");
    assert_eq!(lexer.scan_ident(), Some(Token::Keyword(Keyword::Table)));
    assert_eq!(lexer.scan_symbol(), Ok(Some(Token::OpenParen)));
    let mut lexer = Lexer::new("FALSE true");
    assert_eq!(lexer.scan_ident(), Some(Token::Keyword(Keyword::False)));
    assert_eq!(lexer.scan_ident(), None);
    lexer.erase_whitespace();
    assert_eq!(lexer.scan_ident(), Some(Token::Keyword(Keyword::True)));
}

#[test]
fn erase_whitespace_stops_at_the_first_other_character() {
    let mut lexer = Lexer::new(" \t\r\n\u{2003}x y");
    lexer.erase_whitespace();
    assert_eq!(lexer.next_if(|_| true), Some('x'));
    lexer.erase_whitespace();
    lexer.erase_whitespace();
    assert_eq!(lexer.next_if(|_| true), Some('y'));
    lexer.erase_whitespace();
    assert_eq!(lexer.next_if(|_| true), None);
}

#[test]
fn next_if_consumes_only_what_the_predicate_accepts() {
    let mut lexer = Lexer::new("ab");
    assert_eq!(lexer.next_if(|c| c == 'b'), None);
    assert_eq!(lexer.next_if(|c| c == 'a'), Some('a'));
    assert_eq!(lexer.next_if(|c| c == 'a'), None);
    assert_eq!(lexer.next_if(|c| c == 'b'), Some('b'));
    assert_eq!(lexer.next_if(|_| true), None);
}

#[test]
fn next_while_returns_the_longest_accepted_run() {
    let mut lexer = Lexer::new("aaab");
    assert_eq!(lexer.next_while(|c| c == 'a'), Some("aaa".to_string()));
    assert_eq!(lexer.next_while(|c| c == 'a'), None);
    assert_eq!(lexer.next_while(|c| c == 'b'), Some("b".to_string()));
    assert_eq!(lexer.next_while(|_| true), None);
}

#[test]
fn next_if_token_consumes_only_what_becomes_a_token() {
    let mut lexer = Lexer::new("+a");
    assert_eq!(lexer.next_if_token(Token::symbol), Some(Token::Plus));
    assert_eq!(lexer.next_if_token(Token::symbol), None);
    assert_eq!(
        lexer.next_if_token(|c| Some(Token::Ident(c.to_string()))),
        Some(Token::Ident("a".to_string()))
    );
    assert_eq!(lexer.next_if_token(|_| Some(Token::Comma)), None);
}

#[test]
fn characters_beyond_ascii_are_single_characters() {
    let mut lexer = Lexer::new("é'ü'");
    assert_eq!(lexer.next_if(|c| c == 'é'), Some('é'));
    assert_eq!(lexer.scan_string(), Ok(Some(Token::String("ü".to_string()))));
    assert_eq!(lexer.scan(), Ok(None));
}
