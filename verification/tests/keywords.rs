use sql_lexer::{Keyword, LexError};

#[test]
fn from_str_ignores_case() {
    assert_eq!(Keyword::from_str("CREATE"), Some(Keyword::Create));
    assert_eq!(Keyword::from_str("create"), Some(Keyword::Create));
    assert_eq!(Keyword::from_str("Create"), Some(Keyword::Create));
}

#[test]
fn from_str_knows_the_whole_table() {
    assert_eq!(Keyword::from_str("create"), Some(Keyword::Create));
    assert_eq!(Keyword::from_str("table"), Some(Keyword::Table));
    assert_eq!(Keyword::from_str("true"), Some(Keyword::True));
    assert_eq!(Keyword::from_str("false"), Some(Keyword::False));
    assert_eq!(Keyword::from_str("int"), Some(Keyword::Int4));
    assert_eq!(Keyword::from_str("integer"), Some(Keyword::Int4));
    assert_eq!(Keyword::from_str("primary"), Some(Keyword::Primary));
    assert_eq!(Keyword::from_str("key"), Some(Keyword::Key));
}

#[test]
fn from_str_rejects_other_words() {
    assert_eq!(Keyword::from_str(""), None);
    assert_eq!(Keyword::from_str("tbl"), None);
    assert_eq!(Keyword::from_str("int4"), None);
    assert_eq!(Keyword::from_str("creat"), None);
    assert_eq!(Keyword::from_str("created"), None);
    assert_eq!(Keyword::from_str(" key"), None);
}

#[test]
fn from_uppercase_is_exact() {
    assert_eq!(Keyword::from_uppercase("CREATE"), Some(Keyword::Create));
    assert_eq!(Keyword::from_uppercase("TABLE"), Some(Keyword::Table));
    assert_eq!(Keyword::from_uppercase("TRUE"), Some(Keyword::True));
    assert_eq!(Keyword::from_uppercase("FALSE"), Some(Keyword::False));
    assert_eq!(Keyword::from_uppercase("INT"), Some(Keyword::Int4));
    assert_eq!(Keyword::from_uppercase("INTEGER"), Some(Keyword::Int4));
    assert_eq!(Keyword::from_uppercase("PRIMARY"), Some(Keyword::Primary));
    assert_eq!(Keyword::from_uppercase("KEY"), Some(Keyword::Key));
    assert_eq!(Keyword::from_uppercase("create"), None);
    assert_eq!(Keyword::from_uppercase("Key"), None);
    assert_eq!(Keyword::from_uppercase("INT4"), None);
    assert_eq!(Keyword::from_uppercase(""), None);
}

#[test]
fn error_messages() {
    assert_eq!(
        LexError::UnterminatedString.message(),
        "[Lexer] Unexpected end of string"
    );
    assert_eq!(
        LexError::UnexpectedCharacter('@').message(),
        "[Lexer] Unexpected character @"
    );
    assert_eq!(
        LexError::UnexpectedCharacter('é').message(),
        "[Lexer] Unexpected character é"
    );
}
