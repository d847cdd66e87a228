use jlox_tree::{keyword, ExecutionError, Token, Literal, TokenType};

#[test]
fn keyword_lookup_is_exact() {
    assert_eq!(keyword("and"), Some(TokenType::And));
    assert_eq!(keyword("And"), None);
    assert_eq!(keyword("andy"), None);
    assert_eq!(keyword("an"), None);
    assert_eq!(keyword(""), None);
}

#[test]
fn every_reserved_word_resolves() {
    let words = [
        ("and", TokenType::And),
        ("class", TokenType::Class),
        ("else", TokenType::Else),
        ("false", TokenType::False),
        ("for", TokenType::For),
        ("fun", TokenType::Fun),
        ("if", TokenType::If),
        ("nil", TokenType::Nil),
        ("or", TokenType::Or),
        ("print", TokenType::Print),
        ("return", TokenType::Return),
        ("super", TokenType::Super),
        ("this", TokenType::This),
        ("true", TokenType::True),
        ("var", TokenType::Var),
        ("while", TokenType::While),
    ];
    for (word, kind) in words {
        assert_eq!(keyword(word), Some(kind));
        assert_eq!(keyword(&word.to_uppercase()), None);
    }
}

#[test]
fn report_formats_diagnostic() {
    let e = ExecutionError {
        line: 1203,
        location: String::new(),
        message: "Unterminated string".to_string(),
    };
    assert_eq!(e.report(), "[line 1203] Error : Unterminated string");
    let e = ExecutionError { line: 0, location: "at x".to_string(), message: "m".to_string() };
    assert_eq!(e.report(), "[line 0] Error at x: m");
}

#[test]
fn token_new_keeps_fields() {
    let t = Token::new(TokenType::Number, "7".to_string(), Literal::Number("7".to_string()), 3);
    assert_eq!(t.token_type, TokenType::Number);
    assert_eq!(t.lexeme, "7");
    assert_eq!(t.line, 3);
}
