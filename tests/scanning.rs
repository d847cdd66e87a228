use jlox_tree::{ExecutionError, Literal, Scanner, Token, TokenType};

fn scan(text: &str) -> (Vec<Token>, Vec<ExecutionError>) {
    let mut scanner = Scanner::new(text.to_string());
    let tokens = scanner.scan();
    (tokens, scanner.errors)
}

fn kinds(tokens: &[Token]) -> Vec<TokenType> {
    tokens.iter().map(|t| t.token_type).collect()
}

fn number(token: &Token) -> f64 {
    match &token.literal {
        Literal::Number(text) => text.parse::<f64>().unwrap(),
        other => panic!("not a number: {:?}", other),
    }
}

#[test]
fn grouped_arithmetic() {
    let (tokens, errors) = scan("(1 + 2) * 3");
    assert_eq!(
        kinds(&tokens),
        vec![
            TokenType::LeftParen,
            TokenType::Number,
            TokenType::Plus,
            TokenType::Number,
            TokenType::RightParen,
            TokenType::Star,
            TokenType::Number,
        ]
    );
    assert_eq!(number(&tokens[1]), 1.0);
    assert_eq!(number(&tokens[3]), 2.0);
    assert_eq!(number(&tokens[6]), 3.0);
    assert!(errors.is_empty());
}

#[test]
fn unterminated_string_keeps_earlier_tokens() {
    let (tokens, errors) = scan("var x = \"hi");
    assert_eq!(kinds(&tokens), vec![TokenType::Var, TokenType::Identifier, TokenType::Equal]);
    assert_eq!(tokens[1].literal, Literal::Identifier("x".to_string()));
    assert_eq!(errors.len(), 1);
    assert_eq!(errors[0].message, "Unterminated string");
    assert_eq!(errors[0].line, 1);
    assert_eq!(errors[0].location, "");
}

#[test]
fn unterminated_string_reports_last_line() {
    let (tokens, errors) = scan("x\n\"a\nb\nc");
    assert_eq!(kinds(&tokens), vec![TokenType::Identifier]);
    assert_eq!(errors.len(), 1);
    assert_eq!(errors[0].message, "Unterminated string");
    assert_eq!(errors[0].line, 4);
}

#[test]
fn second_dot_ends_number() {
    let (tokens, errors) = scan("1.5.toString");
    assert_eq!(kinds(&tokens), vec![TokenType::Number, TokenType::Dot, TokenType::Identifier]);
    assert_eq!(number(&tokens[0]), 1.5);
    assert_eq!(tokens[0].lexeme, "1.5");
    assert_eq!(tokens[2].literal, Literal::Identifier("toString".to_string()));
    assert!(errors.is_empty());
}

#[test]
fn dot_without_digit_is_not_fraction() {
    let (tokens, _) = scan("12.");
    assert_eq!(kinds(&tokens), vec![TokenType::Number, TokenType::Dot]);
    assert_eq!(tokens[0].lexeme, "12");
    assert_eq!(tokens[0].literal, Literal::Number("12".to_string()));
}

#[test]
fn unexpected_character_alone() {
    let (tokens, errors) = scan("#");
    assert!(tokens.is_empty());
    assert_eq!(errors.len(), 1);
    assert_eq!(errors[0].message, "Unexpected character: #");
    assert_eq!(errors[0].line, 1);
}

#[test]
fn scanning_goes_on_after_unexpected_character() {
    let (tokens, errors) = scan("a # b\n@ c");
    assert_eq!(
        kinds(&tokens),
        vec![TokenType::Identifier, TokenType::Identifier, TokenType::Identifier]
    );
    assert_eq!(tokens[2].lexeme, "c");
    assert_eq!(errors.len(), 2);
    assert_eq!(errors[0].message, "Unexpected character: #");
    assert_eq!(errors[1].message, "Unexpected character: @");
    assert_eq!(errors[1].line, 2);
}

#[test]
fn non_ascii_character_is_reported_whole() {
    let (tokens, errors) = scan("é1");
    assert_eq!(kinds(&tokens), vec![TokenType::Number]);
    assert_eq!(errors[0].message, "Unexpected character: é");
}

#[test]
fn blank_text_yields_nothing() {
    for text in ["", "   ", " \t\r\n\n", "// only a comment", "  // one\n\t// two\n", "//"] {
        let (tokens, errors) = scan(text);
        assert!(tokens.is_empty(), "tokens for {:?}", text);
        assert!(errors.is_empty(), "errors for {:?}", text);
    }
}

#[test]
fn lexemes_are_source_text() {
    let text = "while (x_1 >= 10.25) { print \"a b\"; }";
    let (tokens, errors) = scan(text);
    assert!(errors.is_empty());
    let lexemes: Vec<&str> = tokens.iter().map(|t| t.lexeme.as_str()).collect();
    assert_eq!(
        lexemes,
        vec!["while", "(", "x_1", ">=", "10.25", ")", "{", "print", "\"a b\"", ";", "}"]
    );
    let mut rest = text;
    for lexeme in lexemes {
        let at = rest.find(lexeme).unwrap();
        assert!(rest[..at].chars().all(|c| c == ' '));
        rest = &rest[at + lexeme.len()..];
    }
    assert_eq!(rest, "");
}

#[test]
fn every_character_is_read_once() {
    let text = "a=1;// c\nb";
    let (tokens, _) = scan(text);
    let read: usize = tokens.iter().map(|t| t.lexeme.chars().count()).sum();
    // the comment "// c" and the newline are read without a token
    assert_eq!(read + 5, text.chars().count());
}

#[test]
fn string_literal_drops_quotes() {
    let (tokens, _) = scan("\"hello\"");
    assert_eq!(tokens[0].token_type, TokenType::String);
    assert_eq!(tokens[0].lexeme, "\"hello\"");
    assert_eq!(tokens[0].literal, Literal::String("hello".to_string()));
}

#[test]
fn lines_count_newlines() {
    let (tokens, errors) = scan("a\nb\n\n\"x\ny\" c // d\ne");
    assert!(errors.is_empty());
    let lines: Vec<usize> = tokens.iter().map(|t| t.line).collect();
    assert_eq!(lines, vec![1, 2, 4, 5, 6]);
    assert_eq!(tokens[2].literal, Literal::String("x\ny".to_string()));
}

#[test]
fn two_character_operators_win() {
    let (tokens, _) = scan("!= == <= >= ! = < > / -,.;{}");
    assert_eq!(
        kinds(&tokens),
        vec![
            TokenType::BangEqual,
            TokenType::EqualEqual,
            TokenType::LessEqual,
            TokenType::GreaterEqual,
            TokenType::Bang,
            TokenType::Equal,
            TokenType::Less,
            TokenType::Greater,
            TokenType::Slash,
            TokenType::Minus,
            TokenType::Comma,
            TokenType::Dot,
            TokenType::Semicolon,
            TokenType::LeftBrace,
            TokenType::RightBrace,
        ]
    );
    assert!(tokens.iter().all(|t| t.literal == Literal::Empty));
}

#[test]
fn operators_at_end_of_text() {
    let (tokens, _) = scan("a <");
    assert_eq!(kinds(&tokens), vec![TokenType::Identifier, TokenType::Less]);
    let (tokens, _) = scan("=");
    assert_eq!(tokens[0].lexeme, "=");
}

#[test]
fn keywords_keep_their_text() {
    let (tokens, _) = scan("and class else false for fun if nil or print return super this true var while andy");
    assert_eq!(
        kinds(&tokens),
        vec![
            TokenType::And,
            TokenType::Class,
            TokenType::Else,
            TokenType::False,
            TokenType::For,
            TokenType::Fun,
            TokenType::If,
            TokenType::Nil,
            TokenType::Or,
            TokenType::Print,
            TokenType::Return,
            TokenType::Super,
            TokenType::This,
            TokenType::True,
            TokenType::Var,
            TokenType::While,
            TokenType::Identifier,
        ]
    );
    assert_eq!(tokens[0].literal, Literal::Identifier("and".to_string()));
    assert_eq!(tokens[16].literal, Literal::Identifier("andy".to_string()));
}

#[test]
fn no_end_token_is_appended() {
    let (tokens, _) = scan("x");
    assert_eq!(kinds(&tokens), vec![TokenType::Identifier]);
}

#[test]
fn has_errors_follows_diagnostics() {
    let mut clean = Scanner::new("1 + 1".to_string());
    clean.scan();
    assert!(!clean.has_errors());
    let mut dirty = Scanner::new("1 $ 1".to_string());
    dirty.scan();
    assert!(dirty.has_errors());
}
