use rlox::grammar::{ErrorKind, ScanError};
use rlox::scanner::Scanner;
use rlox::token::{Literal, Token, TokenType};

fn scan(source: &str) -> (Vec<Token>, Vec<ScanError>) {
    let mut scanner = Scanner::new(source);
    let tokens = scanner.scan_tokens().clone();
    let errors = scanner.errors().clone();
    (tokens, errors)
}

fn kinds(tokens: &[Token]) -> Vec<TokenType> {
    tokens.iter().map(|t| t.token_type).collect()
}

#[test]
fn empty_source_gives_only_eof() {
    let (tokens, errors) = scan("");
    assert_eq!(kinds(&tokens), vec![TokenType::Eof]);
    assert_eq!(tokens[0].lexeme, "");
    assert!(tokens[0].literal.is_none());
    assert_eq!(tokens[0].line, 1);
    assert!(errors.is_empty());
}

#[test]
fn whitespace_and_comments_give_only_eof() {
    let (tokens, errors) = scan(" \t\r\n// note\n/* a\n /* b */ */ // end");
    assert_eq!(kinds(&tokens), vec![TokenType::Eof]);
    assert_eq!(tokens[0].line, 4);
    assert!(errors.is_empty());
}

#[test]
fn number_with_fraction() {
    let (tokens, errors) = scan("123.45");
    assert_eq!(kinds(&tokens), vec![TokenType::Number, TokenType::Eof]);
    assert_eq!(tokens[0].lexeme, "123.45");
    assert_eq!(tokens[0].literal, Some(Literal::Number("123.45".to_string())));
    match &tokens[0].literal {
        Some(Literal::Number(n)) => assert_eq!(n.parse::<f64>().unwrap(), 123.45),
        other => panic!("unexpected literal {:?}", other),
    }
    assert!(errors.is_empty());
}

#[test]
fn identifier_has_no_literal() {
    let (tokens, _) = scan("foo_bar");
    assert_eq!(kinds(&tokens), vec![TokenType::Identifier, TokenType::Eof]);
    assert_eq!(tokens[0].lexeme, "foo_bar");
    assert!(tokens[0].literal.is_none());
}

#[test]
fn string_spanning_a_newline() {
    let (tokens, errors) = scan("\"ab\ncd\"");
    assert_eq!(kinds(&tokens), vec![TokenType::String, TokenType::Eof]);
    assert_eq!(tokens[0].lexeme, "\"ab\ncd\"");
    assert_eq!(tokens[0].literal, Some(Literal::Str("ab\ncd".to_string())));
    assert_eq!(tokens[0].line, 1);
    assert_eq!(tokens[1].line, 2);
    assert!(errors.is_empty());
}

#[test]
fn nested_block_comment_balances() {
    let (tokens, errors) = scan("/* a /* b */ c */");
    assert_eq!(kinds(&tokens), vec![TokenType::Eof]);
    assert!(errors.is_empty());
}

#[test]
fn nested_block_comment_then_token() {
    let (tokens, errors) = scan("/* a /* b */ c */ +");
    assert_eq!(kinds(&tokens), vec![TokenType::Plus, TokenType::Eof]);
    assert!(errors.is_empty());
}

#[test]
fn unterminated_block_comment() {
    let (tokens, errors) = scan("/* unterminated");
    assert_eq!(kinds(&tokens), vec![TokenType::Eof]);
    assert_eq!(errors, vec![ScanError { kind: ErrorKind::UnterminatedBlockComment, line: 1 }]);
    assert_eq!(errors[0].kind.message(), "Unterminated block comment");
}

#[test]
fn bang_equal_and_bang() {
    let (tokens, _) = scan("!=");
    assert_eq!(kinds(&tokens), vec![TokenType::BangEqual, TokenType::Eof]);
    assert_eq!(tokens[0].lexeme, "!=");
    let (tokens, _) = scan("!");
    assert_eq!(kinds(&tokens), vec![TokenType::Bang, TokenType::Eof]);
}

#[test]
fn two_character_operators() {
    let (tokens, _) = scan("== = <= < >= > / *");
    assert_eq!(
        kinds(&tokens),
        vec![
            TokenType::EqualEqual,
            TokenType::Equal,
            TokenType::LessEqual,
            TokenType::Less,
            TokenType::GreaterEqual,
            TokenType::Greater,
            TokenType::Slash,
            TokenType::Star,
            TokenType::Eof,
        ]
    );
}

#[test]
fn trailing_dot_is_not_part_of_number() {
    let (tokens, errors) = scan("123.");
    assert_eq!(kinds(&tokens), vec![TokenType::Number, TokenType::Dot, TokenType::Eof]);
    assert_eq!(tokens[0].lexeme, "123");
    assert_eq!(tokens[0].literal, Some(Literal::Number("123".to_string())));
    assert_eq!(tokens[1].lexeme, ".");
    assert!(errors.is_empty());
}

#[test]
fn punctuation() {
    let (tokens, _) = scan("(){},.-+;*");
    assert_eq!(
        kinds(&tokens),
        vec![
            TokenType::LeftParen,
            TokenType::RightParen,
            TokenType::LeftBrace,
            TokenType::RightBrace,
            TokenType::Comma,
            TokenType::Dot,
            TokenType::Minus,
            TokenType::Plus,
            TokenType::Semicolon,
            TokenType::Star,
            TokenType::Eof,
        ]
    );
}

#[test]
fn keywords_and_their_literals() {
    let (tokens, _) = scan(
        "and class else false fun for if nil or print return super this true var while whiles",
    );
    assert_eq!(
        kinds(&tokens),
        vec![
            TokenType::And,
            TokenType::Class,
            TokenType::Else,
            TokenType::False,
            TokenType::Fun,
            TokenType::For,
            TokenType::If,
            TokenType::Nil,
            TokenType::Or,
            TokenType::Print,
            TokenType::Return,
            TokenType::Super,
            TokenType::This,
            TokenType::True,
            TokenType::Var,
            TokenType::While,
            TokenType::Identifier,
            TokenType::Eof,
        ]
    );
    assert_eq!(tokens[3].literal, Some(Literal::Bool(false)));
    assert_eq!(tokens[7].literal, Some(Literal::Nil));
    assert_eq!(tokens[13].literal, Some(Literal::Bool(true)));
    assert!(tokens[0].literal.is_none());
    assert_eq!(tokens[16].lexeme, "whiles");
}

#[test]
fn unterminated_string_reports_at_last_line() {
    let (tokens, errors) = scan("\"abc\ndef");
    assert_eq!(kinds(&tokens), vec![TokenType::Eof]);
    assert_eq!(errors, vec![ScanError { kind: ErrorKind::UnterminatedString, line: 2 }]);
    assert_eq!(errors[0].kind.message(), "Unterminated string");
}

#[test]
fn unexpected_character_is_skipped() {
    let (tokens, errors) = scan("a\n@ b");
    assert_eq!(kinds(&tokens), vec![TokenType::Identifier, TokenType::Identifier, TokenType::Eof]);
    assert_eq!(tokens[1].lexeme, "b");
    assert_eq!(tokens[1].line, 2);
    assert_eq!(errors, vec![ScanError { kind: ErrorKind::UnexpectedCharacter, line: 2 }]);
    assert_eq!(errors[0].kind.message(), "Unexpected character");
}

#[test]
fn line_numbers_follow_newlines() {
    let (tokens, _) = scan("var x\n= 1;\n\n// c\nprint x");
    let lines: Vec<usize> = tokens.iter().map(|t| t.line).collect();
    assert_eq!(lines, vec![1, 1, 2, 2, 2, 5, 5, 5]);
}

#[test]
fn lexemes_reproduce_significant_text() {
    let (tokens, _) = scan("var  answer = (12.5 + x) ; // done");
    let joined: String = tokens.iter().map(|t| t.lexeme.as_str()).collect();
    assert_eq!(joined, "varanswer=(12.5+x);");
}

#[test]
fn non_ascii_text_is_read_by_character() {
    let (tokens, errors) = scan("\"héllo\" é");
    assert_eq!(kinds(&tokens), vec![TokenType::String, TokenType::Eof]);
    assert_eq!(tokens[0].literal, Some(Literal::Str("héllo".to_string())));
    assert_eq!(errors, vec![ScanError { kind: ErrorKind::UnexpectedCharacter, line: 1 }]);
}

#[test]
fn backslash_is_an_ordinary_character_in_strings() {
    let (tokens, _) = scan("\"a\\nb\"");
    assert_eq!(tokens[0].literal, Some(Literal::Str("a\\nb".to_string())));
}

#[test]
fn scanning_twice_appends_another_eof() {
    let mut scanner = Scanner::new("x");
    let first = scanner.scan_tokens().len();
    let second = scanner.scan_tokens().len();
    assert_eq!(first, 2);
    assert_eq!(second, 3);
}

#[test]
fn token_new_keeps_fields() {
    let t = Token::new(TokenType::Number, "7".to_string(), Some(Literal::Number("7".to_string())), 3);
    assert_eq!(t.token_type, TokenType::Number);
    assert_eq!(t.lexeme, "7");
    assert_eq!(t.line, 3);
}
