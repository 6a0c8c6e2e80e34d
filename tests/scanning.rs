use rox::number::Num;
use rox::scanner::{ScanError, TokenScanner};
use rox::token::{Primitive, Token, TokenType};

fn scan(src: &str) -> Result<Vec<Token>, ScanError> {
    let mut scanner = TokenScanner::new(src);
    scanner.scan_tokens()
}

fn kinds(src: &str) -> Vec<TokenType> {
    scan(src).unwrap().iter().map(|t| t.token_type).collect()
}

fn lexeme(t: &Token) -> String {
    t.lexme.clone().unwrap()
}

#[test]
fn punctuation_round_trip() {
    let src = "(){},.-+;*";
    let tokens = scan(src).unwrap();
    assert_eq!(tokens.len(), src.chars().count() + 1);
    let joined: String = tokens.iter().map(lexeme).collect();
    assert_eq!(joined, src);
    assert_eq!(
        kinds(src),
        vec![
            TokenType::LeftParen,
            TokenType::RightParen,
            TokenType::LeftBrace,
            TokenType::RightBrace,
            TokenType::Comma,
            TokenType::Dot,
            TokenType::Minus,
            TokenType::Plus,
            TokenType::SemiColon,
            TokenType::Star,
            TokenType::Eof,
        ]
    );
}

#[test]
fn punctuation_round_trip_ignores_whitespace() {
    let tokens = scan("( ) ;\n*").unwrap();
    let joined: String = tokens.iter().map(lexeme).collect();
    assert_eq!(joined, "();*");
}

#[test]
fn maximal_munch() {
    assert_eq!(kinds("<="), vec![TokenType::LessEqual, TokenType::Eof]);
    assert_eq!(kinds("!= == >= <"), vec![
        TokenType::BangEqual,
        TokenType::EqualEqual,
        TokenType::GreaterEqual,
        TokenType::Less,
        TokenType::Eof,
    ]);
}

#[test]
fn number_lookahead() {
    let tokens = scan("1.").unwrap();
    assert_eq!(tokens.len(), 3);
    assert_eq!(tokens[0].token_type, TokenType::Number);
    assert_eq!(tokens[0].literal, Some(Primitive::Number(Num::Ratio { num: 1, den: 1 })));
    assert_eq!(lexeme(&tokens[0]), "1");
    assert_eq!(tokens[1].token_type, TokenType::Dot);
    assert_eq!(tokens[2].token_type, TokenType::Eof);
}

#[test]
fn number_with_fraction() {
    let tokens = scan("12.50").unwrap();
    assert_eq!(tokens[0].literal, Some(Primitive::Number(Num::Ratio { num: 25, den: 2 })));
    assert_eq!(lexeme(&tokens[0]), "12.50");
}

#[test]
fn keyword_versus_identifier() {
    let or = scan("or").unwrap();
    assert_eq!(or[0].token_type, TokenType::Or);
    let orange = scan("orange").unwrap();
    assert_eq!(orange.len(), 2);
    assert_eq!(orange[0].token_type, TokenType::Identifier);
    assert_eq!(lexeme(&orange[0]), "orange");
    assert_eq!(kinds("_x1 été"), vec![TokenType::Identifier, TokenType::Identifier, TokenType::Eof]);
}

#[test]
fn all_keywords() {
    assert_eq!(
        kinds("and class else false fun for if nil or print return super this true var while"),
        vec![
            TokenType::And,
            TokenType::Class,
            TokenType::Else,
            TokenType::False,
            TokenType::Fun,
            TokenType::For,
            TokenType::If,
            TokenType::Nil,
            TokenType::Or,
            TokenType::Print,
            TokenType::Return,
            TokenType::Super,
            TokenType::This,
            TokenType::True,
            TokenType::Var,
            TokenType::While,
            TokenType::Eof,
        ]
    );
}

#[test]
fn string_literal_and_lines() {
    let tokens = scan("\"a\nb\" x").unwrap();
    assert_eq!(tokens[0].token_type, TokenType::String);
    assert_eq!(tokens[0].literal, Some(Primitive::String("a\nb".to_string())));
    assert_eq!(lexeme(&tokens[0]), "\"a\nb\"");
    assert_eq!(tokens[0].line, 2);
    assert_eq!(tokens[1].line, 2);
}

#[test]
fn comments_are_skipped() {
    assert_eq!(kinds("1 // two\n/ 3"), vec![
        TokenType::Number,
        TokenType::Slash,
        TokenType::Number,
        TokenType::Eof,
    ]);
}

#[test]
fn unterminated_string() {
    assert_eq!(scan("\n\"abc"), Err(ScanError::UnterminatedString { line: 2 }));
}

#[test]
fn unexpected_character() {
    assert_eq!(scan("1 @"), Err(ScanError::UnexpectedCharacter { character: '@', line: 1 }));
}

#[test]
fn number_out_of_range() {
    assert_eq!(scan("99999999999999999999"), Err(ScanError::NumberOutOfRange { line: 1 }));
}

#[test]
fn peeking() {
    let scanner = TokenScanner::new("ab");
    assert_eq!(scanner.peek(), 'a');
    assert_eq!(scanner.peek_next(), 'b');
    assert!(!scanner.is_at_end());
    let empty = TokenScanner::new("");
    assert_eq!(empty.peek(), '\0');
    assert_eq!(empty.peek_next(), '\0');
    assert!(empty.is_at_end());
}
