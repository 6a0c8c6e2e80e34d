use rox::ast::{AbstractExpr, Binary, Literal};
use rox::driver::{run, LoxError};
use rox::number::Num;
use rox::parser::{ParseError, Parser};
use rox::printer::Printer;
use rox::scanner::TokenScanner;
use rox::token::{Primitive, Token, TokenType};

fn parser_for(src: &str) -> Parser {
    let mut scanner = TokenScanner::new(src);
    Parser::new(scanner.scan_tokens().unwrap())
}

#[test]
fn print_ast() {
    let expression = AbstractExpr::Binary(Binary {
        operator: Box::new(Token {
            token_type: TokenType::Plus,
            lexme: Some("+".to_string()),
            literal: None,
            line: 1,
        }),
        left: Box::new(AbstractExpr::Literal(Literal {
            value: Box::new(Primitive::Number(Num::Ratio { num: 2, den: 1 })),
        })),
        right: Box::new(AbstractExpr::Literal(Literal {
            value: Box::new(Primitive::Number(Num::Ratio { num: 2, den: 1 })),
        })),
    });
    let mut printer = Printer::new();
    let result = printer.print(&expression);
    assert_eq!(result, "(+ 2 2)".to_string());
}

#[test]
fn parser_precedence() {
    let mut parser = parser_for("1 + 2 * 3");
    let expr = parser.expression().unwrap();
    match &expr {
        AbstractExpr::Binary(b) => {
            assert_eq!(b.operator.token_type, TokenType::Plus);
            assert!(matches!(*b.left, AbstractExpr::Literal(_)));
            match &*b.right {
                AbstractExpr::Binary(inner) => assert_eq!(inner.operator.token_type, TokenType::Star),
                other => panic!("unexpected right operand {:?}", other),
            }
        },
        other => panic!("unexpected expression {:?}", other),
    }
    assert_eq!(Printer::new().print(&expr), "(+ 1 (* 2 3))");
}

#[test]
fn left_associative_and_grouping() {
    let mut parser = parser_for("1 - 2 - (3 - 4) == !true or x and nil");
    let expr = parser.expression().unwrap();
    assert_eq!(
        Printer::new().print(&expr),
        "(or (== (- (- 1 2) (group (- 3 4))) (! true)) (and x nil))"
    );
    let mut parser = parser_for("x = y = -5");
    let expr = parser.expression().unwrap();
    assert_eq!(Printer::new().print(&expr), "(= x (= y (- 5)))");
}

#[test]
fn assignment_target_restriction() {
    let mut parser = parser_for("1 = 2;");
    match parser.parse() {
        Err(ParseError::InvalidAssignmentTarget { equals }) => {
            assert_eq!(equals.token_type, TokenType::Equal)
        },
        other => panic!("expected an invalid assignment target, got {:?}", other),
    }
    let (out, r) = run("1 = 2;");
    assert!(out.is_empty());
    assert!(matches!(r, Err(LoxError::Parse(ParseError::InvalidAssignmentTarget { .. }))));
}

#[test]
fn missing_semicolon() {
    let mut parser = parser_for("print 1");
    match parser.parse() {
        Err(ParseError::ExpectedToken { expected, found }) => {
            assert_eq!(expected, TokenType::SemiColon);
            assert_eq!(found.token_type, TokenType::Eof);
        },
        other => panic!("expected a missing ';', got {:?}", other),
    }
}

#[test]
fn expected_expression() {
    let mut parser = parser_for("print ;");
    match parser.parse() {
        Err(ParseError::ExpectedExpression { found }) => assert_eq!(found.token_type, TokenType::SemiColon),
        other => panic!("expected an expression error, got {:?}", other),
    }
}

#[test]
fn for_loop_is_a_while_loop() {
    let mut parser = parser_for("for (var i = 0; i < 3; i = i + 1) print i;");
    let stmts = parser.parse().unwrap();
    assert_eq!(stmts.len(), 1);
    assert!(matches!(stmts[0], rox::ast::AbstractStmt::Block(_)));
    let mut bare = parser_for("for (;;) print 1;");
    let stmts = bare.parse().unwrap();
    assert!(matches!(stmts[0], rox::ast::AbstractStmt::While(_)));
}

#[test]
fn unclosed_block() {
    let mut parser = parser_for("{ print 1;");
    match parser.parse() {
        Err(ParseError::ExpectedToken { expected, .. }) => assert_eq!(expected, TokenType::RightBrace),
        other => panic!("expected a missing '}}', got {:?}", other),
    }
}

#[test]
fn synchronize_skips_to_the_next_statement() {
    let mut parser = parser_for("1 2 3; print 4;");
    parser.synchronize();
    let stmts = parser.parse().unwrap();
    assert_eq!(stmts.len(), 1);
    assert!(matches!(stmts[0], rox::ast::AbstractStmt::Print(_)));
    let mut parser = parser_for("x y var z;");
    parser.synchronize();
    let stmts = parser.parse().unwrap();
    assert!(matches!(stmts[0], rox::ast::AbstractStmt::Var(_)));
}

#[test]
fn advance_and_peek() {
    let mut parser = parser_for("a + b");
    assert_eq!(parser.peek().token_type, TokenType::Identifier);
    let first = parser.advance();
    assert_eq!(first.lexme, Some("a".to_string()));
    assert!(parser.do_match(&[TokenType::Minus, TokenType::Plus]));
    assert_eq!(parser.previous().token_type, TokenType::Plus);
    assert!(!parser.do_check(TokenType::Plus));
    assert!(parser.do_check(TokenType::Identifier));
    parser.advance();
    assert!(parser.is_at_end());
    assert_eq!(parser.advance().token_type, TokenType::Identifier);
}
