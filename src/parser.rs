//! The recursive-descent parser: tokens to statements.
use vstd::prelude::*;
use crate::ast::{
    AbstractExpr, AbstractStmt, Assign, Binary, Block, Grouping, If, Literal, Logical, Print,
    Statement, StmtView, Unary, Var, Variable, While, stmts_view,
};
use crate::token::{Primitive, Token, TokenType};

verus! {

broadcast use vstd::std_specs::vec::group_vec_axioms, vstd::seq::group_seq_axioms;

/// Why parsing stopped.
#[derive(Debug, PartialEq)]
pub enum ParseError {
    /// A token of kind `expected` was needed where `found` stands.
    ExpectedToken { expected: TokenType, found: Token },
    /// An expression was needed where `found` stands.
    ExpectedExpression { found: Token },
    /// The left side of the `=` at `equals` is not a variable.
    InvalidAssignmentTarget { equals: Token },
}

/// Whether `pos` is past the tokens or at `Eof`.
pub open spec fn at_end(toks: Seq<Token>, pos: int) -> bool {
    !(0 <= pos < toks.len()) || toks[pos].token_type == TokenType::Eof
}

/// Whether the token at `pos` is one of `kinds` (never at the end).
pub open spec fn check_any(toks: Seq<Token>, pos: int, kinds: Seq<TokenType>) -> bool {
    !at_end(toks, pos) && kinds.contains(toks[pos].token_type)
}

pub open spec fn check(toks: Seq<Token>, pos: int, kind: TokenType) -> bool {
    !at_end(toks, pos) && toks[pos].token_type == kind
}

/// The position after a token of kind `kind` at `pos`, or the error.
pub open spec fn consume(toks: Seq<Token>, pos: int, kind: TokenType) -> Result<int, ParseError> {
    if check(toks, pos, kind) {
        Ok(pos + 1)
    } else {
        Err(ParseError::ExpectedToken { expected: kind, found: toks[pos] })
    }
}

/// `q` lies past `pos`, within the tokens. Every rule that succeeds moves
/// forward, so this always holds where the grammar below tests it; the test
/// keeps the recursion well founded.
pub open spec fn moved(toks: Seq<Token>, pos: int, q: int) -> bool {
    pos < q <= toks.len()
}

/// The value a literal token carries.
pub open spec fn literal_of(t: Token) -> Primitive {
    match t.literal {
        Some(p) => p,
        None => Primitive::Nil,
    }
}

/// `expression → assignment`.
pub open spec fn spec_expression(toks: Seq<Token>, pos: int) -> Result<(AbstractExpr, int), ParseError>
    decreases toks.len() - pos, 9nat,
{
    spec_assignment(toks, pos)
}

/// `assignment → IDENTIFIER "=" assignment | logic_or`, where the target
/// must have parsed as a bare variable.
pub open spec fn spec_assignment(toks: Seq<Token>, pos: int) -> Result<(AbstractExpr, int), ParseError>
    decreases toks.len() - pos, 8nat,
{
    match spec_or(toks, pos) {
        Err(e) => Err(e),
        Ok((target, p)) => if check(toks, p, TokenType::Equal) && pos <= p {
            match spec_assignment(toks, p + 1) {
                Err(e) => Err(e),
                Ok((value, q)) => match target {
                    AbstractExpr::Variable(v) => Ok(
                        (AbstractExpr::Assign(Assign { name: v.name, value: Box::new(value) }), q),
                    ),
                    _ => Err(ParseError::InvalidAssignmentTarget { equals: toks[p] }),
                },
            }
        } else {
            Ok((target, p))
        },
    }
}

/// `or` followed by any number of `(Or) and`, grouped to the left.
pub open spec fn spec_or(toks: Seq<Token>, pos: int) -> Result<(AbstractExpr, int), ParseError>
    decreases toks.len() - pos, 7nat,
{
    match spec_and(toks, pos) {
        Err(e) => Err(e),
        Ok((left, p)) => if moved(toks, pos, p) {
            spec_or_rest(toks, left, p)
        } else {
            Ok((left, p))
        },
    }
}

/// The rest of a `or` expression whose operands so far make `left`.
pub open spec fn spec_or_rest(toks: Seq<Token>, left: AbstractExpr, pos: int) -> Result<(AbstractExpr, int), ParseError>
    decreases toks.len() - pos, 7nat,
{
    if (check(toks, pos, TokenType::Or)) {
        match spec_and(toks, pos + 1) {
            Err(e) => Err(e),
            Ok((right, q)) => if moved(toks, pos, q) {
                spec_or_rest(toks, AbstractExpr::Logical(Logical { right: Box::new(right), left: Box::new(left), operator: Box::new(toks[pos]) }), q)
            } else {
                Ok((AbstractExpr::Logical(Logical { right: Box::new(right), left: Box::new(left), operator: Box::new(toks[pos]) }), q))
            },
        }
    } else {
        Ok((left, pos))
    }
}

/// `and` followed by any number of `(And) equality`, grouped to the left.
pub open spec fn spec_and(toks: Seq<Token>, pos: int) -> Result<(AbstractExpr, int), ParseError>
    decreases toks.len() - pos, 6nat,
{
    match spec_equality(toks, pos) {
        Err(e) => Err(e),
        Ok((left, p)) => if moved(toks, pos, p) {
            spec_and_rest(toks, left, p)
        } else {
            Ok((left, p))
        },
    }
}

/// The rest of a `and` expression whose operands so far make `left`.
pub open spec fn spec_and_rest(toks: Seq<Token>, left: AbstractExpr, pos: int) -> Result<(AbstractExpr, int), ParseError>
    decreases toks.len() - pos, 6nat,
{
    if (check(toks, pos, TokenType::And)) {
        match spec_equality(toks, pos + 1) {
            Err(e) => Err(e),
            Ok((right, q)) => if moved(toks, pos, q) {
                spec_and_rest(toks, AbstractExpr::Logical(Logical { right: Box::new(right), left: Box::new(left), operator: Box::new(toks[pos]) }), q)
            } else {
                Ok((AbstractExpr::Logical(Logical { right: Box::new(right), left: Box::new(left), operator: Box::new(toks[pos]) }), q))
            },
        }
    } else {
        Ok((left, pos))
    }
}

/// `equality` followed by any number of `(BangEqual | EqualEqual) comparison`, grouped to the left.
pub open spec fn spec_equality(toks: Seq<Token>, pos: int) -> Result<(AbstractExpr, int), ParseError>
    decreases toks.len() - pos, 5nat,
{
    match spec_comparison(toks, pos) {
        Err(e) => Err(e),
        Ok((left, p)) => if moved(toks, pos, p) {
            spec_equality_rest(toks, left, p)
        } else {
            Ok((left, p))
        },
    }
}

/// The rest of a `equality` expression whose operands so far make `left`.
pub open spec fn spec_equality_rest(toks: Seq<Token>, left: AbstractExpr, pos: int) -> Result<(AbstractExpr, int), ParseError>
    decreases toks.len() - pos, 5nat,
{
    if (check(toks, pos, TokenType::BangEqual) || check(toks, pos, TokenType::EqualEqual)) {
        match spec_comparison(toks, pos + 1) {
            Err(e) => Err(e),
            Ok((right, q)) => if moved(toks, pos, q) {
                spec_equality_rest(toks, AbstractExpr::Binary(Binary { operator: Box::new(toks[pos]), left: Box::new(left), right: Box::new(right) }), q)
            } else {
                Ok((AbstractExpr::Binary(Binary { operator: Box::new(toks[pos]), left: Box::new(left), right: Box::new(right) }), q))
            },
        }
    } else {
        Ok((left, pos))
    }
}

/// `comparison` followed by any number of `(Greater | GreaterEqual | Less | LessEqual) term`, grouped to the left.
pub open spec fn spec_comparison(toks: Seq<Token>, pos: int) -> Result<(AbstractExpr, int), ParseError>
    decreases toks.len() - pos, 4nat,
{
    match spec_term(toks, pos) {
        Err(e) => Err(e),
        Ok((left, p)) => if moved(toks, pos, p) {
            spec_comparison_rest(toks, left, p)
        } else {
            Ok((left, p))
        },
    }
}

/// The rest of a `comparison` expression whose operands so far make `left`.
pub open spec fn spec_comparison_rest(toks: Seq<Token>, left: AbstractExpr, pos: int) -> Result<(AbstractExpr, int), ParseError>
    decreases toks.len() - pos, 4nat,
{
    if (check(toks, pos, TokenType::Greater) || check(toks, pos, TokenType::GreaterEqual) || check(toks, pos, TokenType::Less) || check(toks, pos, TokenType::LessEqual)) {
        match spec_term(toks, pos + 1) {
            Err(e) => Err(e),
            Ok((right, q)) => if moved(toks, pos, q) {
                spec_comparison_rest(toks, AbstractExpr::Binary(Binary { operator: Box::new(toks[pos]), left: Box::new(left), right: Box::new(right) }), q)
            } else {
                Ok((AbstractExpr::Binary(Binary { operator: Box::new(toks[pos]), left: Box::new(left), right: Box::new(right) }), q))
            },
        }
    } else {
        Ok((left, pos))
    }
}

/// `term` followed by any number of `(Minus | Plus) factor`, grouped to the left.
pub open spec fn spec_term(toks: Seq<Token>, pos: int) -> Result<(AbstractExpr, int), ParseError>
    decreases toks.len() - pos, 3nat,
{
    match spec_factor(toks, pos) {
        Err(e) => Err(e),
        Ok((left, p)) => if moved(toks, pos, p) {
            spec_term_rest(toks, left, p)
        } else {
            Ok((left, p))
        },
    }
}

/// The rest of a `term` expression whose operands so far make `left`.
pub open spec fn spec_term_rest(toks: Seq<Token>, left: AbstractExpr, pos: int) -> Result<(AbstractExpr, int), ParseError>
    decreases toks.len() - pos, 3nat,
{
    if (check(toks, pos, TokenType::Minus) || check(toks, pos, TokenType::Plus)) {
        match spec_factor(toks, pos + 1) {
            Err(e) => Err(e),
            Ok((right, q)) => if moved(toks, pos, q) {
                spec_term_rest(toks, AbstractExpr::Binary(Binary { operator: Box::new(toks[pos]), left: Box::new(left), right: Box::new(right) }), q)
            } else {
                Ok((AbstractExpr::Binary(Binary { operator: Box::new(toks[pos]), left: Box::new(left), right: Box::new(right) }), q))
            },
        }
    } else {
        Ok((left, pos))
    }
}

/// `factor` followed by any number of `(Slash | Star) unary`, grouped to the left.
pub open spec fn spec_factor(toks: Seq<Token>, pos: int) -> Result<(AbstractExpr, int), ParseError>
    decreases toks.len() - pos, 2nat,
{
    match spec_unary(toks, pos) {
        Err(e) => Err(e),
        Ok((left, p)) => if moved(toks, pos, p) {
            spec_factor_rest(toks, left, p)
        } else {
            Ok((left, p))
        },
    }
}

/// The rest of a `factor` expression whose operands so far make `left`.
pub open spec fn spec_factor_rest(toks: Seq<Token>, left: AbstractExpr, pos: int) -> Result<(AbstractExpr, int), ParseError>
    decreases toks.len() - pos, 2nat,
{
    if (check(toks, pos, TokenType::Slash) || check(toks, pos, TokenType::Star)) {
        match spec_unary(toks, pos + 1) {
            Err(e) => Err(e),
            Ok((right, q)) => if moved(toks, pos, q) {
                spec_factor_rest(toks, AbstractExpr::Binary(Binary { operator: Box::new(toks[pos]), left: Box::new(left), right: Box::new(right) }), q)
            } else {
                Ok((AbstractExpr::Binary(Binary { operator: Box::new(toks[pos]), left: Box::new(left), right: Box::new(right) }), q))
            },
        }
    } else {
        Ok((left, pos))
    }
}

/// `unary → ("!" | "-") unary | primary`.
pub open spec fn spec_unary(toks: Seq<Token>, pos: int) -> Result<(AbstractExpr, int), ParseError>
    decreases toks.len() - pos, 1nat,
{
    if (check(toks, pos, TokenType::Bang) || check(toks, pos, TokenType::Minus)) {
        match spec_unary(toks, pos + 1) {
            Err(e) => Err(e),
            Ok((right, q)) => Ok(
                (AbstractExpr::Unary(Unary { right: Box::new(right), operator: Box::new(toks[pos]) }), q),
            ),
        }
    } else {
        spec_primary(toks, pos)
    }
}

/// `primary → NUMBER | STRING | "true" | "false" | "nil" | "(" expression ")" | IDENTIFIER`.
pub open spec fn spec_primary(toks: Seq<Token>, pos: int) -> Result<(AbstractExpr, int), ParseError>
    decreases toks.len() - pos, 0nat,
{
    if check(toks, pos, TokenType::False) {
        Ok((AbstractExpr::Literal(Literal { value: Box::new(Primitive::Boolean(false)) }), pos + 1))
    } else if check(toks, pos, TokenType::True) {
        Ok((AbstractExpr::Literal(Literal { value: Box::new(Primitive::Boolean(true)) }), pos + 1))
    } else if check(toks, pos, TokenType::Nil) {
        Ok((AbstractExpr::Literal(Literal { value: Box::new(Primitive::Nil) }), pos + 1))
    } else if (check(toks, pos, TokenType::Number) || check(toks, pos, TokenType::String)) {
        Ok((AbstractExpr::Literal(Literal { value: Box::new(literal_of(toks[pos])) }), pos + 1))
    } else if check(toks, pos, TokenType::LeftParen) {
        match spec_expression(toks, pos + 1) {
            Err(e) => Err(e),
            Ok((inner, q)) => match consume(toks, q, TokenType::RightParen) {
                Err(e) => Err(e),
                Ok(q_next) => Ok((AbstractExpr::Grouping(Grouping { expression: Box::new(inner) }), q_next)),
            },
        }
    } else if check(toks, pos, TokenType::Identifier) {
        Ok((AbstractExpr::Variable(Variable { name: Box::new(toks[pos]) }), pos + 1))
    } else {
        Err(ParseError::ExpectedExpression { found: toks[pos] })
    }
}

/// An error for a rule that would not move forward; no rule does that.
pub open spec fn stalled(toks: Seq<Token>, pos: int) -> ParseError {
    ParseError::ExpectedExpression { found: toks[pos] }
}

/// A result with its statement or expression made optional.
pub open spec fn some_of<T>(r: Result<(T, int), ParseError>) -> Result<(Option<T>, int), ParseError> {
    match r {
        Ok((x, q)) => Ok((Some(x), q)),
        Err(e) => Err(e),
    }
}

/// `for (init; cond; inc) body` as a `while` loop: the increment runs after
/// the body, a missing condition is `true`, and the initializer runs once,
/// in a block around the loop.
pub open spec fn desugar_for(
    init: Option<StmtView>,
    cond: Option<AbstractExpr>,
    inc: Option<AbstractExpr>,
    body: StmtView,
) -> StmtView {
    let body = match inc {
        Some(i) => StmtView::Block(seq![body, StmtView::Expression(i)]),
        None => body,
    };
    let condition = match cond {
        Some(c) => c,
        None => AbstractExpr::Literal(Literal { value: Box::new(Primitive::Boolean(true)) }),
    };
    let lp = StmtView::While { condition, body: Box::new(body) };
    match init {
        Some(s) => StmtView::Block(seq![s, lp]),
        None => lp,
    }
}

/// `expression ";"`.
pub open spec fn spec_expr_stmt(toks: Seq<Token>, pos: int) -> Result<(StmtView, int), ParseError>
    decreases toks.len() - pos, 10nat,
{
    match spec_expression(toks, pos) {
        Err(e) => Err(e),
        Ok((e, q)) => match consume(toks, q, TokenType::SemiColon) {
            Err(x) => Err(x),
            Ok(q_next) => Ok((StmtView::Expression(e), q_next)),
        },
    }
}

/// `expression ";"` after `print`.
pub open spec fn spec_print_stmt(toks: Seq<Token>, pos: int) -> Result<(StmtView, int), ParseError>
    decreases toks.len() - pos, 10nat,
{
    match spec_expression(toks, pos) {
        Err(e) => Err(e),
        Ok((e, q)) => match consume(toks, q, TokenType::SemiColon) {
            Err(x) => Err(x),
            Ok(q_next) => Ok((StmtView::Print(e), q_next)),
        },
    }
}

/// `IDENTIFIER ("=" expression)? ";"` after `var`.
pub open spec fn spec_var_declaration(toks: Seq<Token>, pos: int) -> Result<(StmtView, int), ParseError>
    decreases toks.len() - pos, 10nat,
{
    match consume(toks, pos, TokenType::Identifier) {
        Err(e) => Err(e),
        Ok(p) => if check(toks, p, TokenType::Equal) {
            match spec_expression(toks, p + 1) {
                Err(e) => Err(e),
                Ok((init, q)) => match consume(toks, q, TokenType::SemiColon) {
                    Err(x) => Err(x),
                    Ok(q_next) => Ok((StmtView::Var { name: toks[pos], initializer: Some(init) }, q_next)),
                },
            }
        } else {
            match consume(toks, p, TokenType::SemiColon) {
                Err(x) => Err(x),
                Ok(q_next) => Ok((StmtView::Var { name: toks[pos], initializer: None }, q_next)),
            }
        },
    }
}

/// `"(" expression ")" statement` after `while`.
pub open spec fn spec_while_stmt(toks: Seq<Token>, pos: int) -> Result<(StmtView, int), ParseError>
    decreases toks.len() - pos, 10nat,
{
    match consume(toks, pos, TokenType::LeftParen) {
        Err(e) => Err(e),
        Ok(p) => match spec_expression(toks, p) {
            Err(e) => Err(e),
            Ok((condition, q)) => match consume(toks, q, TokenType::RightParen) {
                Err(e) => Err(e),
                Ok(q_next) => if moved(toks, pos, q_next) {
                    match spec_statement(toks, q_next) {
                        Err(e) => Err(e),
                        Ok((body, q_then)) => Ok((StmtView::While { condition, body: Box::new(body) }, q_then)),
                    }
                } else {
                    Err(stalled(toks, pos))
                },
            },
        },
    }
}

/// `"(" expression ")" statement ("else" statement)?` after `if`.
pub open spec fn spec_if_stmt(toks: Seq<Token>, pos: int) -> Result<(StmtView, int), ParseError>
    decreases toks.len() - pos, 10nat,
{
    match consume(toks, pos, TokenType::LeftParen) {
        Err(e) => Err(e),
        Ok(p) => match spec_expression(toks, p) {
            Err(e) => Err(e),
            Ok((condition, q)) => match consume(toks, q, TokenType::RightParen) {
                Err(e) => Err(e),
                Ok(q_next) => if moved(toks, pos, q_next) {
                    match spec_statement(toks, q_next) {
                        Err(e) => Err(e),
                        Ok((then_branch, q_then)) => if check(toks, q_then, TokenType::Else) && moved(toks, pos, q_then) {
                            match spec_statement(toks, q_then + 1) {
                                Err(e) => Err(e),
                                Ok((else_branch, q_last)) => Ok(
                                    (
                                        StmtView::If {
                                            condition,
                                            then_branch: Box::new(then_branch),
                                            else_branch: Some(Box::new(else_branch)),
                                        },
                                        q_last,
                                    ),
                                ),
                            }
                        } else {
                            Ok(
                                (
                                    StmtView::If {
                                        condition,
                                        then_branch: Box::new(then_branch),
                                        else_branch: None,
                                    },
                                    q_then,
                                ),
                            )
                        },
                    }
                } else {
                    Err(stalled(toks, pos))
                },
            },
        },
    }
}

/// The initializer of a `for`: `";"`, a variable declaration or an
/// expression statement.
pub open spec fn spec_for_init(toks: Seq<Token>, pos: int) -> Result<(Option<StmtView>, int), ParseError>
    decreases toks.len() - pos, 11nat,
{
    if check(toks, pos, TokenType::SemiColon) {
        Ok((None, pos + 1))
    } else if check(toks, pos, TokenType::Var) {
        some_of(spec_var_declaration(toks, pos + 1))
    } else {
        some_of(spec_expr_stmt(toks, pos))
    }
}

/// The clauses of a `for` after its initializer: `expression? ";" expression? ")"`.
pub open spec fn spec_for_clauses(toks: Seq<Token>, pos: int) -> Result<((Option<AbstractExpr>, Option<AbstractExpr>), int), ParseError>
    decreases toks.len() - pos, 10nat,
{
    let cond = if !check(toks, pos, TokenType::SemiColon) {
        some_of(spec_expression(toks, pos))
    } else {
        Ok((None, pos))
    };
    match cond {
        Err(e) => Err(e),
        Ok((cond, p)) => match consume(toks, p, TokenType::SemiColon) {
            Err(e) => Err(e),
            Ok(p_next) => if !moved(toks, pos, p_next) {
                Err(stalled(toks, pos))
            } else {
                let inc = if !check(toks, p_next, TokenType::RightParen) {
                    some_of(spec_expression(toks, p_next))
                } else {
                    Ok((None, p_next))
                };
                match inc {
                    Err(e) => Err(e),
                    Ok((inc, p_then)) => match consume(toks, p_then, TokenType::RightParen) {
                        Err(e) => Err(e),
                        Ok(p_last) => Ok(((cond, inc), p_last)),
                    },
                }
            },
        },
    }
}

/// `"(" forInit forClauses statement` after `for`, turned into a `while`
/// loop by `desugar_for`.
pub open spec fn spec_for_stmt(toks: Seq<Token>, pos: int) -> Result<(StmtView, int), ParseError>
    decreases toks.len() - pos, 10nat,
{
    match consume(toks, pos, TokenType::LeftParen) {
        Err(e) => Err(e),
        Ok(p) => match spec_for_init(toks, p) {
            Err(e) => Err(e),
            Ok((init, p_next)) => if !moved(toks, pos, p_next) {
                Err(stalled(toks, pos))
            } else {
                match spec_for_clauses(toks, p_next) {
                    Err(e) => Err(e),
                    Ok(((cond, inc), p_then)) => if !moved(toks, pos, p_then) {
                        Err(stalled(toks, pos))
                    } else {
                        match spec_statement(toks, p_then) {
                            Err(e) => Err(e),
                            Ok((body, p_last)) => Ok((desugar_for(init, cond, inc, body), p_last)),
                        }
                    },
                }
            },
        },
    }
}

/// `statement → printStmt | whileStmt | block | forStmt | ifStmt | exprStmt`.
pub open spec fn spec_statement(toks: Seq<Token>, pos: int) -> Result<(StmtView, int), ParseError>
    decreases toks.len() - pos, 11nat,
{
    if check(toks, pos, TokenType::Print) {
        spec_print_stmt(toks, pos + 1)
    } else if check(toks, pos, TokenType::While) {
        spec_while_stmt(toks, pos + 1)
    } else if check(toks, pos, TokenType::LeftBrace) {
        match spec_block(toks, pos + 1) {
            Err(e) => Err(e),
            Ok((ss, q)) => Ok((StmtView::Block(ss), q)),
        }
    } else if check(toks, pos, TokenType::For) {
        spec_for_stmt(toks, pos + 1)
    } else if check(toks, pos, TokenType::If) {
        spec_if_stmt(toks, pos + 1)
    } else {
        spec_expr_stmt(toks, pos)
    }
}

/// `declaration → "var" varDecl | statement`.
pub open spec fn spec_declaration(toks: Seq<Token>, pos: int) -> Result<(StmtView, int), ParseError>
    decreases toks.len() - pos, 12nat,
{
    if check(toks, pos, TokenType::Var) {
        spec_var_declaration(toks, pos + 1)
    } else {
        spec_statement(toks, pos)
    }
}

/// The declarations of a block after those in `acc`, up to its `}`.
pub open spec fn spec_block_rest(toks: Seq<Token>, acc: Seq<StmtView>, pos: int) -> Result<(Seq<StmtView>, int), ParseError>
    decreases toks.len() - pos, 13nat,
{
    if !check(toks, pos, TokenType::RightBrace) && !at_end(toks, pos) {
        match spec_declaration(toks, pos) {
            Err(e) => Err(e),
            Ok((s, q)) => if moved(toks, pos, q) {
                spec_block_rest(toks, acc.push(s), q)
            } else {
                Err(stalled(toks, pos))
            },
        }
    } else {
        match consume(toks, pos, TokenType::RightBrace) {
            Err(e) => Err(e),
            Ok(q) => Ok((acc, q)),
        }
    }
}

/// `declaration* "}"` after `{`.
pub open spec fn spec_block(toks: Seq<Token>, pos: int) -> Result<(Seq<StmtView>, int), ParseError>
    decreases toks.len() - pos, 14nat,
{
    spec_block_rest(toks, Seq::empty(), pos)
}

/// The declarations from `pos` to `Eof`, after those in `acc`.
pub open spec fn spec_program_rest(toks: Seq<Token>, acc: Seq<StmtView>, pos: int) -> Result<Seq<StmtView>, ParseError>
    decreases toks.len() - pos,
{
    if at_end(toks, pos) {
        Ok(acc)
    } else {
        match spec_declaration(toks, pos) {
            Err(e) => Err(e),
            Ok((s, q)) => if moved(toks, pos, q) {
                spec_program_rest(toks, acc.push(s), q)
            } else {
                Err(stalled(toks, pos))
            },
        }
    }
}

/// The program that `toks` spell from `pos` on: its declarations, or the
/// first error.
pub open spec fn spec_program(toks: Seq<Token>, pos: int) -> Result<Seq<StmtView>, ParseError> {
    spec_program_rest(toks, Seq::empty(), pos)
}

/// Whether a token of kind `k` begins a statement.
pub open spec fn starts_statement(k: TokenType) -> bool {
    k == TokenType::Class || k == TokenType::Fun || k == TokenType::Var || k == TokenType::For
        || k == TokenType::If || k == TokenType::While || k == TokenType::Print || k == TokenType::Return
}

/// The first position from `pos` on that follows a `;`, holds a token
/// that begins a statement, or is the end.
pub open spec fn boundary_from(toks: Seq<Token>, pos: int) -> int
    decreases toks.len() - pos,
{
    if at_end(toks, pos) || (pos > 0 && toks[pos - 1].token_type == TokenType::SemiColon)
        || starts_statement(toks[pos].token_type) {
        pos
    } else {
        boundary_from(toks, pos + 1)
    }
}

/// Where parsing can resume after an error at `pos`: the next statement
/// boundary after the token at `pos`.
pub open spec fn resume_point(toks: Seq<Token>, pos: int) -> int {
    boundary_from(toks, if at_end(toks, pos) { pos } else { pos + 1 })
}

/// A statement parsing result, in its mathematical form.
pub open spec fn stmt_outcome(r: Result<AbstractStmt, ParseError>, pos: int) -> Result<(StmtView, int), ParseError> {
    match r {
        Ok(s) => Ok((s@, pos)),
        Err(e) => Err(e),
    }
}

/// A block parsing result, in its mathematical form.
pub open spec fn block_outcome(r: Result<Vec<Box<AbstractStmt>>, ParseError>, pos: int) -> Result<(Seq<StmtView>, int), ParseError> {
    match r {
        Ok(v) => Ok((stmts_view(v@), pos)),
        Err(e) => Err(e),
    }
}

/// A `for` initializer parsing result, in its mathematical form.
pub open spec fn init_outcome(r: Result<Option<AbstractStmt>, ParseError>, pos: int) -> Result<(Option<StmtView>, int), ParseError> {
    match r {
        Ok(Some(s)) => Ok((Some(s@), pos)),
        Ok(None) => Ok((None, pos)),
        Err(e) => Err(e),
    }
}

/// Builds the `while` loop that a `for` stands for, as `desugar_for` says.
fn desugar(
    initializer: Option<AbstractStmt>,
    condition: Option<AbstractExpr>,
    increment: Option<AbstractExpr>,
    body: AbstractStmt,
) -> (r: AbstractStmt)
    ensures
        r@ == desugar_for(
            match initializer {
                Some(s) => Some(s@),
                None => None,
            },
            condition,
            increment,
            body@,
        ),
{
    let ghost init_v = match &initializer {
        Some(s) => Some(s@),
        None => None,
    };
    let ghost body_v = body@;
    reveal_with_fuel(stmts_view, 3);
    let body = match increment {
        Some(inc) => {
            let mut stmts: Vec<Box<AbstractStmt>> = Vec::new();
            stmts.push(Box::new(body));
            stmts.push(Box::new(AbstractStmt::Statement(Statement { expression: Box::new(inc) })));
            assert(stmts@.drop_last().drop_last() =~= Seq::<Box<AbstractStmt>>::empty());
            assert(stmts_view(stmts@) =~= seq![body_v, StmtView::Expression(inc)]);
            AbstractStmt::Block(Block { stmts })
        },
        None => body,
    };
    let ghost body2_v = body@;
    assert(body2_v == match increment {
        Some(i) => StmtView::Block(seq![body_v, StmtView::Expression(i)]),
        None => body_v,
    });
    let condition = match condition {
        Some(c) => c,
        None => AbstractExpr::Literal(Literal { value: Box::new(Primitive::Boolean(true)) }),
    };
    let lp = AbstractStmt::While(While { condition: Box::new(condition), body: Box::new(body) });
    match initializer {
        Some(init) => {
            let ghost lp_v = lp@;
            let mut stmts: Vec<Box<AbstractStmt>> = Vec::new();
            stmts.push(Box::new(init));
            stmts.push(Box::new(lp));
            assert(stmts@.drop_last().drop_last() =~= Seq::<Box<AbstractStmt>>::empty());
            assert(stmts_view(stmts@) =~= seq![init_v.unwrap(), lp_v]);
            AbstractStmt::Block(Block { stmts })
        },
        None => lp,
    }
}

/// What an exec parsing function returned, with the position it stopped at.
pub open spec fn outcome<T>(r: Result<T, ParseError>, pos: int) -> Result<(T, int), ParseError> {
    match r {
        Ok(e) => Ok((e, pos)),
        Err(e) => Err(e),
    }
}

/// The parser's state: the tokens, ending with `Eof`, and the position of
/// the next one.
pub struct Parser {
    tokens: Vec<Token>,
    current: usize,
}

impl Parser {
    pub closed spec fn wf(&self) -> bool {
        &&& 0 < self.tokens@.len() < usize::MAX
        &&& self.tokens@.last().token_type == TokenType::Eof
        &&& self.current < self.tokens@.len()
    }

    /// The tokens being parsed.
    pub closed spec fn tokens(&self) -> Seq<Token> {
        self.tokens@
    }

    /// The position of the next token.
    pub closed spec fn position(&self) -> int {
        self.current as int
    }

    /// A parser at the first of `tokens`, which end with `Eof`.
    pub fn new(tokens: Vec<Token>) -> (r: Parser)
        requires
            0 < tokens@.len() < usize::MAX,
            tokens@.last().token_type == TokenType::Eof,
        ensures
            r.wf(),
            r.tokens() == tokens@,
            r.position() == 0,
    {
        Parser { current: 0, tokens }
    }

    pub fn is_at_end(&self) -> (r: bool)
        requires
            self.wf(),
        ensures
            r == at_end(self.tokens(), self.position()),
    {
        self.tokens[self.current].token_type == TokenType::Eof
    }

    pub fn do_check(&self, token_type: TokenType) -> (r: bool)
        requires
            self.wf(),
        ensures
            r == check(self.tokens(), self.position(), token_type),
    {
        if self.is_at_end() {
            return false;
        }
        self.tokens[self.current].token_type == token_type
    }

    /// Steps over the current token if it is one of `token_types`.
    pub fn do_match(&mut self, token_types: &[TokenType]) -> (r: bool)
        requires
            old(self).wf(),
        ensures
            final(self).wf(),
            final(self).tokens() == old(self).tokens(),
            r == check_any(old(self).tokens(), old(self).position(), token_types@),
            final(self).position() == if r { old(self).position() + 1 } else { old(self).position() },
    {
        let mut i: usize = 0;
        while i < token_types.len()
            invariant
                self.wf(),
                i <= token_types@.len(),
                forall|j: int| 0 <= j < i ==> !check(self.tokens@, self.current as int, #[trigger] token_types@[j]),
                *self == *old(self),
            decreases token_types@.len() - i,
        {
            if self.do_check(token_types[i]) {
                proof { self.lemma_room(); }
                self.current = self.current + 1;
                return true;
            }
            i = i + 1;
        }
        proof {
            if check_any(self.tokens@, self.current as int, token_types@) {
                let j = choose|j: int| 0 <= j < token_types@.len() && token_types@[j] == self.tokens@[self.current as int].token_type;
                assert(check(self.tokens@, self.current as int, token_types@[j]));
            }
        }
        false
    }

    /// Past a token that is not `Eof` there is another token.
    proof fn lemma_room(&self)
        requires
            self.wf(),
            !at_end(self.tokens@, self.current as int),
        ensures
            self.current + 1 < self.tokens@.len(),
    {
    }

    /// Steps over the current token if it is of kind `token_type`.
    pub fn match_kind(&mut self, token_type: TokenType) -> (r: bool)
        requires
            old(self).wf(),
        ensures
            final(self).wf(),
            final(self).tokens() == old(self).tokens(),
            r == check(old(self).tokens(), old(self).position(), token_type),
            final(self).position() == if r { old(self).position() + 1 } else { old(self).position() },
    {
        if self.do_check(token_type) {
            proof { self.lemma_room(); }
            self.current = self.current + 1;
            return true;
        }
        false
    }

    /// Steps over the current token unless it is `Eof`, and returns a copy
    /// of the token stepped over (or of the one before `Eof`).
    pub fn advance(&mut self) -> (r: Token)
        requires
            old(self).wf(),
            old(self).position() > 0 || !at_end(old(self).tokens(), old(self).position()),
        ensures
            final(self).wf(),
            final(self).tokens() == old(self).tokens(),
            final(self).position() == if at_end(old(self).tokens(), old(self).position()) {
                old(self).position()
            } else {
                old(self).position() + 1
            },
            r == old(self).tokens()[final(self).position() - 1],
    {
        if !self.is_at_end() {
            proof { self.lemma_room(); }
            self.current = self.current + 1;
        }
        self.previous()
    }

    /// Skips to the next statement boundary, where parsing can resume after
    /// an error: past the next `;`, or before a keyword that begins a
    /// statement, or at `Eof`.
    pub fn synchronize(&mut self)
        requires
            old(self).wf(),
        ensures
            final(self).wf(),
            final(self).tokens() == old(self).tokens(),
            final(self).position() == resume_point(old(self).tokens(), old(self).position()),
    {
        if !self.is_at_end() {
            proof { self.lemma_room(); }
            self.current = self.current + 1;
        }
        let ghost start = self.current as int;
        while !self.is_at_end()
            invariant
                self.wf(),
                self.tokens@ == old(self).tokens@,
                boundary_from(self.tokens@, start) == boundary_from(self.tokens@, self.current as int),
                boundary_from(self.tokens@, start) == resume_point(old(self).tokens@, old(self).current as int),
            decreases self.tokens@.len() - self.current,
        {
            if self.current > 0 && self.tokens[self.current - 1].token_type == TokenType::SemiColon {
                return;
            }
            let k = self.tokens[self.current].token_type;
            if k == TokenType::Class || k == TokenType::Fun || k == TokenType::Var || k == TokenType::For
                || k == TokenType::If || k == TokenType::While || k == TokenType::Print
                || k == TokenType::Return {
                return;
            }
            proof { self.lemma_room(); }
            self.current = self.current + 1;
        }
    }

    /// A copy of the token just stepped over.
    pub fn previous(&self) -> (r: Token)
        requires
            self.wf(),
            self.position() > 0,
        ensures
            r == self.tokens()[self.position() - 1],
    {
        self.tokens[self.current - 1].copy()
    }

    /// A copy of the current token.
    pub fn peek(&self) -> (r: Token)
        requires
            self.wf(),
        ensures
            r == self.tokens()[self.position()],
    {
        self.tokens[self.current].copy()
    }

    /// Steps over a token of kind `token_type`, or fails naming it.
    pub fn consume(&mut self, token_type: TokenType) -> (r: Result<(), ParseError>)
        requires
            old(self).wf(),
        ensures
            final(self).wf(),
            final(self).tokens() == old(self).tokens(),
            match consume(old(self).tokens(), old(self).position(), token_type) {
                Ok(q) => r is Ok && final(self).position() == q,
                Err(e) => r == Err::<(), ParseError>(e),
            },
    {
        if self.do_check(token_type) {
            proof { self.lemma_room(); }
            self.current = self.current + 1;
            return Ok(());
        }
        Err(ParseError::ExpectedToken { expected: token_type, found: self.peek() })
    }

    #[verifier::spinoff_prover]
    pub fn expression(&mut self) -> (r: Result<AbstractExpr, ParseError>)
        requires
            old(self).wf(),
        ensures
            final(self).wf(),
            final(self).tokens() == old(self).tokens(),
            outcome(r, final(self).position()) == spec_expression(old(self).tokens(), old(self).position()),
            r is Ok ==> final(self).position() > old(self).position(),
        decreases old(self).tokens().len() - old(self).position(), 9nat,
    {
        self.assignment()
    }

    #[verifier::spinoff_prover]
    pub fn assignment(&mut self) -> (r: Result<AbstractExpr, ParseError>)
        requires
            old(self).wf(),
        ensures
            final(self).wf(),
            final(self).tokens() == old(self).tokens(),
            outcome(r, final(self).position()) == spec_assignment(old(self).tokens(), old(self).position()),
            r is Ok ==> final(self).position() > old(self).position(),
        decreases old(self).tokens().len() - old(self).position(), 8nat,
    {
        let expr = match self.exp_or() {
            Ok(e) => e,
            Err(e) => return Err(e),
        };
        if (self.match_kind(TokenType::Equal)) {
            let equals = self.previous();
            let value = match self.assignment() {
                Ok(e) => e,
                Err(e) => return Err(e),
            };
            match expr {
                AbstractExpr::Variable(var) => {
                    return Ok(AbstractExpr::Assign(Assign { name: var.name, value: Box::new(value) }));
                },
                _ => {
                    return Err(ParseError::InvalidAssignmentTarget { equals });
                },
            }
        }
        Ok(expr)
    }

    #[verifier::spinoff_prover]
    pub fn unary(&mut self) -> (r: Result<AbstractExpr, ParseError>)
        requires
            old(self).wf(),
        ensures
            final(self).wf(),
            final(self).tokens() == old(self).tokens(),
            outcome(r, final(self).position()) == spec_unary(old(self).tokens(), old(self).position()),
            r is Ok ==> final(self).position() > old(self).position(),
        decreases old(self).tokens().len() - old(self).position(), 1nat,
    {
        if (self.match_kind(TokenType::Bang) || self.match_kind(TokenType::Minus)) {
            let operator = self.previous();
            let right = match self.unary() {
                Ok(e) => e,
                Err(e) => return Err(e),
            };
            return Ok(AbstractExpr::Unary(Unary { right: Box::new(right), operator: Box::new(operator) }));
        }
        self.primary()
    }

    #[verifier::spinoff_prover]
    pub fn primary(&mut self) -> (r: Result<AbstractExpr, ParseError>)
        requires
            old(self).wf(),
        ensures
            final(self).wf(),
            final(self).tokens() == old(self).tokens(),
            outcome(r, final(self).position()) == spec_primary(old(self).tokens(), old(self).position()),
            r is Ok ==> final(self).position() > old(self).position(),
        decreases old(self).tokens().len() - old(self).position(), 0nat,
    {
        if (self.match_kind(TokenType::False)) {
            return Ok(AbstractExpr::Literal(Literal { value: Box::new(Primitive::Boolean(false)) }));
        }
        if (self.match_kind(TokenType::True)) {
            return Ok(AbstractExpr::Literal(Literal { value: Box::new(Primitive::Boolean(true)) }));
        }
        if (self.match_kind(TokenType::Nil)) {
            return Ok(AbstractExpr::Literal(Literal { value: Box::new(Primitive::Nil) }));
        }
        if (self.match_kind(TokenType::Number) || self.match_kind(TokenType::String)) {
            let value = match &self.tokens[self.current - 1].literal {
                Some(p) => p.copy(),
                None => Primitive::Nil,
            };
            return Ok(AbstractExpr::Literal(Literal { value: Box::new(value) }));
        }
        if (self.match_kind(TokenType::LeftParen)) {
            let expr = match self.expression() {
                Ok(e) => e,
                Err(e) => return Err(e),
            };
            match self.consume(TokenType::RightParen) {
                Ok(()) => {},
                Err(e) => return Err(e),
            }
            return Ok(AbstractExpr::Grouping(Grouping { expression: Box::new(expr) }));
        }
        if (self.match_kind(TokenType::Identifier)) {
            return Ok(AbstractExpr::Variable(Variable { name: Box::new(self.previous()) }));
        }
        Err(ParseError::ExpectedExpression { found: self.peek() })
    }

    #[verifier::spinoff_prover]
    pub fn exp_or(&mut self) -> (r: Result<AbstractExpr, ParseError>)
        requires
            old(self).wf(),
        ensures
            final(self).wf(),
            final(self).tokens() == old(self).tokens(),
            outcome(r, final(self).position()) == spec_or(old(self).tokens(), old(self).position()),
            r is Ok ==> final(self).position() > old(self).position(),
        decreases old(self).tokens().len() - old(self).position(), 7nat,
    {
        let ghost toks = self.tokens@;
        let ghost pos = self.current as int;
        let mut expr = match self.exp_and() {
            Ok(e) => e,
            Err(e) => return Err(e),
        };
        loop
            invariant
                self.wf(),
                self.tokens@ == toks,
                toks == old(self).tokens@,
                pos == old(self).current,
                self.current > pos,
                spec_or(toks, pos) == spec_or_rest(toks, expr, self.current as int),
            decreases toks.len() - self.current,
        {
            let at = self.current;
            if !(self.match_kind(TokenType::Or)) {
                return Ok(expr);
            }
            let operator = self.previous();
            let right = match self.exp_and() {
                Ok(e) => e,
                Err(e) => return Err(e),
            };
            expr = AbstractExpr::Logical(Logical { right: Box::new(right), left: Box::new(expr), operator: Box::new(operator) });
        }
    }

    #[verifier::spinoff_prover]
    pub fn exp_and(&mut self) -> (r: Result<AbstractExpr, ParseError>)
        requires
            old(self).wf(),
        ensures
            final(self).wf(),
            final(self).tokens() == old(self).tokens(),
            outcome(r, final(self).position()) == spec_and(old(self).tokens(), old(self).position()),
            r is Ok ==> final(self).position() > old(self).position(),
        decreases old(self).tokens().len() - old(self).position(), 6nat,
    {
        let ghost toks = self.tokens@;
        let ghost pos = self.current as int;
        let mut expr = match self.equality() {
            Ok(e) => e,
            Err(e) => return Err(e),
        };
        loop
            invariant
                self.wf(),
                self.tokens@ == toks,
                toks == old(self).tokens@,
                pos == old(self).current,
                self.current > pos,
                spec_and(toks, pos) == spec_and_rest(toks, expr, self.current as int),
            decreases toks.len() - self.current,
        {
            let at = self.current;
            if !(self.match_kind(TokenType::And)) {
                return Ok(expr);
            }
            let operator = self.previous();
            let right = match self.equality() {
                Ok(e) => e,
                Err(e) => return Err(e),
            };
            expr = AbstractExpr::Logical(Logical { right: Box::new(right), left: Box::new(expr), operator: Box::new(operator) });
        }
    }

    #[verifier::spinoff_prover]
    pub fn equality(&mut self) -> (r: Result<AbstractExpr, ParseError>)
        requires
            old(self).wf(),
        ensures
            final(self).wf(),
            final(self).tokens() == old(self).tokens(),
            outcome(r, final(self).position()) == spec_equality(old(self).tokens(), old(self).position()),
            r is Ok ==> final(self).position() > old(self).position(),
        decreases old(self).tokens().len() - old(self).position(), 5nat,
    {
        let ghost toks = self.tokens@;
        let ghost pos = self.current as int;
        let mut expr = match self.comparison() {
            Ok(e) => e,
            Err(e) => return Err(e),
        };
        loop
            invariant
                self.wf(),
                self.tokens@ == toks,
                toks == old(self).tokens@,
                pos == old(self).current,
                self.current > pos,
                spec_equality(toks, pos) == spec_equality_rest(toks, expr, self.current as int),
            decreases toks.len() - self.current,
        {
            let at = self.current;
            if !(self.match_kind(TokenType::BangEqual) || self.match_kind(TokenType::EqualEqual)) {
                return Ok(expr);
            }
            let operator = self.previous();
            let right = match self.comparison() {
                Ok(e) => e,
                Err(e) => return Err(e),
            };
            expr = AbstractExpr::Binary(Binary { operator: Box::new(operator), left: Box::new(expr), right: Box::new(right) });
        }
    }

    #[verifier::spinoff_prover]
    pub fn comparison(&mut self) -> (r: Result<AbstractExpr, ParseError>)
        requires
            old(self).wf(),
        ensures
            final(self).wf(),
            final(self).tokens() == old(self).tokens(),
            outcome(r, final(self).position()) == spec_comparison(old(self).tokens(), old(self).position()),
            r is Ok ==> final(self).position() > old(self).position(),
        decreases old(self).tokens().len() - old(self).position(), 4nat,
    {
        let ghost toks = self.tokens@;
        let ghost pos = self.current as int;
        let mut expr = match self.term() {
            Ok(e) => e,
            Err(e) => return Err(e),
        };
        loop
            invariant
                self.wf(),
                self.tokens@ == toks,
                toks == old(self).tokens@,
                pos == old(self).current,
                self.current > pos,
                spec_comparison(toks, pos) == spec_comparison_rest(toks, expr, self.current as int),
            decreases toks.len() - self.current,
        {
            let at = self.current;
            if !(self.match_kind(TokenType::Greater) || self.match_kind(TokenType::GreaterEqual) || self.match_kind(TokenType::Less) || self.match_kind(TokenType::LessEqual)) {
                return Ok(expr);
            }
            let operator = self.previous();
            let right = match self.term() {
                Ok(e) => e,
                Err(e) => return Err(e),
            };
            expr = AbstractExpr::Binary(Binary { operator: Box::new(operator), left: Box::new(expr), right: Box::new(right) });
        }
    }

    #[verifier::spinoff_prover]
    pub fn term(&mut self) -> (r: Result<AbstractExpr, ParseError>)
        requires
            old(self).wf(),
        ensures
            final(self).wf(),
            final(self).tokens() == old(self).tokens(),
            outcome(r, final(self).position()) == spec_term(old(self).tokens(), old(self).position()),
            r is Ok ==> final(self).position() > old(self).position(),
        decreases old(self).tokens().len() - old(self).position(), 3nat,
    {
        let ghost toks = self.tokens@;
        let ghost pos = self.current as int;
        let mut expr = match self.factor() {
            Ok(e) => e,
            Err(e) => return Err(e),
        };
        loop
            invariant
                self.wf(),
                self.tokens@ == toks,
                toks == old(self).tokens@,
                pos == old(self).current,
                self.current > pos,
                spec_term(toks, pos) == spec_term_rest(toks, expr, self.current as int),
            decreases toks.len() - self.current,
        {
            let at = self.current;
            if !(self.match_kind(TokenType::Minus) || self.match_kind(TokenType::Plus)) {
                return Ok(expr);
            }
            let operator = self.previous();
            let right = match self.factor() {
                Ok(e) => e,
                Err(e) => return Err(e),
            };
            expr = AbstractExpr::Binary(Binary { operator: Box::new(operator), left: Box::new(expr), right: Box::new(right) });
        }
    }

    #[verifier::spinoff_prover]
    pub fn factor(&mut self) -> (r: Result<AbstractExpr, ParseError>)
        requires
            old(self).wf(),
        ensures
            final(self).wf(),
            final(self).tokens() == old(self).tokens(),
            outcome(r, final(self).position()) == spec_factor(old(self).tokens(), old(self).position()),
            r is Ok ==> final(self).position() > old(self).position(),
        decreases old(self).tokens().len() - old(self).position(), 2nat,
    {
        let ghost toks = self.tokens@;
        let ghost pos = self.current as int;
        let mut expr = match self.unary() {
            Ok(e) => e,
            Err(e) => return Err(e),
        };
        loop
            invariant
                self.wf(),
                self.tokens@ == toks,
                toks == old(self).tokens@,
                pos == old(self).current,
                self.current > pos,
                spec_factor(toks, pos) == spec_factor_rest(toks, expr, self.current as int),
            decreases toks.len() - self.current,
        {
            let at = self.current;
            if !(self.match_kind(TokenType::Slash) || self.match_kind(TokenType::Star)) {
                return Ok(expr);
            }
            let operator = self.previous();
            let right = match self.unary() {
                Ok(e) => e,
                Err(e) => return Err(e),
            };
            expr = AbstractExpr::Binary(Binary { operator: Box::new(operator), left: Box::new(expr), right: Box::new(right) });
        }
    }
    #[verifier::spinoff_prover]
    pub fn expr_stmt(&mut self) -> (r: Result<AbstractStmt, ParseError>)
        requires
            old(self).wf(),
        ensures
            final(self).wf(),
            final(self).tokens() == old(self).tokens(),
            stmt_outcome(r, final(self).position()) == spec_expr_stmt(old(self).tokens(), old(self).position()),
            r is Ok ==> final(self).position() > old(self).position(),
        decreases old(self).tokens().len() - old(self).position(), 10nat,
    {
        let value = match self.expression() {
            Ok(x) => x,
            Err(e) => return Err(e),
        };
        match self.consume(TokenType::SemiColon) {
            Ok(()) => {},
            Err(e) => return Err(e),
        }
        Ok(AbstractStmt::Statement(Statement { expression: Box::new(value) }))
    }

    #[verifier::spinoff_prover]
    pub fn print_stmt(&mut self) -> (r: Result<AbstractStmt, ParseError>)
        requires
            old(self).wf(),
        ensures
            final(self).wf(),
            final(self).tokens() == old(self).tokens(),
            stmt_outcome(r, final(self).position()) == spec_print_stmt(old(self).tokens(), old(self).position()),
            r is Ok ==> final(self).position() > old(self).position(),
        decreases old(self).tokens().len() - old(self).position(), 10nat,
    {
        let value = match self.expression() {
            Ok(x) => x,
            Err(e) => return Err(e),
        };
        match self.consume(TokenType::SemiColon) {
            Ok(()) => {},
            Err(e) => return Err(e),
        }
        Ok(AbstractStmt::Print(Print { expression: Box::new(value) }))
    }

    #[verifier::spinoff_prover]
    pub fn var_declaration(&mut self) -> (r: Result<AbstractStmt, ParseError>)
        requires
            old(self).wf(),
        ensures
            final(self).wf(),
            final(self).tokens() == old(self).tokens(),
            stmt_outcome(r, final(self).position()) == spec_var_declaration(old(self).tokens(), old(self).position()),
            r is Ok ==> final(self).position() > old(self).position(),
        decreases old(self).tokens().len() - old(self).position(), 10nat,
    {
        let ghost pos = self.current as int;
        if !self.do_check(TokenType::Identifier) {
            return Err(ParseError::ExpectedToken { expected: TokenType::Identifier, found: self.peek() });
        }
        let name = self.peek();
        proof { self.lemma_room(); }
        self.current = self.current + 1;
        let mut initializer: Option<AbstractExpr> = None;
        if self.match_kind(TokenType::Equal) {
            let e = match self.expression() {
            Ok(x) => x,
            Err(e) => return Err(e),
        };
            initializer = Some(e);
        }
        match self.consume(TokenType::SemiColon) {
            Ok(()) => {},
            Err(e) => return Err(e),
        }
        Ok(AbstractStmt::Var(Var { name: Box::new(name), initializer }))
    }

    #[verifier::spinoff_prover]
    pub fn while_stmt(&mut self) -> (r: Result<AbstractStmt, ParseError>)
        requires
            old(self).wf(),
        ensures
            final(self).wf(),
            final(self).tokens() == old(self).tokens(),
            stmt_outcome(r, final(self).position()) == spec_while_stmt(old(self).tokens(), old(self).position()),
            r is Ok ==> final(self).position() > old(self).position(),
        decreases old(self).tokens().len() - old(self).position(), 10nat,
    {
        match self.consume(TokenType::LeftParen) {
            Ok(()) => {},
            Err(e) => return Err(e),
        }
        let condition = match self.expression() {
            Ok(x) => x,
            Err(e) => return Err(e),
        };
        match self.consume(TokenType::RightParen) {
            Ok(()) => {},
            Err(e) => return Err(e),
        }
        let body = match self.statement() {
            Ok(x) => x,
            Err(e) => return Err(e),
        };
        Ok(AbstractStmt::While(While { condition: Box::new(condition), body: Box::new(body) }))
    }

    #[verifier::spinoff_prover]
    #[verifier::rlimit(100)]
    pub fn if_stmt(&mut self) -> (r: Result<AbstractStmt, ParseError>)
        requires
            old(self).wf(),
        ensures
            final(self).wf(),
            final(self).tokens() == old(self).tokens(),
            stmt_outcome(r, final(self).position()) == spec_if_stmt(old(self).tokens(), old(self).position()),
            r is Ok ==> final(self).position() > old(self).position(),
        decreases old(self).tokens().len() - old(self).position(), 10nat,
    {
        match self.consume(TokenType::LeftParen) {
            Ok(()) => {},
            Err(e) => return Err(e),
        }
        let condition = match self.expression() {
            Ok(x) => x,
            Err(e) => return Err(e),
        };
        match self.consume(TokenType::RightParen) {
            Ok(()) => {},
            Err(e) => return Err(e),
        }
        let then_branch = match self.statement() {
            Ok(x) => x,
            Err(e) => return Err(e),
        };
        let mut else_branch = None;
        if self.match_kind(TokenType::Else) {
            let e = match self.statement() {
            Ok(x) => x,
            Err(e) => return Err(e),
        };
            else_branch = Some(Box::new(e));
        }
        Ok(AbstractStmt::If(If { condition: Box::new(condition), then_branch: Box::new(then_branch), else_branch }))
    }

    #[verifier::spinoff_prover]
    pub fn for_init(&mut self) -> (r: Result<Option<AbstractStmt>, ParseError>)
        requires
            old(self).wf(),
        ensures
            final(self).wf(),
            final(self).tokens() == old(self).tokens(),
            init_outcome(r, final(self).position()) == spec_for_init(old(self).tokens(), old(self).position()),
            r is Ok ==> final(self).position() > old(self).position(),
        decreases old(self).tokens().len() - old(self).position(), 11nat,
    {
        if self.match_kind(TokenType::SemiColon) {
            return Ok(None);
        }
        if self.match_kind(TokenType::Var) {
            return match self.var_declaration() {
                Ok(d) => Ok(Some(d)),
                Err(e) => Err(e),
            };
        }
        match self.expr_stmt() {
            Ok(d) => Ok(Some(d)),
            Err(e) => Err(e),
        }
    }

    #[verifier::spinoff_prover]
    pub fn for_clauses(&mut self) -> (r: Result<(Option<AbstractExpr>, Option<AbstractExpr>), ParseError>)
        requires
            old(self).wf(),
        ensures
            final(self).wf(),
            final(self).tokens() == old(self).tokens(),
            outcome(r, final(self).position()) == spec_for_clauses(old(self).tokens(), old(self).position()),
            r is Ok ==> final(self).position() > old(self).position(),
        decreases old(self).tokens().len() - old(self).position(), 10nat,
    {
        let mut condition: Option<AbstractExpr> = None;
        if !self.do_check(TokenType::SemiColon) {
            let c = match self.expression() {
                Ok(x) => x,
                Err(e) => return Err(e),
            };
            condition = Some(c);
        }
        match self.consume(TokenType::SemiColon) {
            Ok(()) => {},
            Err(e) => return Err(e),
        }
        let mut increment: Option<AbstractExpr> = None;
        if !self.do_check(TokenType::RightParen) {
            let c = match self.expression() {
                Ok(x) => x,
                Err(e) => return Err(e),
            };
            increment = Some(c);
        }
        match self.consume(TokenType::RightParen) {
            Ok(()) => {},
            Err(e) => return Err(e),
        }
        Ok((condition, increment))
    }

    #[verifier::spinoff_prover]
    #[verifier::rlimit(100)]
    pub fn for_stmt(&mut self) -> (r: Result<AbstractStmt, ParseError>)
        requires
            old(self).wf(),
        ensures
            final(self).wf(),
            final(self).tokens() == old(self).tokens(),
            stmt_outcome(r, final(self).position()) == spec_for_stmt(old(self).tokens(), old(self).position()),
            r is Ok ==> final(self).position() > old(self).position(),
        decreases old(self).tokens().len() - old(self).position(), 10nat,
    {
        match self.consume(TokenType::LeftParen) {
            Ok(()) => {},
            Err(e) => return Err(e),
        }
        let initializer = match self.for_init() {
            Ok(x) => x,
            Err(e) => return Err(e),
        };
        let (condition, increment) = match self.for_clauses() {
            Ok(x) => x,
            Err(e) => return Err(e),
        };
        let body = match self.statement() {
            Ok(x) => x,
            Err(e) => return Err(e),
        };
        Ok(desugar(initializer, condition, increment, body))
    }

    #[verifier::spinoff_prover]
    pub fn statement(&mut self) -> (r: Result<AbstractStmt, ParseError>)
        requires
            old(self).wf(),
        ensures
            final(self).wf(),
            final(self).tokens() == old(self).tokens(),
            stmt_outcome(r, final(self).position()) == spec_statement(old(self).tokens(), old(self).position()),
            r is Ok ==> final(self).position() > old(self).position(),
        decreases old(self).tokens().len() - old(self).position(), 11nat,
    {
        if self.match_kind(TokenType::Print) {
            return self.print_stmt();
        }
        if self.match_kind(TokenType::While) {
            return self.while_stmt();
        }
        if self.match_kind(TokenType::LeftBrace) {
            let stmts = match self.block() {
            Ok(x) => x,
            Err(e) => return Err(e),
        };
            return Ok(AbstractStmt::Block(Block { stmts }));
        }
        if self.match_kind(TokenType::For) {
            return self.for_stmt();
        }
        if self.match_kind(TokenType::If) {
            return self.if_stmt();
        }
        self.expr_stmt()
    }

    #[verifier::spinoff_prover]
    pub fn declaration(&mut self) -> (r: Result<AbstractStmt, ParseError>)
        requires
            old(self).wf(),
        ensures
            final(self).wf(),
            final(self).tokens() == old(self).tokens(),
            stmt_outcome(r, final(self).position()) == spec_declaration(old(self).tokens(), old(self).position()),
            r is Ok ==> final(self).position() > old(self).position(),
        decreases old(self).tokens().len() - old(self).position(), 12nat,
    {
        if self.match_kind(TokenType::Var) {
            return self.var_declaration();
        }
        self.statement()
    }

    #[verifier::spinoff_prover]
    pub fn block(&mut self) -> (r: Result<Vec<Box<AbstractStmt>>, ParseError>)
        requires
            old(self).wf(),
        ensures
            final(self).wf(),
            final(self).tokens() == old(self).tokens(),
            block_outcome(r, final(self).position()) == spec_block(old(self).tokens(), old(self).position()),
            r is Ok ==> final(self).position() > old(self).position(),
        decreases old(self).tokens().len() - old(self).position(), 14nat,
    {
        let ghost toks = self.tokens@;
        let ghost pos = self.current as int;
        let mut stmts: Vec<Box<AbstractStmt>> = Vec::new();
        assert(stmts_view(stmts@) =~= Seq::empty());
        while !(self.do_check(TokenType::RightBrace) || self.is_at_end())
            invariant
                self.wf(),
                self.tokens@ == toks,
                toks == old(self).tokens@,
                pos == old(self).current,
                self.current >= pos,
                spec_block(toks, pos) == spec_block_rest(toks, stmts_view(stmts@), self.current as int),
            decreases toks.len() - self.current,
        {
            let d = match self.declaration() {
                Ok(x) => x,
                Err(e) => return Err(e),
            };
            let ghost before = stmts@;
            stmts.push(Box::new(d));
            assert(stmts@.drop_last() =~= before);
        }
        match self.consume(TokenType::RightBrace) {
            Ok(()) => {},
            Err(e) => return Err(e),
        }
        Ok(stmts)
    }

    /// Parses declarations up to `Eof`, as `spec_program` says.
    #[verifier::spinoff_prover]
    pub fn parse(&mut self) -> (r: Result<Vec<AbstractStmt>, ParseError>)
        requires
            old(self).wf(),
        ensures
            match r {
                Ok(v) => spec_program(old(self).tokens(), old(self).position()) == Ok::<Seq<StmtView>, ParseError>(
                    v@.map_values(|s: AbstractStmt| s@),
                ),
                Err(e) => spec_program(old(self).tokens(), old(self).position()) == Err::<Seq<StmtView>, ParseError>(e),
            },
    {
        let ghost toks = self.tokens@;
        let ghost pos = self.current as int;
        let mut statements: Vec<AbstractStmt> = Vec::new();
        assert(statements@.map_values(|s: AbstractStmt| s@) =~= Seq::empty());
        while !self.is_at_end()
            invariant
                self.wf(),
                self.tokens@ == toks,
                toks == old(self).tokens@,
                pos == old(self).current,
                spec_program(toks, pos) == spec_program_rest(
                    toks,
                    statements@.map_values(|s: AbstractStmt| s@),
                    self.current as int,
                ),
            decreases toks.len() - self.current,
        {
            let d = match self.declaration() {
            Ok(x) => x,
            Err(e) => return Err(e),
        };
            let ghost before = statements@;
            statements.push(d);
            assert(statements@.map_values(|s: AbstractStmt| s@) =~= before.map_values(|s: AbstractStmt| s@).push(
                statements@.last()@,
            ));
        }
        Ok(statements)
    }
}

} // verus!
