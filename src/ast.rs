//! The syntax tree.
use vstd::prelude::*;
use crate::token::{Primitive, Token};

verus! {

broadcast use vstd::std_specs::vec::group_vec_axioms, vstd::seq::group_seq_axioms;

/// An expression.
#[derive(Debug, PartialEq)]
pub enum AbstractExpr {
    Assign(Assign),
    Binary(Binary),
    Grouping(Grouping),
    Literal(Literal),
    Logical(Logical),
    Unary(Unary),
    Variable(Variable),
}

/// `name = value`.
#[derive(Debug, PartialEq)]
pub struct Assign {
    pub name: Box<Token>,
    pub value: Box<AbstractExpr>,
}

/// An arithmetic, comparison or equality operator applied to two operands.
#[derive(Debug, PartialEq)]
pub struct Binary {
    pub operator: Box<Token>,
    pub left: Box<AbstractExpr>,
    pub right: Box<AbstractExpr>,
}

/// A parenthesized expression.
#[derive(Debug, PartialEq)]
pub struct Grouping {
    pub expression: Box<AbstractExpr>,
}

/// A constant.
#[derive(Debug, PartialEq)]
pub struct Literal {
    pub value: Box<Primitive>,
}

/// `and` or `or`, which evaluate their right operand only when needed.
#[derive(Debug, PartialEq)]
pub struct Logical {
    pub right: Box<AbstractExpr>,
    pub left: Box<AbstractExpr>,
    pub operator: Box<Token>,
}

/// `!` or `-` applied to one operand.
#[derive(Debug, PartialEq)]
pub struct Unary {
    pub right: Box<AbstractExpr>,
    pub operator: Box<Token>,
}

/// A reference to a variable.
#[derive(Debug, PartialEq)]
pub struct Variable {
    pub name: Box<Token>,
}

/// A statement.
#[derive(Debug, PartialEq)]
pub enum AbstractStmt {
    Statement(Statement),
    Block(Block),
    Print(Print),
    Var(Var),
    If(If),
    While(While),
}

/// `if (condition) then_branch else else_branch`.
#[derive(Debug, PartialEq)]
pub struct If {
    pub condition: Box<AbstractExpr>,
    pub then_branch: Box<AbstractStmt>,
    pub else_branch: Option<Box<AbstractStmt>>,
}

/// `while (condition) body`.
#[derive(Debug, PartialEq)]
pub struct While {
    pub condition: Box<AbstractExpr>,
    pub body: Box<AbstractStmt>,
}

/// `{ stmts }`, with a scope of its own.
#[derive(Debug, PartialEq)]
pub struct Block {
    pub stmts: Vec<Box<AbstractStmt>>,
}

/// An expression evaluated for its effect.
#[derive(Debug, PartialEq)]
pub struct Statement {
    pub expression: Box<AbstractExpr>,
}

/// `print expression;`.
#[derive(Debug, PartialEq)]
pub struct Print {
    pub expression: Box<AbstractExpr>,
}

/// `var name = initializer;`.
#[derive(Debug, PartialEq)]
pub struct Var {
    pub name: Box<Token>,
    pub initializer: Option<AbstractExpr>,
}

/// The mathematical form of a statement: a block holds a sequence.
pub enum StmtView {
    Expression(AbstractExpr),
    Print(AbstractExpr),
    Var { name: Token, initializer: Option<AbstractExpr> },
    Block(Seq<StmtView>),
    If { condition: AbstractExpr, then_branch: Box<StmtView>, else_branch: Option<Box<StmtView>> },
    While { condition: AbstractExpr, body: Box<StmtView> },
}

pub open spec fn stmt_view(s: AbstractStmt) -> StmtView
    decreases s,
{
    match s {
        AbstractStmt::Statement(x) => StmtView::Expression(*x.expression),
        AbstractStmt::Print(x) => StmtView::Print(*x.expression),
        AbstractStmt::Var(x) => StmtView::Var { name: *x.name, initializer: x.initializer },
        AbstractStmt::Block(x) => StmtView::Block(stmts_view(x.stmts@)),
        AbstractStmt::If(x) => StmtView::If {
            condition: *x.condition,
            then_branch: Box::new(stmt_view(*x.then_branch)),
            else_branch: match x.else_branch {
                Some(e) => Some(Box::new(stmt_view(*e))),
                None => None,
            },
        },
        AbstractStmt::While(x) => StmtView::While {
            condition: *x.condition,
            body: Box::new(stmt_view(*x.body)),
        },
    }
}

pub open spec fn stmts_view(ss: Seq<Box<AbstractStmt>>) -> Seq<StmtView>
    decreases ss,
{
    if ss.len() == 0 {
        Seq::empty()
    } else {
        stmts_view(ss.drop_last()).push(stmt_view(*ss.last()))
    }
}

/// A block's statements, in their mathematical form, one for one.
pub proof fn lemma_stmts_view(ss: Seq<Box<AbstractStmt>>)
    ensures
        stmts_view(ss).len() == ss.len(),
        forall|i: int| 0 <= i < ss.len() ==> #[trigger] stmts_view(ss)[i] == stmt_view(*ss[i]),
    decreases ss.len(),
{
    if ss.len() > 0 {
        lemma_stmts_view(ss.drop_last());
    }
}

impl View for AbstractStmt {
    type V = StmtView;

    open spec fn view(&self) -> StmtView {
        stmt_view(*self)
    }
}

} // verus!
