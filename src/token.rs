//! Tokens and the runtime values that literals carry.
use vstd::prelude::*;
use crate::number::Num;

verus! {

/// The kinds of token.
#[derive(Debug, Clone, Copy, PartialEq, Eq, Structural)]
pub enum TokenType {
    // Single-character tokens.
    LeftParen,
    RightParen,
    LeftBrace,
    RightBrace,
    Comma,
    Dot,
    Minus,
    Plus,
    SemiColon,
    Slash,
    Star,
    // One or two character tokens.
    Bang,
    BangEqual,
    Equal,
    EqualEqual,
    Greater,
    GreaterEqual,
    Less,
    LessEqual,
    // Literals.
    Identifier,
    String,
    Number,
    // Keywords.
    And,
    Class,
    Else,
    False,
    Fun,
    For,
    If,
    Nil,
    Or,
    Print,
    Return,
    Super,
    This,
    True,
    Var,
    While,
    Eof,
    Comment,
}

/// A runtime value of the language.
#[derive(Debug, Clone, PartialEq)]
pub enum Primitive {
    Nil,
    Boolean(bool),
    String(String),
    Number(Num),
    Comment(String),
}

/// The mathematical form of a `Primitive`.
pub enum Val {
    Nil,
    Boolean(bool),
    Str(Seq<char>),
    Number(Num),
    Comment(Seq<char>),
}

impl View for Primitive {
    type V = Val;

    open spec fn view(&self) -> Val {
        match self {
            Primitive::Nil => Val::Nil,
            Primitive::Boolean(b) => Val::Boolean(*b),
            Primitive::String(s) => Val::Str(s@),
            Primitive::Number(n) => Val::Number(*n),
            Primitive::Comment(s) => Val::Comment(s@),
        }
    }
}

impl Val {
    /// Every number held is well formed.
    pub open spec fn wf(self) -> bool {
        match self {
            Val::Number(n) => n.wf(),
            _ => true,
        }
    }
}

impl Primitive {
    /// A copy of the value.
    pub fn copy(&self) -> (r: Primitive)
        ensures
            r == *self,
    {
        match self {
            Primitive::Nil => Primitive::Nil,
            Primitive::Boolean(b) => Primitive::Boolean(*b),
            Primitive::String(s) => Primitive::String(s.clone()),
            Primitive::Number(n) => Primitive::Number(*n),
            Primitive::Comment(s) => Primitive::Comment(s.clone()),
        }
    }
}

/// A token: its kind, the source text it was read from, the value of a
/// literal, and the line where it ends.
#[derive(Debug, Clone, PartialEq)]
pub struct Token {
    pub token_type: TokenType,
    pub lexme: Option<String>,
    pub literal: Option<Primitive>,
    pub line: usize,
}

/// The mathematical form of a `Token`.
pub struct TokenView {
    pub kind: TokenType,
    pub lexeme: Seq<char>,
    pub literal: Option<Val>,
    pub line: nat,
}

impl View for Token {
    type V = TokenView;

    open spec fn view(&self) -> TokenView {
        TokenView {
            kind: self.token_type,
            lexeme: match self.lexme {
                Some(s) => s@,
                None => Seq::empty(),
            },
            literal: match self.literal {
                Some(p) => Some(p@),
                None => None,
            },
            line: self.line as nat,
        }
    }
}

/// The views of a sequence of tokens.
pub open spec fn tokens_view(ts: Seq<Token>) -> Seq<TokenView> {
    ts.map_values(|t: Token| t@)
}

impl Token {
    /// A copy of the token.
    pub fn copy(&self) -> (r: Token)
        ensures
            r == *self,
    {
        Token {
            token_type: self.token_type,
            lexme: match &self.lexme {
                Some(s) => Some(s.clone()),
                None => None,
            },
            literal: match &self.literal {
                Some(p) => Some(p.copy()),
                None => None,
            },
            line: self.line,
        }
    }
}

} // verus!
