//! A printer of expressions in prefix form, for inspecting syntax trees.
use vstd::prelude::*;
use crate::ast::AbstractExpr;
use crate::environment::{name_of, value_wf};
use crate::number::num_text;
use crate::token::{Primitive, Token};

verus! {

/// Whether every number literal in `e` is well formed.
pub open spec fn expr_wf(e: AbstractExpr) -> bool
    decreases e,
{
    match e {
        AbstractExpr::Literal(l) => value_wf(*l.value),
        AbstractExpr::Grouping(g) => expr_wf(*g.expression),
        AbstractExpr::Variable(_) => true,
        AbstractExpr::Assign(a) => expr_wf(*a.value),
        AbstractExpr::Logical(l) => expr_wf(*l.left) && expr_wf(*l.right),
        AbstractExpr::Unary(u) => expr_wf(*u.right),
        AbstractExpr::Binary(b) => expr_wf(*b.left) && expr_wf(*b.right),
    }
}

/// How a literal value is written.
pub open spec fn literal_text(v: Primitive) -> Seq<char> {
    match v {
        Primitive::Nil => seq!['n', 'i', 'l'],
        Primitive::Boolean(true) => seq!['t', 'r', 'u', 'e'],
        Primitive::Boolean(false) => seq!['f', 'a', 'l', 's', 'e'],
        Primitive::String(s) => s@,
        Primitive::Number(n) => num_text(n),
        Primitive::Comment(s) => s@,
    }
}

/// `(name a b ...)`.
pub open spec fn parens(name: Seq<char>, parts: Seq<Seq<char>>) -> Seq<char>
    decreases parts.len(),
{
    if parts.len() == 0 {
        seq!['('] + name
    } else {
        parens(name, parts.drop_last()) + seq![' '] + parts.last()
    }
}

/// `e` in prefix form: operators before their operands, each compound
/// expression in parentheses.
pub open spec fn expr_text(e: AbstractExpr) -> Seq<char>
    decreases e,
{
    match e {
        AbstractExpr::Literal(l) => literal_text(*l.value),
        AbstractExpr::Grouping(g) => parens(seq!['g', 'r', 'o', 'u', 'p'], seq![expr_text(*g.expression)]) + seq![')'],
        AbstractExpr::Variable(v) => name_of(*v.name),
        AbstractExpr::Assign(a) => parens(seq!['='], seq![name_of(*a.name), expr_text(*a.value)]) + seq![')'],
        AbstractExpr::Logical(l) => parens(name_of(*l.operator), seq![expr_text(*l.left), expr_text(*l.right)]) + seq![')'],
        AbstractExpr::Unary(u) => parens(name_of(*u.operator), seq![expr_text(*u.right)]) + seq![')'],
        AbstractExpr::Binary(b) => parens(name_of(*b.operator), seq![expr_text(*b.left), expr_text(*b.right)]) + seq![')'],
    }
}

/// Appends `s` to `out`.
fn push_all(out: &mut Vec<char>, s: &Vec<char>)
    ensures
        final(out)@ == old(out)@ + s@,
{
    let mut i: usize = 0;
    while i < s.len()
        invariant
            i <= s@.len(),
            out@ == old(out)@ + s@.take(i as int),
        decreases s@.len() - i,
    {
        out.push(s[i]);
        i = i + 1;
        assert(out@ =~= old(out)@ + s@.take(i as int));
    }
    assert(s@.take(i as int) =~= s@);
}

/// The characters of the name a token stands for.
fn name_chars(t: &Token) -> (r: Vec<char>)
    ensures
        r@ == name_of(*t),
{
    match &t.lexme {
        Some(s) => crate::text::chars_of(s.as_str()),
        None => Vec::new(),
    }
}

fn literal_chars(v: &Primitive) -> (r: Vec<char>)
    requires
        value_wf(*v),
    ensures
        r@ == literal_text(*v),
{
    let text: Vec<char> = match v {
        Primitive::Nil => vec!['n', 'i', 'l'],
        Primitive::Boolean(true) => vec!['t', 'r', 'u', 'e'],
        Primitive::Boolean(false) => vec!['f', 'a', 'l', 's', 'e'],
        Primitive::String(s) => crate::text::chars_of(s.as_str()),
        Primitive::Number(n) => n.text(),
        Primitive::Comment(s) => crate::text::chars_of(s.as_str()),
    };
    assert(text@ =~= literal_text(*v));
    text
}

/// The views of some texts.
pub open spec fn texts_view(parts: Seq<Vec<char>>) -> Seq<Seq<char>> {
    parts.map_values(|v: Vec<char>| v@)
}

/// Prints expressions.
pub struct Printer {}

impl Printer {
    pub fn new() -> (r: Printer) {
        Printer {}
    }

    /// `(name part part ...)`.
    fn parenthesize(&mut self, name: &Vec<char>, parts: &Vec<Vec<char>>) -> (r: Vec<char>)
        ensures
            r@ == parens(name@, texts_view(parts@)) + seq![')'],
    {
        let mut out: Vec<char> = Vec::new();
        out.push('(');
        push_all(&mut out, name);
        let mut i: usize = 0;
        assert(texts_view(parts@).take(0) =~= Seq::<Seq<char>>::empty());
        assert(out@ =~= parens(name@, texts_view(parts@).take(0)));
        while i < parts.len()
            invariant
                i <= parts@.len(),
                out@ == parens(name@, texts_view(parts@).take(i as int)),
            decreases parts@.len() - i,
        {
            out.push(' ');
            push_all(&mut out, &parts[i]);
            assert(texts_view(parts@).take(i + 1).drop_last() =~= texts_view(parts@).take(i as int));
            i = i + 1;
        }
        assert(texts_view(parts@).take(i as int) =~= texts_view(parts@));
        out.push(')');
        out
    }

    /// `expr` in prefix form, as `expr_text` says.
    pub fn print(&mut self, expr: &AbstractExpr) -> (r: String)
        requires
            expr_wf(*expr),
        ensures
            r@ == expr_text(*expr),
    {
        let out = self.text_of(expr);
        crate::text::string_of(out.as_slice())
    }

    fn text_of(&mut self, e: &AbstractExpr) -> (r: Vec<char>)
        requires
            expr_wf(*e),
        ensures
            r@ == expr_text(*e),
        decreases e,
    {
        match e {
            AbstractExpr::Literal(l) => literal_chars(&l.value),
            AbstractExpr::Variable(v) => name_chars(&v.name),
            AbstractExpr::Grouping(g) => {
                let inner = self.text_of(&g.expression);
                let parts = vec![inner];
                assert(texts_view(parts@) =~= seq![expr_text(*g.expression)]);
                let name = vec!['g', 'r', 'o', 'u', 'p'];
                assert(name@ =~= seq!['g', 'r', 'o', 'u', 'p']);
                self.parenthesize(&name, &parts)
            },
            AbstractExpr::Assign(a) => {
                let value = self.text_of(&a.value);
                let parts = vec![name_chars(&a.name), value];
                assert(texts_view(parts@) =~= seq![name_of(*a.name), expr_text(*a.value)]);
                let name = vec!['='];
                assert(name@ =~= seq!['=']);
                self.parenthesize(&name, &parts)
            },
            AbstractExpr::Unary(u) => {
                let right = self.text_of(&u.right);
                let parts = vec![right];
                assert(texts_view(parts@) =~= seq![expr_text(*u.right)]);
                self.parenthesize(&name_chars(&u.operator), &parts)
            },
            AbstractExpr::Logical(l) => {
                let left = self.text_of(&l.left);
                let right = self.text_of(&l.right);
                let parts = vec![left, right];
                assert(texts_view(parts@) =~= seq![expr_text(*l.left), expr_text(*l.right)]);
                self.parenthesize(&name_chars(&l.operator), &parts)
            },
            AbstractExpr::Binary(b) => {
                let left = self.text_of(&b.left);
                let right = self.text_of(&b.right);
                let parts = vec![left, right];
                assert(texts_view(parts@) =~= seq![expr_text(*b.left), expr_text(*b.right)]);
                self.parenthesize(&name_chars(&b.operator), &parts)
            },
        }
    }
}

} // verus!
