//! The tree-walking evaluator.
use vstd::prelude::*;
use crate::ast::{AbstractExpr, AbstractStmt, StmtView, lemma_stmts_view, stmts_view};
use crate::environment::{
    Bindings, Environment, RuntimeError, assigned, lexeme_of, lookup, name_of, value_wf,
};
use crate::number::{
    Num, num_text, parse_value, spec_add, spec_div, spec_eq, spec_lt, spec_mul, spec_neg, spec_sub,
};
use crate::text::{chars_of, string_of};
use crate::token::{Primitive, Token, TokenType};

verus! {

/// `Nil` and `false` are false; every other value is true.
pub open spec fn truthy(v: Primitive) -> bool {
    match v {
        Primitive::Nil => false,
        Primitive::Boolean(b) => b,
        _ => true,
    }
}

/// An operand of `+` or `-` as a number: a number, or a string that
/// converts to one.
pub open spec fn as_number(v: Primitive, operator: Token) -> Result<Num, RuntimeError> {
    match v {
        Primitive::Number(n) => Ok(n),
        Primitive::String(s) => match parse_value(s@) {
            Some(n) => Ok(n),
            None => Err(RuntimeError::NotANumber { operator }),
        },
        _ => Err(RuntimeError::OperandMismatch { operator }),
    }
}

/// A numeric result, or the error for one that cannot be represented.
pub open spec fn numeric(r: Option<Num>, operator: Token) -> Result<Primitive, RuntimeError> {
    match r {
        Some(n) => Ok(Primitive::Number(n)),
        None => Err(RuntimeError::NumberOutOfRange { operator }),
    }
}

/// Structural equality of two values; numbers compare numerically.
pub open spec fn values_equal(a: Primitive, b: Primitive) -> bool {
    match (a, b) {
        (Primitive::Nil, Primitive::Nil) => true,
        (Primitive::Boolean(x), Primitive::Boolean(y)) => x == y,
        (Primitive::String(x), Primitive::String(y)) => x@ == y@,
        (Primitive::Comment(x), Primitive::Comment(y)) => x@ == y@,
        (Primitive::Number(x), Primitive::Number(y)) => spec_eq(x, y),
        _ => false,
    }
}

/// `operator` applied to the values of its operands.
pub open spec fn binary_op(operator: Token, l: Primitive, r: Primitive) -> Result<Primitive, RuntimeError> {
    let k = operator.token_type;
    if k == TokenType::Plus || k == TokenType::Minus {
        match as_number(l, operator) {
            Err(e) => Err(e),
            Ok(x) => match as_number(r, operator) {
                Err(e) => Err(e),
                Ok(y) => numeric(if k == TokenType::Plus { spec_add(x, y) } else { spec_sub(x, y) }, operator),
            },
        }
    } else if k == TokenType::Star || k == TokenType::Slash || k == TokenType::Greater
        || k == TokenType::GreaterEqual || k == TokenType::Less || k == TokenType::LessEqual {
        match (l, r) {
            (Primitive::Number(x), Primitive::Number(y)) => if k == TokenType::Star {
                numeric(spec_mul(x, y), operator)
            } else if k == TokenType::Slash {
                numeric(spec_div(x, y), operator)
            } else if k == TokenType::Greater {
                Ok(Primitive::Boolean(spec_lt(y, x)))
            } else if k == TokenType::GreaterEqual {
                Ok(Primitive::Boolean(spec_lt(y, x) || spec_eq(x, y)))
            } else if k == TokenType::Less {
                Ok(Primitive::Boolean(spec_lt(x, y)))
            } else {
                Ok(Primitive::Boolean(spec_lt(x, y) || spec_eq(x, y)))
            },
            _ => Err(RuntimeError::OperandMismatch { operator }),
        }
    } else if k == TokenType::EqualEqual || k == TokenType::BangEqual {
        let same = match (l, r) {
            (Primitive::Number(x), Primitive::Number(y)) => Ok(spec_eq(x, y)),
            (Primitive::Number(_), _) => Err(RuntimeError::OperandMismatch { operator }),
            _ => Ok(values_equal(l, r)),
        };
        match same {
            Ok(b) => Ok(Primitive::Boolean(if k == TokenType::EqualEqual { b } else { !b })),
            Err(e) => Err(e),
        }
    } else {
        Ok(Primitive::Nil)
    }
}

/// `operator` applied to the value of its operand.
pub open spec fn unary_op(operator: Token, v: Primitive) -> Result<Primitive, RuntimeError> {
    if operator.token_type == TokenType::Minus {
        match v {
            Primitive::Number(n) => Ok(Primitive::Number(spec_neg(n))),
            _ => Err(RuntimeError::OperandMismatch { operator }),
        }
    } else if operator.token_type == TokenType::Bang {
        Ok(Primitive::Boolean(!truthy(v)))
    } else {
        Ok(Primitive::Nil)
    }
}

/// The value of `e` and the bindings after it, starting from `b`.
pub open spec fn eval(e: AbstractExpr, b: Bindings) -> (Result<Primitive, RuntimeError>, Bindings)
    decreases e,
{
    match e {
        AbstractExpr::Literal(l) => if value_wf(*l.value) {
            (Ok(*l.value), b)
        } else {
            (Err(RuntimeError::MalformedNumber), b)
        },
        AbstractExpr::Grouping(g) => eval(*g.expression, b),
        AbstractExpr::Variable(v) => (lookup(b, *v.name), b),
        AbstractExpr::Assign(a) => {
            let (r, b1) = eval(*a.value, b);
            match r {
                Err(e) => (Err(e), b1),
                Ok(v) => match assigned(b1, *a.name, v) {
                    Ok(b2) => (Ok(v), b2),
                    Err(e) => (Err(e), b1),
                },
            }
        },
        AbstractExpr::Logical(l) => {
            let (r, b1) = eval(*l.left, b);
            match r {
                Err(e) => (Err(e), b1),
                Ok(x) => if (l.operator.token_type == TokenType::Or) == truthy(x) {
                    (Ok(x), b1)
                } else {
                    eval(*l.right, b1)
                },
            }
        },
        AbstractExpr::Unary(u) => {
            let (r, b1) = eval(*u.right, b);
            match r {
                Err(e) => (Err(e), b1),
                Ok(v) => (unary_op(*u.operator, v), b1),
            }
        },
        AbstractExpr::Binary(bn) => {
            let (r1, b1) = eval(*bn.left, b);
            match r1 {
                Err(e) => (Err(e), b1),
                Ok(x) => {
                    let (r2, b2) = eval(*bn.right, b1);
                    match r2 {
                        Err(e) => (Err(e), b2),
                        Ok(y) => (binary_op(*bn.operator, x, y), b2),
                    }
                },
            }
        },
    }
}

/// How `print` writes a value.
pub open spec fn display(v: Primitive) -> Seq<char> {
    match v {
        Primitive::Nil => seq!['n', 'u', 'l', 'l'],
        Primitive::Boolean(true) => seq!['t', 'r', 'u', 'e'],
        Primitive::Boolean(false) => seq!['f', 'a', 'l', 's', 'e'],
        Primitive::String(s) => s@,
        Primitive::Number(n) => num_text(n),
        Primitive::Comment(_) => Seq::empty(),
    }
}

/// The state a program runs in: its variables and the lines printed.
pub struct State {
    pub bindings: Bindings,
    pub output: Seq<Seq<char>>,
}

/// The result of running `s` from `st`, with at most `fuel` levels of
/// nesting and loop iterations along the way.
pub open spec fn exec_stmt(s: StmtView, st: State, fuel: nat) -> (Result<(), RuntimeError>, State)
    decreases fuel, 0nat,
{
    if fuel == 0 {
        (Err(RuntimeError::StepLimit), st)
    } else {
        let f = (fuel - 1) as nat;
        match s {
            StmtView::Expression(e) => {
                let (r, b) = eval(e, st.bindings);
                let st1 = State { bindings: b, output: st.output };
                match r {
                    Ok(_) => (Ok(()), st1),
                    Err(e) => (Err(e), st1),
                }
            },
            StmtView::Print(e) => {
                let (r, b) = eval(e, st.bindings);
                match r {
                    Ok(v) => (Ok(()), State { bindings: b, output: st.output.push(display(v)) }),
                    Err(e) => (Err(e), State { bindings: b, output: st.output }),
                }
            },
            StmtView::Var { name, initializer } => match initializer {
                None => (
                    Ok(()),
                    State { bindings: st.bindings.push((name_of(name), Primitive::Nil)), output: st.output },
                ),
                Some(e) => {
                    let (r, b) = eval(e, st.bindings);
                    match r {
                        Ok(v) => (Ok(()), State { bindings: b.push((name_of(name), v)), output: st.output }),
                        Err(e) => (Err(e), State { bindings: b, output: st.output }),
                    }
                },
            },
            StmtView::Block(ss) => {
                let (r, st1) = exec_list(ss, st, f);
                (r, State { bindings: st1.bindings.take(st.bindings.len() as int), output: st1.output })
            },
            StmtView::If { condition, then_branch, else_branch } => {
                let (r, b) = eval(condition, st.bindings);
                let st1 = State { bindings: b, output: st.output };
                match r {
                    Err(e) => (Err(e), st1),
                    Ok(v) => if truthy(v) {
                        exec_stmt(*then_branch, st1, f)
                    } else {
                        match else_branch {
                            Some(e) => exec_stmt(*e, st1, f),
                            None => (Ok(()), st1),
                        }
                    },
                }
            },
            StmtView::While { condition, body } => {
                let (r, b) = eval(condition, st.bindings);
                let st1 = State { bindings: b, output: st.output };
                match r {
                    Err(e) => (Err(e), st1),
                    Ok(Primitive::Boolean(true)) => {
                        let (r2, st2) = exec_stmt(*body, st1, f);
                        match r2 {
                            Err(e) => (Err(e), st2),
                            Ok(()) => exec_stmt(s, st2, f),
                        }
                    },
                    Ok(Primitive::Boolean(false)) => (Ok(()), st1),
                    Ok(_) => (Err(RuntimeError::ConditionNotBoolean), st1),
                }
            },
        }
    }
}

/// The result of running `ss` in order from `st`, stopping at the first
/// error; each statement has the budget `fuel`.
pub open spec fn exec_list(ss: Seq<StmtView>, st: State, fuel: nat) -> (Result<(), RuntimeError>, State)
    decreases fuel, ss.len(),
{
    if ss.len() == 0 {
        (Ok(()), st)
    } else {
        let (r, st1) = exec_stmt(ss[0], st, fuel);
        match r {
            Err(e) => (Err(e), st1),
            Ok(()) => exec_list(ss.drop_first(), st1, fuel),
        }
    }
}

/// The budget of nesting and loop iterations that each top-level
/// statement runs with.
pub const FUEL: u64 = 0xffff_ffff_ffff_ffff;


/// How `print` writes `p`, as `display` says.
pub fn stringify(p: &Primitive) -> (r: String)
    requires
        value_wf(*p),
    ensures
        r@ == display(*p),
{
    match p {
        Primitive::Nil => string_of(&['n', 'u', 'l', 'l']),
        Primitive::Boolean(true) => string_of(&['t', 'r', 'u', 'e']),
        Primitive::Boolean(false) => string_of(&['f', 'a', 'l', 's', 'e']),
        Primitive::String(s) => s.clone(),
        Primitive::Number(n) => {
            let t = n.text();
            string_of(t.as_slice())
        },
        Primitive::Comment(_) => String::new(),
    }
}

/// Whether `v` counts as true, as `truthy` says.
pub fn is_truthy(v: &Primitive) -> (r: bool)
    ensures
        r == truthy(*v),
{
    match v {
        Primitive::Nil => false,
        Primitive::Boolean(b) => *b,
        _ => true,
    }
}

/// An operand of `+` or `-` as a number, as `as_number` says.
fn to_number(v: &Primitive, operator: &Token) -> (r: Result<Num, RuntimeError>)
    requires
        value_wf(*v),
    ensures
        r == as_number(*v, *operator),
        r matches Ok(n) ==> n.wf(),
{
    match v {
        Primitive::Number(n) => Ok(*n),
        Primitive::String(s) => match Num::parse(&chars_of(s.as_str())) {
            Some(n) => Ok(n),
            None => Err(RuntimeError::NotANumber { operator: operator.copy() }),
        },
        _ => Err(RuntimeError::OperandMismatch { operator: operator.copy() }),
    }
}

fn numeric_of(r: Option<Num>, operator: &Token) -> (res: Result<Primitive, RuntimeError>)
    requires
        r matches Some(n) ==> n.wf(),
    ensures
        res == numeric(r, *operator),
        res matches Ok(v) ==> value_wf(v),
{
    match r {
        Some(n) => Ok(Primitive::Number(n)),
        None => Err(RuntimeError::NumberOutOfRange { operator: operator.copy() }),
    }
}

/// Structural equality of two values, as `values_equal` says.
pub fn equal_values(a: &Primitive, b: &Primitive) -> (r: bool)
    requires
        value_wf(*a),
        value_wf(*b),
    ensures
        r == values_equal(*a, *b),
{
    match (a, b) {
        (Primitive::Nil, Primitive::Nil) => true,
        (Primitive::Boolean(x), Primitive::Boolean(y)) => *x == *y,
        (Primitive::String(x), Primitive::String(y)) => *x == *y,
        (Primitive::Comment(x), Primitive::Comment(y)) => *x == *y,
        (Primitive::Number(x), Primitive::Number(y)) => x.num_eq(y),
        _ => false,
    }
}

/// `operator` applied to `l` and `r`, as `binary_op` says.
pub fn binary(operator: &Token, l: &Primitive, r: &Primitive) -> (res: Result<Primitive, RuntimeError>)
    requires
        value_wf(*l),
        value_wf(*r),
    ensures
        res == binary_op(*operator, *l, *r),
        res matches Ok(v) ==> value_wf(v),
{
    let k = operator.token_type;
    if k == TokenType::Plus || k == TokenType::Minus {
        let x = match to_number(l, operator) {
            Ok(x) => x,
            Err(e) => return Err(e),
        };
        let y = match to_number(r, operator) {
            Ok(y) => y,
            Err(e) => return Err(e),
        };
        if k == TokenType::Plus {
            numeric_of(x.add(&y), operator)
        } else {
            numeric_of(x.sub(&y), operator)
        }
    } else if k == TokenType::Star || k == TokenType::Slash || k == TokenType::Greater
        || k == TokenType::GreaterEqual || k == TokenType::Less || k == TokenType::LessEqual {
        match (l, r) {
            (Primitive::Number(x), Primitive::Number(y)) => if k == TokenType::Star {
                numeric_of(x.mul(y), operator)
            } else if k == TokenType::Slash {
                numeric_of(x.div(y), operator)
            } else if k == TokenType::Greater {
                Ok(Primitive::Boolean(y.num_lt(x)))
            } else if k == TokenType::GreaterEqual {
                Ok(Primitive::Boolean(y.num_lt(x) || x.num_eq(y)))
            } else if k == TokenType::Less {
                Ok(Primitive::Boolean(x.num_lt(y)))
            } else {
                Ok(Primitive::Boolean(x.num_lt(y) || x.num_eq(y)))
            },
            _ => Err(RuntimeError::OperandMismatch { operator: operator.copy() }),
        }
    } else if k == TokenType::EqualEqual || k == TokenType::BangEqual {
        let same = match (l, r) {
            (Primitive::Number(x), Primitive::Number(y)) => x.num_eq(y),
            (Primitive::Number(_), _) => {
                return Err(RuntimeError::OperandMismatch { operator: operator.copy() });
            },
            _ => equal_values(l, r),
        };
        Ok(Primitive::Boolean(if k == TokenType::EqualEqual { same } else { !same }))
    } else {
        Ok(Primitive::Nil)
    }
}

/// `operator` applied to `v`, as `unary_op` says.
pub fn unary(operator: &Token, v: &Primitive) -> (res: Result<Primitive, RuntimeError>)
    requires
        value_wf(*v),
    ensures
        res == unary_op(*operator, *v),
        res matches Ok(x) ==> value_wf(x),
{
    if operator.token_type == TokenType::Minus {
        match v {
            Primitive::Number(n) => Ok(Primitive::Number(n.neg())),
            _ => Err(RuntimeError::OperandMismatch { operator: operator.copy() }),
        }
    } else if operator.token_type == TokenType::Bang {
        Ok(Primitive::Boolean(!is_truthy(v)))
    } else {
        Ok(Primitive::Nil)
    }
}

/// The evaluator: the variables and the lines printed so far.
pub struct Interpreter {
    environment: Environment,
    output: Vec<String>,
}

impl Interpreter {
    /// The state the program runs in.
    pub closed spec fn state(&self) -> State {
        State {
            bindings: self.environment.bindings(),
            output: self.output@.map_values(|s: String| s@),
        }
    }

    /// The scopes opened by blocks that are running.
    pub closed spec fn frames(&self) -> Seq<usize> {
        self.environment.frames()
    }

    pub closed spec fn wf(&self) -> bool {
        self.environment.wf()
    }

    /// An interpreter with no variables that has printed nothing.
    pub fn new() -> (r: Interpreter)
        ensures
            r.wf(),
            r.state() == (State { bindings: Seq::empty(), output: Seq::empty() }),
            r.frames() == Seq::<usize>::empty(),
    {
        let r = Interpreter { environment: Environment::new(), output: Vec::new() };
        assert(r.state().output =~= Seq::empty());
        r
    }

    /// The lines printed so far.
    pub fn output(&self) -> (r: &Vec<String>)
        ensures
            r@.map_values(|s: String| s@) == self.state().output,
    {
        &self.output
    }

    /// Whether `p` counts as true.
    pub fn is_truthy(&self, p: &Primitive) -> (r: bool)
        ensures
            r == truthy(*p),
    {
        is_truthy(p)
    }

    /// The value of `e`, as `eval` says.
    pub fn evaluate(&mut self, e: &AbstractExpr) -> (r: Result<Primitive, RuntimeError>)
        requires
            old(self).wf(),
        ensures
            final(self).wf(),
            (r, final(self).state().bindings) == eval(*e, old(self).state().bindings),
            final(self).state().output == old(self).state().output,
            final(self).state().bindings.len() == old(self).state().bindings.len(),
            final(self).frames() == old(self).frames(),
            r matches Ok(v) ==> value_wf(v),
        decreases e,
    {
        match e {
            AbstractExpr::Literal(l) => {
                let v = l.value.copy();
                match &v {
                    Primitive::Number(n) => if !n.is_wf() {
                        return Err(RuntimeError::MalformedNumber);
                    },
                    _ => {},
                }
                Ok(v)
            },
            AbstractExpr::Grouping(g) => self.evaluate(&g.expression),
            AbstractExpr::Variable(v) => self.environment.get(&v.name),
            AbstractExpr::Assign(a) => {
                let v = match self.evaluate(&a.value) {
                    Ok(v) => v,
                    Err(e) => return Err(e),
                };
                match self.environment.assign(&a.name, v.copy()) {
                    Ok(()) => Ok(v),
                    Err(e) => Err(e),
                }
            },
            AbstractExpr::Logical(l) => {
                let x = match self.evaluate(&l.left) {
                    Ok(x) => x,
                    Err(e) => return Err(e),
                };
                if (l.operator.token_type == TokenType::Or) == is_truthy(&x) {
                    Ok(x)
                } else {
                    self.evaluate(&l.right)
                }
            },
            AbstractExpr::Unary(u) => {
                let v = match self.evaluate(&u.right) {
                    Ok(v) => v,
                    Err(e) => return Err(e),
                };
                unary(&u.operator, &v)
            },
            AbstractExpr::Binary(b) => {
                let x = match self.evaluate(&b.left) {
                    Ok(x) => x,
                    Err(e) => return Err(e),
                };
                let y = match self.evaluate(&b.right) {
                    Ok(y) => y,
                    Err(e) => return Err(e),
                };
                binary(&b.operator, &x, &y)
            },
        }
    }

    /// Runs `stmt` with the budget `fuel`, as `exec_stmt` says.
    pub fn execute(&mut self, stmt: &AbstractStmt, fuel: u64) -> (r: Result<(), RuntimeError>)
        requires
            old(self).wf(),
        ensures
            final(self).wf(),
            (r, final(self).state()) == exec_stmt(stmt@, old(self).state(), fuel as nat),
            final(self).state().bindings.len() >= old(self).state().bindings.len(),
            final(self).frames() == old(self).frames(),
        decreases fuel, 0nat,
    {
        if fuel == 0 {
            return Err(RuntimeError::StepLimit);
        }
        match stmt {
            AbstractStmt::Statement(x) => {
                match self.evaluate(&x.expression) {
                    Ok(_) => Ok(()),
                    Err(e) => Err(e),
                }
            },
            AbstractStmt::Print(x) => {
                let v = match self.evaluate(&x.expression) {
                    Ok(v) => v,
                    Err(e) => return Err(e),
                };
                let ghost before = self.output@;
                self.output.push(stringify(&v));
                assert(self.output@.map_values(|s: String| s@) =~= before.map_values(|s: String| s@).push(display(v)));
                Ok(())
            },
            AbstractStmt::Var(x) => {
                let v = match &x.initializer {
                    Some(e) => match self.evaluate(e) {
                        Ok(v) => v,
                        Err(e) => return Err(e),
                    },
                    None => Primitive::Nil,
                };
                self.environment.define(lexeme_of(&x.name), v);
                Ok(())
            },
            AbstractStmt::Block(b) => self.execute_block(&b.stmts, fuel - 1),
            AbstractStmt::If(x) => {
                let v = match self.evaluate(&x.condition) {
                    Ok(v) => v,
                    Err(e) => return Err(e),
                };
                if is_truthy(&v) {
                    self.execute(&x.then_branch, fuel - 1)
                } else {
                    match &x.else_branch {
                        Some(e) => self.execute(e, fuel - 1),
                        None => Ok(()),
                    }
                }
            },
            AbstractStmt::While(w) => {
                let ghost sv = stmt@;
                let ghost st0 = self.state();
                let mut f = fuel;
                loop
                    invariant
                        self.wf(),
                        sv == stmt@,
                        sv matches StmtView::While { condition, body } && condition == *w.condition && *body == w.body@,
                        f <= fuel,
                        st0 == old(self).state(),
                        exec_stmt(sv, st0, fuel as nat) == exec_stmt(sv, self.state(), f as nat),
                        self.state().bindings.len() >= st0.bindings.len(),
                        self.frames() == old(self).frames(),
                    decreases f,
                {
                    if f == 0 {
                        return Err(RuntimeError::StepLimit);
                    }
                    let v = match self.evaluate(&w.condition) {
                        Ok(v) => v,
                        Err(e) => return Err(e),
                    };
                    match v {
                        Primitive::Boolean(true) => {
                            match self.execute(&w.body, f - 1) {
                                Ok(()) => {},
                                Err(e) => return Err(e),
                            }
                            f = f - 1;
                        },
                        Primitive::Boolean(false) => {
                            return Ok(());
                        },
                        _ => {
                            return Err(RuntimeError::ConditionNotBoolean);
                        },
                    }
                }
            },
        }
    }

    /// Runs `stmts` in a scope of their own with the budget `fuel`: the
    /// scope's bindings are dropped afterwards, also after an error.
    pub fn execute_block(&mut self, stmts: &Vec<Box<AbstractStmt>>, fuel: u64) -> (r: Result<(), RuntimeError>)
        requires
            old(self).wf(),
        ensures
            final(self).wf(),
            ({
                let (r0, st1) = exec_list(stmts_view(stmts@), old(self).state(), fuel as nat);
                &&& r == r0
                &&& final(self).state() == (State {
                    bindings: st1.bindings.take(old(self).state().bindings.len() as int),
                    output: st1.output,
                })
            }),
            final(self).state().bindings.len() >= old(self).state().bindings.len(),
            final(self).frames() == old(self).frames(),
        decreases fuel, 2nat,
    {
        self.environment.push_new_stack();
        assert(self.state() =~= old(self).state());
        let r = self.execute_list(stmts, fuel);
        self.environment.pop_stack();
        proof {
            let (r0, st1) = exec_list(stmts_view(stmts@), old(self).state(), fuel as nat);
            assert(self.state() =~= (State {
                bindings: st1.bindings.take(old(self).state().bindings.len() as int),
                output: st1.output,
            }));
        }
        r
    }

    /// Runs `stmts` in order in the current scope, stopping at the first
    /// error, as `exec_list` says.
    fn execute_list(&mut self, stmts: &Vec<Box<AbstractStmt>>, fuel: u64) -> (r: Result<(), RuntimeError>)
        requires
            old(self).wf(),
        ensures
            final(self).wf(),
            (r, final(self).state()) == exec_list(stmts_view(stmts@), old(self).state(), fuel as nat),
            final(self).state().bindings.len() >= old(self).state().bindings.len(),
            final(self).frames() == old(self).frames(),
        decreases fuel, 1nat,
    {
        let ghost ss = stmts_view(stmts@);
        proof {
            lemma_stmts_view(stmts@);
        }
        let mut i: usize = 0;
        assert(ss.skip(0) =~= ss);
        while i < stmts.len()
            invariant
                self.wf(),
                i <= stmts@.len() == ss.len(),
                ss == stmts_view(stmts@),
                forall|j: int| 0 <= j < stmts@.len() ==> #[trigger] ss[j] == stmts@[j]@,
                exec_list(ss, old(self).state(), fuel as nat) == exec_list(ss.skip(i as int), self.state(), fuel as nat),
                self.state().bindings.len() >= old(self).state().bindings.len(),
                self.frames() == old(self).frames(),
            decreases stmts@.len() - i,
        {
            assert(ss.skip(i as int)[0] == ss[i as int]);
            assert(ss.skip(i as int).drop_first() =~= ss.skip(i + 1));
            match self.execute(&stmts[i], fuel) {
                Ok(()) => {},
                Err(e) => return Err(e),
            }
            i = i + 1;
        }
        Ok(())
    }

    /// Runs a program: each statement in order with the budget `FUEL`,
    /// stopping at the first error.
    pub fn interpret(&mut self, statements: &Vec<AbstractStmt>) -> (r: Result<(), RuntimeError>)
        requires
            old(self).wf(),
        ensures
            final(self).wf(),
            (r, final(self).state()) == exec_list(
                statements@.map_values(|s: AbstractStmt| s@),
                old(self).state(),
                FUEL as nat,
            ),
    {
        let ghost ss = statements@.map_values(|s: AbstractStmt| s@);
        let mut i: usize = 0;
        assert(ss.skip(0) =~= ss);
        while i < statements.len()
            invariant
                self.wf(),
                i <= statements@.len() == ss.len(),
                ss == statements@.map_values(|s: AbstractStmt| s@),
                exec_list(ss, old(self).state(), FUEL as nat) == exec_list(ss.skip(i as int), self.state(), FUEL as nat),
            decreases statements@.len() - i,
        {
            assert(ss.skip(i as int)[0] == ss[i as int]);
            assert(ss.skip(i as int).drop_first() =~= ss.skip(i + 1));
            match self.execute(&statements[i], FUEL) {
                Ok(()) => {},
                Err(e) => return Err(e),
            }
            i = i + 1;
        }
        Ok(())
    }
}

} // verus!
