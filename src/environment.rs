//! Variable storage: a stack of scopes.
use vstd::prelude::*;
use crate::token::{Primitive, Token};

verus! {

/// Why evaluation stopped.
#[derive(Debug, PartialEq)]
pub enum RuntimeError {
    /// No scope defines the variable `name`.
    UndefinedVariable { name: Token },
    /// The operands of `operator` are of types it does not take.
    OperandMismatch { operator: Token },
    /// A string operand of `operator` does not convert to a number.
    NotANumber { operator: Token },
    /// The exact result of `operator` cannot be represented.
    NumberOutOfRange { operator: Token },
    /// A number literal that is not well formed.
    MalformedNumber,
    /// A `while` condition that is not a Boolean.
    ConditionNotBoolean,
    /// The nesting of statements and loop iterations ran past the budget.
    StepLimit,
}

/// The bindings of all scopes, outermost first; within a scope, later
/// bindings shadow earlier ones of the same name.
pub type Bindings = Seq<(Seq<char>, Primitive)>;

/// The name a token stands for.
pub open spec fn name_of(t: Token) -> Seq<char> {
    t@.lexeme
}

/// The index of the innermost binding of `name`, or -1.
pub open spec fn find_last(b: Bindings, name: Seq<char>) -> int
    decreases b.len(),
{
    if b.len() == 0 {
        -1
    } else if b.last().0 == name {
        b.len() - 1
    } else {
        find_last(b.drop_last(), name)
    }
}

/// The value of the variable that `name` names.
pub open spec fn lookup(b: Bindings, name: Token) -> Result<Primitive, RuntimeError> {
    let i = find_last(b, name_of(name));
    if i < 0 {
        Err(RuntimeError::UndefinedVariable { name })
    } else {
        Ok(b[i].1)
    }
}

/// The bindings after storing `value` into the innermost binding of `name`.
pub open spec fn assigned(b: Bindings, name: Token, value: Primitive) -> Result<Bindings, RuntimeError> {
    let i = find_last(b, name_of(name));
    if i < 0 {
        Err(RuntimeError::UndefinedVariable { name })
    } else {
        Ok(b.update(i, (name_of(name), value)))
    }
}

proof fn lemma_find_last(b: Bindings, name: Seq<char>)
    ensures
        -1 <= find_last(b, name) < b.len(),
        find_last(b, name) >= 0 ==> b[find_last(b, name)].0 == name,
    decreases b.len(),
{
    if b.len() > 0 {
        lemma_find_last(b.drop_last(), name);
    }
}

/// Whether every number in `p` is well formed.
pub open spec fn value_wf(p: Primitive) -> bool {
    match p {
        Primitive::Number(n) => n.wf(),
        _ => true,
    }
}

/// Variables: the bindings of all scopes in one stack, and where each
/// scope opened after the outermost one begins.
pub struct Environment {
    values: Vec<(String, Primitive)>,
    frames: Vec<usize>,
}

impl Environment {
    /// The bindings, outermost first.
    pub closed spec fn bindings(&self) -> Bindings {
        self.values@.map_values(|p: (String, Primitive)| (p.0@, p.1))
    }

    /// Where each open scope begins.
    pub closed spec fn frames(&self) -> Seq<usize> {
        self.frames@
    }

    pub closed spec fn wf(&self) -> bool {
        &&& forall|i: int| 0 <= i < self.frames@.len() ==> self.frames@[i] <= self.values@.len()
        &&& forall|i: int, j: int| 0 <= i <= j < self.frames@.len() ==> self.frames@[i] <= self.frames@[j]
        &&& forall|i: int| 0 <= i < self.values@.len() ==> value_wf(#[trigger] self.values@[i].1)
    }

    /// An environment with the outermost scope only, empty.
    pub fn new() -> (r: Environment)
        ensures
            r.wf(),
            r.bindings() == Seq::<(Seq<char>, Primitive)>::empty(),
            r.frames() == Seq::<usize>::empty(),
    {
        let r = Environment { values: Vec::new(), frames: Vec::new() };
        assert(r.bindings() =~= Seq::empty());
        r
    }

    /// Opens a scope.
    pub fn push_new_stack(&mut self)
        requires
            old(self).wf(),
        ensures
            final(self).wf(),
            final(self).bindings() == old(self).bindings(),
            final(self).frames().len() == old(self).frames().len() + 1,
            final(self).frames().drop_last() == old(self).frames(),
            final(self).frames().last() == old(self).bindings().len(),
    {
        self.frames.push(self.values.len());
        assert(self.frames@.drop_last() =~= old(self).frames@);
    }

    /// Closes the innermost scope opened by `push_new_stack`, dropping its
    /// bindings; the outermost scope is never closed.
    pub fn pop_stack(&mut self)
        requires
            old(self).wf(),
        ensures
            final(self).wf(),
            old(self).frames().len() > 0 ==> {
                &&& final(self).bindings() == old(self).bindings().take(old(self).frames().last() as int)
                &&& final(self).frames() == old(self).frames().drop_last()
            },
            old(self).frames().len() == 0 ==> {
                &&& final(self).bindings() == old(self).bindings()
                &&& final(self).frames() == old(self).frames()
            },
    {
        match self.frames.pop() {
            Some(mark) => {
                assert(mark == old(self).frames@.last());
                self.values.truncate(mark);
                assert(self.bindings() =~= old(self).bindings().take(mark as int));
            },
            None => {},
        }
    }

    /// Binds `name` to `value` in the innermost scope, shadowing any other
    /// binding of it.
    pub fn define(&mut self, name: String, value: Primitive)
        requires
            old(self).wf(),
            value_wf(value),
        ensures
            final(self).wf(),
            final(self).bindings() == old(self).bindings().push((name@, value)),
            final(self).frames() == old(self).frames(),
    {
        self.values.push((name, value));
        assert(self.bindings() =~= old(self).bindings().push((name@, value)));
    }

    /// The index of the innermost binding of `name`, if any.
    fn position_of(&self, name: &String) -> (r: Option<usize>)
        ensures
            match r {
                Some(i) => i as int == find_last(self.bindings(), name@),
                None => find_last(self.bindings(), name@) == -1,
            },
    {
        let ghost b = self.bindings();
        let mut i = self.values.len();
        assert(b.take(i as int) =~= b);
        while i > 0
            invariant
                i <= self.values@.len(),
                b == self.bindings(),
                find_last(b, name@) == find_last(b.take(i as int), name@),
            decreases i,
        {
            assert(b.take(i as int).drop_last() =~= b.take(i - 1));
            if self.values[i - 1].0 == *name {
                return Some(i - 1);
            }
            i = i - 1;
        }
        None
    }

    /// The value of the variable `name`.
    pub fn get(&self, name: &Token) -> (r: Result<Primitive, RuntimeError>)
        requires
            self.wf(),
        ensures
            r == lookup(self.bindings(), *name),
            r matches Ok(v) ==> value_wf(v),
    {
        let key = lexeme_of(name);
        match self.position_of(&key) {
            Some(i) => {
                proof {
                    lemma_find_last(self.bindings(), key@);
                }
                assert(self.bindings()[i as int].1 == self.values@[i as int].1);
                Ok(self.values[i].1.copy())
            },
            None => Err(RuntimeError::UndefinedVariable { name: name.copy() }),
        }
    }

    /// Stores `value` into the innermost binding of `name`; assignment
    /// never creates a variable.
    pub fn assign(&mut self, name: &Token, value: Primitive) -> (r: Result<(), RuntimeError>)
        requires
            old(self).wf(),
            value_wf(value),
        ensures
            final(self).wf(),
            final(self).frames() == old(self).frames(),
            final(self).bindings().len() == old(self).bindings().len(),
            match assigned(old(self).bindings(), *name, value) {
                Ok(b) => r is Ok && final(self).bindings() == b,
                Err(e) => r == Err::<(), RuntimeError>(e) && final(self).bindings() == old(self).bindings(),
            },
    {
        let key = lexeme_of(name);
        match self.position_of(&key) {
            Some(i) => {
                proof {
                    lemma_find_last(old(self).bindings(), key@);
                }
                self.values.set(i, (key, value));
                assert(self.bindings() =~= old(self).bindings().update(i as int, (name_of(*name), value)));
                Ok(())
            },
            None => Err(RuntimeError::UndefinedVariable { name: name.copy() }),
        }
    }
}

/// The name a token stands for, as a string.
pub fn lexeme_of(t: &Token) -> (r: String)
    ensures
        r@ == name_of(*t),
{
    match &t.lexme {
        Some(s) => s.clone(),
        None => String::new(),
    }
}

} // verus!
