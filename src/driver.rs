//! The whole pipeline: source text to printed lines.
use vstd::prelude::*;
use crate::environment::RuntimeError;
use crate::interpreter::{FUEL, Interpreter, State, exec_list};
use crate::parser::{ParseError, Parser, spec_program};
use crate::scanner::{ScanError, TokenScanner, lemma_scan_shape, scan};
use crate::token::{Token, tokens_view};

verus! {

/// The first error of a run, by the stage that found it.
#[derive(Debug, PartialEq)]
pub enum LoxError {
    Scan(ScanError),
    Parse(ParseError),
    Runtime(RuntimeError),
}

/// The lines that running `prog` prints, and how the run ends.
pub open spec fn run_program(prog: Seq<crate::ast::StmtView>) -> (Result<(), RuntimeError>, Seq<Seq<char>>) {
    let (r, st) = exec_list(prog, State { bindings: Seq::empty(), output: Seq::empty() }, FUEL as nat);
    (r, st.output)
}

/// Scans, parses and runs `source`. Returns the lines printed, in order,
/// and the first error; nothing runs unless scanning and parsing succeed.
pub fn run(source: &str) -> (r: (Vec<String>, Result<(), LoxError>))
    requires
        source@.len() < usize::MAX - 1,
    ensures
        match scan(source@) {
            Err(e) => r.1 == Err::<(), LoxError>(LoxError::Scan(e)) && r.0@.len() == 0,
            Ok(tv) => exists|ts: Seq<Token>| {
                &&& tokens_view(ts) == tv
                &&& match spec_program(ts, 0) {
                    Err(e) => r.1 == Err::<(), LoxError>(LoxError::Parse(e)) && r.0@.len() == 0,
                    Ok(prog) => {
                        let (res, out) = run_program(prog);
                        &&& r.0@.map_values(|s: String| s@) == out
                        &&& match res {
                            Ok(()) => r.1 is Ok,
                            Err(e) => r.1 == Err::<(), LoxError>(LoxError::Runtime(e)),
                        }
                    },
                }
            },
        },
{
    let mut scanner = TokenScanner::new(source);
    let tokens = match scanner.scan_tokens() {
        Ok(ts) => ts,
        Err(e) => return (Vec::new(), Err(LoxError::Scan(e))),
    };
    proof {
        lemma_scan_shape(source@, 0, 1);
        assert(tokens_view(tokens@).len() == tokens@.len());
        assert(tokens_view(tokens@).last() == tokens@.last()@);
    }
    let mut parser = Parser::new(tokens);
    let statements = match parser.parse() {
        Ok(s) => s,
        Err(e) => return (Vec::new(), Err(LoxError::Parse(e))),
    };
    let mut interpreter = Interpreter::new();
    let r = interpreter.interpret(&statements);
    let mut out: Vec<String> = Vec::new();
    let lines = interpreter.output();
    let mut i: usize = 0;
    while i < lines.len()
        invariant
            i <= lines@.len(),
            out@ == lines@.take(i as int),
        decreases lines@.len() - i,
    {
        out.push(lines[i].clone());
        assert(out@ =~= lines@.take(i + 1));
        i = i + 1;
    }
    assert(lines@.take(i as int) =~= lines@);
    match r {
        Ok(()) => (out, Ok(())),
        Err(e) => (out, Err(LoxError::Runtime(e))),
    }
}

} // verus!
