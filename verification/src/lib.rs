//! Sprite: a small, embeddable scripting language.
//!
//! A source text goes through the lexer (`lexer`), the recursive-descent
//! parser (`parser`, whose grammar is written out in `grammar`) and the
//! tree-walking interpreter (`interpreter`, whose meaning is written out in
//! `semantics`). Each stage is proved to compute exactly what its
//! mathematical counterpart says.
pub mod ast;
pub mod error;
pub mod grammar;
pub mod interpreter;
pub mod laws;
pub mod lexer;
pub mod number;
pub mod numtext;
pub mod parser;
pub mod semantics;
pub mod text;
pub mod value;

pub use error::{SpriteError, SpriteResult};
pub use value::Value;

use vstd::prelude::*;

use crate::error::ErrorV;
use crate::grammar::{program, same};
use crate::interpreter::{value_result, Interpreter};
use crate::lexer::{lex, Lexer};
use crate::semantics::{initial_heap, run_program, HeapV, ValueV};

verus! {

/// Running a source text on a heap at a call depth: a lexical error or a
/// parse error leaves the state as it was; otherwise the program runs.
pub open spec fn run_source(h: HeapV, d: nat, src: Seq<char>) -> (Result<ValueV, ErrorV>, HeapV, nat) {
    match lex(src) {
        Err(e) => (Err(e), h, d),
        Ok(toks) => match program(toks) {
            Err(e) => (Err(e), h, d),
            Ok(prog) => run_program(h, d, prog),
        },
    }
}

/// What `eval` gives for a source text: running it in a fresh interpreter.
pub open spec fn eval_source(src: Seq<char>) -> Result<ValueV, ErrorV> {
    run_source(initial_heap(), 0, src).0
}

/// Evaluates a source text in a fresh interpreter and returns the value of
/// its last statement (`nil` when that is not an expression), or the first
/// error. `eval("2 + 3 * 4")` gives the number 14. The lines `print` writes
/// during the run are dropped; `eval_with_output` returns them as well.
pub fn eval(source: &str) -> (r: SpriteResult<Value>)
    ensures
        value_result(r) == eval_source(source@),
        r matches Err(x) ==> x@ != ErrorV::Lex("invalid number literal"@),
{
    let mut lexer = Lexer::new(source);
    let tokens = lexer.tokenize()?;
    let ghost tv = crate::lexer::tokens_view(tokens@);
    proof {
        crate::laws::parsing_reports_only_parse_errors(tv);
    }
    let program = crate::parser::parse(tokens)?;
    proof {
        crate::laws::running_reports_only_runtime_errors(initial_heap(), 0, crate::ast::block_view(program@));
    }
    let mut interp = Interpreter::new();
    interp.eval_program(&program)
}

/// `eval`, together with the lines `print` wrote during the run, oldest first.
pub fn eval_with_output(source: &str) -> (r: (SpriteResult<Value>, Vec<String>))
    ensures
        value_result(r.0) == eval_source(source@),
        r.1@.len() == run_source(initial_heap(), 0, source@).1.out.len(),
        forall|i: int| 0 <= i < r.1@.len() ==> #[trigger] r.1@[i]@ == run_source(initial_heap(), 0, source@).1.out[i],
{
    let mut session = Session::new();
    let r = session.run(source);
    let lines = session.take_output();
    (r, lines)
}

/// A reusable interpreter session: every `run` shares the same global
/// scope, so variables and functions persist from one run to the next.
pub struct Session {
    interp: Interpreter,
}

impl Session {
    #[verifier::type_invariant]
    spec fn inv(self) -> bool {
        self.interp.wf()
    }

    /// The session's state as mathematics.
    pub closed spec fn heap(self) -> HeapV {
        self.interp.heap()
    }

    /// The session's call depth.
    pub closed spec fn depth(self) -> nat {
        self.interp.depth()
    }

    /// A session with an empty global scope.
    pub fn new() -> (r: Session)
        ensures
            r.heap() == initial_heap(),
            r.depth() == 0,
    {
        Session { interp: Interpreter::new() }
    }

    /// Runs a source text in the session: the value of its last statement,
    /// or the first error, with the session's state carried on.
    pub fn run(&mut self, source: &str) -> (r: SpriteResult<Value>)
        ensures
            same(run_source(old(self).heap(), old(self).depth(), source@), (value_result(r), final(self).heap(), final(self).depth())),
            r matches Err(x) ==> x@ != ErrorV::Lex("invalid number literal"@),
    {
        proof {
            use_type_invariant(&*self);
        }
        let mut lexer = Lexer::new(source);
        let tokens = lexer.tokenize()?;
        let ghost tv = crate::lexer::tokens_view(tokens@);
        proof {
            crate::laws::parsing_reports_only_parse_errors(tv);
        }
        let program = crate::parser::parse(tokens)?;
        proof {
            crate::laws::running_reports_only_runtime_errors(
                self.heap(),
                self.depth(),
                crate::ast::block_view(program@),
            );
        }
        let mut interp = Interpreter::new();
        std::mem::swap(&mut interp, &mut self.interp);
        let r = interp.eval_program(&program);
        self.interp = interp;
        r
    }

    /// The lines `print` wrote since the last call, oldest first.
    pub fn take_output(&mut self) -> (r: Vec<String>)
        ensures
            r@.len() == old(self).heap().out.len(),
            forall|i: int| 0 <= i < r@.len() ==> #[trigger] r@[i]@ == old(self).heap().out[i],
            final(self).heap() == (HeapV { out: Seq::empty(), ..old(self).heap() }),
            final(self).depth() == old(self).depth(),
    {
        proof {
            use_type_invariant(&*self);
        }
        let mut interp = Interpreter::new();
        std::mem::swap(&mut interp, &mut self.interp);
        let r = interp.take_output();
        self.interp = interp;
        r
    }
}

impl Default for Session {
    fn default() -> (r: Session)
        ensures
            r.heap() == initial_heap(),
            r.depth() == 0,
    {
        Session::new()
    }
}

} // verus!
