//! The tree-walking interpreter.
//!
//! Scopes live in one table and refer to their parent by index; a function
//! value refers to its definition by index in the table of functions, and a
//! definition refers to the scope it was declared in. The interpreter's view
//! is the heap of `semantics`, and every evaluation method is proved to give
//! exactly what the matching function of `semantics` gives.
use std::rc::Rc;
use vstd::prelude::*;

use crate::ast::{
    block_view, expr_view, exprs_view, lemma_block_view_index, lemma_exprs_view_index, stmt_view, strings_view, BinOp,
    Block, Expr, ExprV, LogicOp, Stmt, StmtV, UnaryOp,
};
use crate::number::{
    add_numbers, div_numbers, mul_numbers, negate, order_numbers, rem_numbers, sub_numbers, zero_test, Order,
};
use crate::error::{ErrorV, SpriteError, SpriteResult};
use crate::grammar::same;
use crate::semantics;
use crate::semantics::{
    args_size, assign_var, binary_value, block_size, comparison_value, declares, define_var,
    expr_size, initial_heap, joined_text, lemma_arg_smaller, lemma_stmt_smaller, lookup, op_text,
    order_holds, push_scope, room, run_program, stmt_size, type_error, valid_value, value_text, with_function, with_line, HeapV, SignalV, ValueV,
    LOOP_LIMIT, MAX_CALL_DEPTH,
};
use crate::text::{append_str, lit, push_decimal};
use crate::value::{
    compare_text, fun_view, last_index, lemma_last_index, lemma_vars_update, scope_view, vars_map, FunctionDef, Scope, Value,
};

verus! {

/// `std::rc::Rc::clone`: the contract claims that the new pointer refers
/// to the same block, so it has the same contents.
#[verifier::external_body]
fn rc_clone(r: &Rc<Block>) -> (c: Rc<Block>)
    ensures
        c == *r,
{
    Rc::clone(r)
}

/// The text of an operator, as error messages show it.
fn op_symbol(op: BinOp) -> (r: String)
    ensures
        r@ == op_text(op),
{
    match op {
        BinOp::Add => lit("+"),
        BinOp::Sub => lit("-"),
        BinOp::Mul => lit("*"),
        BinOp::Div => lit("/"),
        BinOp::Mod => lit("%"),
        BinOp::Eq => lit("=="),
        BinOp::NotEq => lit("!="),
        BinOp::Lt => lit("<"),
        BinOp::Gt => lit(">"),
        BinOp::LtEq => lit("<="),
        BinOp::GtEq => lit(">="),
    }
}

/// The error for an operator applied to operands of the wrong types.
pub fn type_err(op: BinOp, l: &Value, r: &Value) -> (e: SpriteError)
    ensures
        e@ == type_error(op, l@, r@),
{
    let mut m = lit("type error: cannot apply '");
    let o = op_symbol(op);
    append_str(&mut m, o.as_str());
    append_str(&mut m, "' to ");
    let kl = l.kind();
    append_str(&mut m, kl.as_str());
    append_str(&mut m, " and ");
    let kr = r.kind();
    append_str(&mut m, kr.as_str());
    SpriteError::Runtime(m)
}

/// Whether an ordering satisfies a comparison operator.
fn holds(op: BinOp, o: Order) -> (r: bool)
    ensures
        r == order_holds(op, o),
{
    match op {
        BinOp::Lt => o == Order::Less,
        BinOp::Gt => o == Order::Greater,
        BinOp::LtEq => o != Order::Greater,
        _ => o != Order::Less,
    }
}

/// A comparison (`<`, `>`, `<=`, `>=`) of two values.
pub fn compare(op: BinOp, l: &Value, r: &Value) -> (res: SpriteResult<Value>)
    ensures
        value_result(res) == comparison_value(op, l@, r@),
        res matches Ok(v) ==> v@ is Bool,
{
    match (l, r) {
        (Value::Number(a), Value::Number(b)) => match order_numbers(*a, *b) {
            Some(o) => Ok(Value::Bool(holds(op, o))),
            None => Err(SpriteError::Runtime(lit("cannot compare NaN"))),
        },
        (Value::Str(a), Value::Str(b)) => {
            let o = compare_text(a, b);
            Ok(Value::Bool(holds(op, o)))
        },
        _ => Err(type_err(op, l, r)),
    }
}

/// Subtraction or multiplication of two numbers.
fn numeric(op: BinOp, l: &Value, r: &Value) -> (res: SpriteResult<Value>)
    requires
        op == BinOp::Sub || op == BinOp::Mul,
    ensures
        value_result(res) == binary_value(op, l@, r@),
        res matches Ok(v) ==> v@ is Number,
{
    match (l, r) {
        (Value::Number(a), Value::Number(b)) => {
            if op == BinOp::Sub {
                Ok(Value::Number(sub_numbers(*a, *b)))
            } else {
                Ok(Value::Number(mul_numbers(*a, *b)))
            }
        },
        _ => Err(type_err(op, l, r)),
    }
}

/// Division or remainder of two numbers; a zero divisor is an error.
fn divide(op: BinOp, l: &Value, r: &Value) -> (res: SpriteResult<Value>)
    requires
        op == BinOp::Div || op == BinOp::Mod,
    ensures
        value_result(res) == binary_value(op, l@, r@),
        res matches Ok(v) ==> v@ is Number,
{
    match (l, r) {
        (Value::Number(a), Value::Number(b)) => {
            if zero_test(*b) {
                Err(SpriteError::Runtime(lit("division by zero")))
            } else if op == BinOp::Div {
                Ok(Value::Number(div_numbers(*a, *b)))
            } else {
                Ok(Value::Number(rem_numbers(*a, *b)))
            }
        },
        _ => Err(type_err(op, l, r)),
    }
}

/// Addition of numbers, or concatenation when either side is a string.
fn concat_or_add(l: &Value, r: &Value) -> (res: SpriteResult<Value>)
    ensures
        value_result(res) == binary_value(BinOp::Add, l@, r@),
        res matches Ok(v) ==> !(v@ is Function),
{
    match (l, r) {
        (Value::Number(a), Value::Number(b)) => Ok(Value::Number(add_numbers(*a, *b))),
        _ => {
            if matches!(l, Value::Str(_)) || matches!(r, Value::Str(_)) {
                let mut s = l.to_string();
                let t = r.to_string();
                append_str(&mut s, t.as_str());
                Ok(Value::Str(s))
            } else {
                Err(type_err(BinOp::Add, l, r))
            }
        },
    }
}

/// The value of a binary operator on two values.
pub fn eval_binary(op: BinOp, l: Value, r: Value) -> (res: SpriteResult<Value>)
    ensures
        value_result(res) == binary_value(op, l@, r@),
        res matches Ok(v) ==> !(v@ is Function),
{
    match op {
        BinOp::Add => concat_or_add(&l, &r),
        BinOp::Sub => numeric(op, &l, &r),
        BinOp::Mul => numeric(op, &l, &r),
        BinOp::Div => divide(op, &l, &r),
        BinOp::Mod => divide(op, &l, &r),
        BinOp::Eq => Ok(Value::Bool(l.values_equal(&r))),
        BinOp::NotEq => Ok(Value::Bool(!l.values_equal(&r))),
        _ => compare(op, &l, &r),
    }
}

/// How a statement ended: normally, with its value, or by `return`.
enum Signal {
    Normal(Value),
    Return(Value),
}

impl View for Signal {
    type V = SignalV;

    closed spec fn view(&self) -> SignalV {
        match self {
            Signal::Normal(v) => SignalV::Normal(v@),
            Signal::Return(v) => SignalV::Return(v@),
        }
    }
}

spec fn signal_result(r: SpriteResult<Signal>) -> Result<SignalV, ErrorV> {
    match r {
        Ok(s) => Ok(s@),
        Err(e) => Err(e@),
    }
}

spec fn signal_valid(s: SignalV, nfuns: nat) -> bool {
    match s {
        SignalV::Normal(v) => valid_value(v, nfuns),
        SignalV::Return(v) => valid_value(v, nfuns),
    }
}

pub open spec fn values_view(v: Seq<Value>) -> Seq<ValueV> {
    Seq::new(v.len(), |i: int| v[i]@)
}

spec fn values_result(r: SpriteResult<Vec<Value>>) -> Result<Seq<ValueV>, ErrorV> {
    match r {
        Ok(vs) => Ok(values_view(vs@)),
        Err(e) => Err(e@),
    }
}

/// Once a prefix of a statement list has failed or returned, the later
/// statements do not run.
proof fn lemma_stmts_stop(h: HeapV, env: nat, d: nat, b: Seq<StmtV>, i: int, j: int)
    requires
        0 <= i <= j <= b.len(),
        !(semantics::exec_stmts(h, env, d, b.take(i)).0 matches Ok(SignalV::Normal(_))),
        semantics::exec_stmts(h, env, d, b.take(i)).0 is Ok ==> semantics::exec_stmts(h, env, d, b.take(i)).2 == d,
    ensures
        semantics::exec_stmts(h, env, d, b.take(j)) == semantics::exec_stmts(h, env, d, b.take(i)),
    decreases j - i,
{
    if j > i {
        lemma_stmts_stop(h, env, d, b, i, j - 1);
        reveal_with_fuel(semantics::exec_stmts, 1);
        reveal_with_fuel(semantics::exec_stmt, 1);
        assert(b.take(j).drop_last() =~= b.take(j - 1));
    }
}

/// Once an argument has failed, the later arguments are not evaluated.
proof fn lemma_args_stop(h: HeapV, env: nat, d: nat, a: Seq<ExprV>, i: int, j: int)
    requires
        0 <= i <= j <= a.len(),
        semantics::eval_args(h, env, d, a.take(i)).0 is Err,
    ensures
        semantics::eval_args(h, env, d, a.take(j)) == semantics::eval_args(h, env, d, a.take(i)),
    decreases j - i,
{
    if j > i {
        lemma_args_stop(h, env, d, a, i, j - 1);
        reveal_with_fuel(semantics::eval_args, 1);
        reveal_with_fuel(semantics::eval_expr, 1);
        assert(a.take(j).drop_last() =~= a.take(j - 1));
    }
}

/// Whether a callee is the name `print`.
fn is_print(c: &Expr) -> (r: bool)
    ensures
        r == (c@ is Ident && c@->Ident_0 == "print"@),
{
    match c {
        Expr::Ident(n) => {
            let p = lit("print");
            *n == p
        },
        _ => false,
    }
}

/// The line `print` writes: the texts of the values, separated by spaces.
fn join_values(vs: &Vec<Value>) -> (r: String)
    ensures
        r@ == joined_text(values_view(vs@)),
{
    let ghost w = values_view(vs@);
    let mut s = String::new();
    let mut i: usize = 0;
    assert(w.take(0) =~= Seq::<ValueV>::empty());
    while i < vs.len()
        invariant
            i <= vs.len(),
            w == values_view(vs@),
            s@ == joined_text(w.take(i as int)),
        decreases vs.len() - i,
    {
        if i > 0 {
            append_str(&mut s, " ");
        }
        let t = vs[i].to_string();
        append_str(&mut s, t.as_str());
        proof {
            assert(w.take(i + 1).drop_last() =~= w.take(i as int));
            if i == 0 {
                assert(s@ =~= value_text(w.take(1)[0]));
            } else {
                assert(s@ =~= joined_text(w.take(i as int)) + " "@ + value_text(w.take(i + 1).last()));
            }
        }
        i = i + 1;
    }
    assert(w.take(vs.len() as int) =~= w);
    s
}

/// Whether a block declares a name at its top level.
fn block_declares(b: &Block) -> (r: bool)
    ensures
        r == declares(block_view(b@)),
{
    reveal(declares);
    proof {
        lemma_block_view_index(b@);
    }
    let ghost bv = block_view(b@);
    let mut i: usize = 0;
    while i < b.len()
        invariant
            i <= b.len(),
            bv == block_view(b@),
            bv.len() == b.len(),
            forall|j: int| 0 <= j < b.len() ==> #[trigger] bv[j] == stmt_view(b@[j]),
            forall|j: int| 0 <= j < i ==> !(#[trigger] bv[j] is Let || bv[j] is FnDecl),
        decreases b.len() - i,
    {
        reveal(declares);
        match &b[i] {
            Stmt::Let(_, _) => {
                assert(bv[i as int] is Let);
                return true;
            },
            Stmt::FnDecl(_, _, _) => {
                assert(bv[i as int] is FnDecl);
                return true;
            },
            _ => {
                assert(!(bv[i as int] is Let || bv[i as int] is FnDecl));
            },
        }
        i = i + 1;
    }
    false
}

/// A copy of a list of names.
fn copy_strings(v: &Vec<String>) -> (r: Vec<String>)
    ensures
        strings_view(r@) == strings_view(v@),
{
    let mut r: Vec<String> = Vec::new();
    let mut i: usize = 0;
    while i < v.len()
        invariant
            i <= v.len(),
            r.len() == i,
            forall|j: int| 0 <= j < i ==> #[trigger] r@[j]@ == v@[j]@,
        decreases v.len() - i,
    {
        r.push(v[i].clone());
        i = i + 1;
    }
    assert(strings_view(r@) =~= strings_view(v@));
    r
}

/// The variables of a call's scope: each parameter bound to its argument.
fn bind_args(params: &Vec<String>, args: &Vec<Value>) -> (r: Vec<(String, Value)>)
    requires
        params.len() == args.len(),
    ensures
        vars_map(r@) == semantics::bind_params(strings_view(params@), values_view(args@)),
        r.len() == args.len(),
        forall|j: int| 0 <= j < r.len() ==> #[trigger] r@[j].1@ == args@[j]@,
{
    let ghost ps = strings_view(params@);
    let ghost vs = values_view(args@);
    let mut r: Vec<(String, Value)> = Vec::new();
    let mut i: usize = 0;
    proof {
        assert(ps.take(0) =~= Seq::<Seq<char>>::empty());
    }
    while i < args.len()
        invariant
            params.len() == args.len(),
            i <= args.len(),
            ps == strings_view(params@),
            vs == values_view(args@),
            r.len() == i,
            forall|j: int| 0 <= j < r.len() ==> #[trigger] r@[j].1@ == args@[j]@,
            vars_map(r@) == semantics::bind_params(ps.take(i as int), vs.take(i as int)),
        decreases args.len() - i,
    {
        let ghost before = r@;
        r.push((params[i].clone(), args[i].duplicate()));
        proof {
            assert(r@.drop_last() =~= before);
            assert(ps.take(i + 1).drop_last() =~= ps.take(i as int));
            assert(vs.take(i + 1).drop_last() =~= vs.take(i as int));
        }
        i = i + 1;
    }
    proof {
        assert(ps.take(args.len() as int) =~= ps);
        assert(vs.take(args.len() as int) =~= vs);
    }
    r
}

/// The interpreter's state: the scope table (the global scope first), the
/// functions created so far, the lines `print` wrote, and the call depth.
pub struct Interpreter {
    scopes: Vec<Scope>,
    functions: Vec<FunctionDef>,
    output: Vec<String>,
    call_depth: usize,
}

pub open spec fn value_result(r: SpriteResult<Value>) -> Result<ValueV, ErrorV> {
    match r {
        Ok(v) => Ok(v@),
        Err(e) => Err(e@),
    }
}

/// Every variable of a scope holds a value that refers only to existing functions.
pub open spec fn scope_ok(s: Scope, nfuns: nat) -> bool {
    forall|j: int| 0 <= j < s.vars.len() ==> valid_value(#[trigger] s.vars[j].1@, nfuns)
}

impl Interpreter {
    /// The state as mathematics.
    pub closed spec fn heap(self) -> HeapV {
        HeapV {
            scopes: Seq::new(self.scopes.len() as nat, |i: int| scope_view(self.scopes[i])),
            funs: Seq::new(self.functions.len() as nat, |i: int| fun_view(self.functions[i])),
            out: Seq::new(self.output.len() as nat, |i: int| self.output[i]@),
        }
    }

    /// The current call depth.
    pub closed spec fn depth(self) -> nat {
        self.call_depth as nat
    }

    /// The invariant of the state: there is a global scope, a scope's parent
    /// comes before it, values and definitions refer only to what exists,
    /// and the call depth stays within its bound.
    pub closed spec fn wf(self) -> bool {
        &&& self.scopes.len() > 0
        &&& forall|i: int|
            0 <= i < self.scopes.len() ==> scope_ok(#[trigger] self.scopes[i], self.functions.len() as nat)
                && (self.scopes[i].parent matches Some(p) ==> p < i)
        &&& forall|k: int| 0 <= k < self.functions.len() ==> #[trigger] self.functions[k].closure < self.scopes.len()
        &&& self.call_depth <= MAX_CALL_DEPTH
    }

    /// What every evaluation keeps: the invariant, and tables that only grow.
    pub closed spec fn keeps(self, before: Interpreter) -> bool {
        &&& self.wf()
        &&& self.scopes.len() >= before.scopes.len()
        &&& self.functions.len() >= before.functions.len()
    }

    /// Whether `env` names a scope.
    pub closed spec fn has_scope(self, env: nat) -> bool {
        env < self.scopes.len()
    }

    /// The number of functions created so far.
    pub closed spec fn fun_count(self) -> nat {
        self.functions.len() as nat
    }

    /// A fresh interpreter: one empty global scope, no functions, no output.
    pub fn new() -> (r: Interpreter)
        ensures
            r.wf(),
            r.heap() == initial_heap(),
            r.depth() == 0,
    {
        let mut scopes: Vec<Scope> = Vec::new();
        scopes.push(Scope { vars: Vec::new(), parent: None });
        let r = Interpreter { scopes, functions: Vec::new(), output: Vec::new(), call_depth: 0 };
        assert(vars_map(r.scopes[0].vars@) =~= Map::empty());
        assert(r.heap().scopes =~= initial_heap().scopes);
        assert(r.heap() =~= initial_heap());
        r
    }

    /// The lines `print` wrote so far, oldest first; the interpreter keeps none after.
    pub fn take_output(&mut self) -> (r: Vec<String>)
        requires
            old(self).wf(),
        ensures
            final(self).wf(),
            r@.len() == old(self).heap().out.len(),
            forall|i: int| 0 <= i < r@.len() ==> #[trigger] r@[i]@ == old(self).heap().out[i],
            final(self).heap() == (HeapV { out: Seq::empty(), ..old(self).heap() }),
            final(self).depth() == old(self).depth(),
    {
        let mut r: Vec<String> = Vec::new();
        std::mem::swap(&mut r, &mut self.output);
        assert(self.heap() =~= (HeapV { out: Seq::empty(), ..old(self).heap() }));
        r
    }

    /// The index of the last variable of scope `s` named `name`.
    #[verifier::spinoff_prover]
    #[verifier::rlimit(30)]
    fn find_var(&self, s: usize, name: &String) -> (r: Option<usize>)
        requires
            s < self.scopes.len(),
        ensures
            match r {
                Some(i) => i < self.scopes[s as int].vars.len() && i == last_index(self.scopes[s as int].vars@, name@),
                None => last_index(self.scopes[s as int].vars@, name@) == -1,
            },
    {
        let ghost v = self.scopes[s as int].vars@;
        proof {
            lemma_last_index(v, name@);
        }
        let mut i: usize = self.scopes[s].vars.len();
        while i > 0
            invariant
                s < self.scopes.len(),
                v == self.scopes[s as int].vars@,
                i <= v.len(),
                forall|j: int| i <= j < v.len() ==> v[j].0@ != name@,
                -1 <= last_index(v, name@) < v.len(),
                last_index(v, name@) >= 0 ==> v[last_index(v, name@)].0@ == name@,
                forall|j: int| last_index(v, name@) < j < v.len() ==> v[j].0@ != name@,
            decreases i,
        {
            i = i - 1;
            if self.scopes[s].vars[i].0 == *name {
                return Some(i);
            }
        }
        None
    }

    /// `define_var`: sets `name` in scope `env` itself.
    #[verifier::spinoff_prover]
    #[verifier::rlimit(30)]
    fn define(&mut self, env: usize, name: String, v: Value)
        requires
            old(self).wf(),
            env < old(self).scopes.len(),
            valid_value(v@, old(self).functions.len() as nat),
        ensures
            final(self).wf(),
            final(self).heap() == define_var(old(self).heap(), env as nat, name@, v@),
            final(self).scopes.len() == old(self).scopes.len(),
            final(self).functions.len() == old(self).functions.len(),
            final(self).call_depth == old(self).call_depth,
    {
        let ghost nv = name@;
        let ghost vv = v@;
        let ghost vars0 = self.scopes[env as int].vars@;
        let ghost h0 = self.heap();
        let found = self.find_var(env, &name);
        match found {
            Some(i) => {
                let ghost entry = (name, v);
                self.scopes[env].vars[i] = (name, v);
                proof {
                    lemma_vars_update(vars0, nv, entry);
                    assert(self.scopes[env as int].vars@ == vars0.update(i as int, entry));
                }
            },
            None => {
                let ghost entry = (name, v);
                self.scopes[env].vars.push((name, v));
                proof {
                    assert(self.scopes[env as int].vars@ == vars0.push(entry));
                    assert(self.scopes[env as int].vars@.drop_last() =~= vars0);
                }
            },
        }
        proof {
            let h1 = define_var(h0, env as nat, nv, vv);
            assert forall|i: int| 0 <= i < self.scopes.len() implies scope_ok(
                #[trigger] self.scopes[i],
                self.functions.len() as nat,
            ) && (self.scopes[i].parent matches Some(p) ==> p < i) by {
                if i != env {
                    assert(self.scopes[i] == old(self).scopes[i]);
                }
            }
            assert(self.heap().scopes =~= h1.scopes);
            assert(self.heap() =~= h1);
        }
    }

    /// `assign_var`: updates `name` in the nearest scope of the chain from
    /// `env` that has it; `false`, with nothing changed, when none has it.
    #[verifier::spinoff_prover]
    #[verifier::rlimit(30)]
    fn assign(&mut self, env: usize, name: &String, v: Value) -> (r: bool)
        requires
            old(self).wf(),
            env < old(self).scopes.len(),
            valid_value(v@, old(self).functions.len() as nat),
        ensures
            final(self).wf(),
            match assign_var(old(self).heap(), env as nat, name@, v@) {
                Some(h2) => r && final(self).heap() == h2,
                None => !r && final(self).heap() == old(self).heap(),
            },
            final(self).scopes.len() == old(self).scopes.len(),
            final(self).functions.len() == old(self).functions.len(),
            final(self).call_depth == old(self).call_depth,
    {
        let ghost h = self.heap();
        let mut cur = env;
        loop
            invariant
                self.wf(),
                h == self.heap(),
                *self == *old(self),
                valid_value(v@, self.functions.len() as nat),
                cur < self.scopes.len(),
                assign_var(h, env as nat, name@, v@) == assign_var(h, cur as nat, name@, v@),
            decreases cur,
        {
            proof {
                lemma_last_index(self.scopes[cur as int].vars@, name@);
                assert(h.scopes[cur as int] == scope_view(self.scopes[cur as int]));
            }
            match self.find_var(cur, name) {
                Some(_) => {
                    self.define(cur, name.clone(), v);
                    return true;
                },
                None => {
                    match self.scopes[cur].parent {
                        Some(p) => {
                            cur = p;
                        },
                        None => {
                            return false;
                        },
                    }
                },
            }
        }
    }

    /// Opens a scope holding `vars` whose parent is `parent`; its index is returned.
    #[verifier::spinoff_prover]
    #[verifier::rlimit(30)]
    fn open_scope(&mut self, vars: Vec<(String, Value)>, parent: usize) -> (r: usize)
        requires
            old(self).wf(),
            parent < old(self).scopes.len(),
            forall|j: int| 0 <= j < vars.len() ==> valid_value(#[trigger] vars[j].1@, old(self).functions.len() as nat),
        ensures
            final(self).wf(),
            r == old(self).scopes.len(),
            final(self).heap() == push_scope(old(self).heap(), vars_map(vars@), parent as nat),
            final(self).scopes.len() == old(self).scopes.len() + 1,
            final(self).functions.len() == old(self).functions.len(),
            final(self).call_depth == old(self).call_depth,
    {
        let r = self.scopes.len();
        let ghost h0 = self.heap();
        self.scopes.push(Scope { vars, parent: Some(parent) });
        proof {
            let h1 = push_scope(h0, vars_map(vars@), parent as nat);
            assert forall|i: int| 0 <= i < self.scopes.len() implies scope_ok(
                #[trigger] self.scopes[i],
                self.functions.len() as nat,
            ) && (self.scopes[i].parent matches Some(p) ==> p < i) by {
                if i < r {
                    assert(self.scopes[i] == old(self).scopes[i]);
                }
            }
            assert(self.heap().scopes =~= h1.scopes);
            assert(self.heap() =~= h1);
        }
        r
    }

    /// Records a new function declared in scope `closure`; its index is returned.
    #[verifier::spinoff_prover]
    #[verifier::rlimit(30)]
    fn add_function(&mut self, name: String, params: Vec<String>, body: Rc<Block>, closure: usize) -> (r: usize)
        requires
            old(self).wf(),
            closure < old(self).scopes.len(),
        ensures
            final(self).wf(),
            r == old(self).functions.len(),
            final(self).heap() == with_function(
                old(self).heap(),
                name@,
                strings_view(params@),
                block_view((*body)@),
                closure as nat,
            ),
            final(self).scopes.len() == old(self).scopes.len(),
            final(self).functions.len() == old(self).functions.len() + 1,
            final(self).call_depth == old(self).call_depth,
    {
        let r = self.functions.len();
        let ghost h0 = self.heap();
        let ghost h1 = with_function(h0, name@, strings_view(params@), block_view((*body)@), closure as nat);
        self.functions.push(FunctionDef { name, params, body, closure });
        proof {
            assert forall|i: int| 0 <= i < self.scopes.len() implies scope_ok(
                #[trigger] self.scopes[i],
                self.functions.len() as nat,
            ) && (self.scopes[i].parent matches Some(p) ==> p < i) by {
                assert(scope_ok(old(self).scopes[i], old(self).functions.len() as nat));
            }
            assert forall|k: int| 0 <= k < self.functions.len() implies #[trigger] self.functions[k].closure
                < self.scopes.len() by {
                if k < r {
                    assert(self.functions[k] == old(self).functions[k]);
                }
            }
            assert(self.heap().funs =~= h1.funs);
            assert(self.heap() =~= h1);
        }
        r
    }

    /// Appends a line to what `print` wrote.
    fn write_line(&mut self, line: String)
        requires
            old(self).wf(),
        ensures
            final(self).wf(),
            final(self).heap() == with_line(old(self).heap(), line@),
            final(self).scopes.len() == old(self).scopes.len(),
            final(self).functions.len() == old(self).functions.len(),
            final(self).call_depth == old(self).call_depth,
    {
        let ghost h1 = with_line(self.heap(), line@);
        self.output.push(line);
        assert(self.heap().out =~= h1.out);
        assert(self.heap() =~= h1);
    }

    /// Runs a program in the global scope: the value of its last statement,
    /// or of the `return` that ended it.
    #[verifier::spinoff_prover]
    #[verifier::rlimit(30)]
    pub fn eval_program(&mut self, program: &Block) -> (r: SpriteResult<Value>)
        requires
            old(self).wf(),
        ensures
            final(self).wf(),
            same(
                run_program(old(self).heap(), old(self).depth(), block_view(program@)),
                (value_result(r), final(self).heap(), final(self).depth()),
            ),
    {
        match self.exec_stmts(program, 0)? {
            Signal::Normal(v) => Ok(v),
            Signal::Return(v) => Ok(v),
        }
    }

    /// Statements in order, as `semantics::exec_stmts` says.
    #[verifier::spinoff_prover]
    #[verifier::rlimit(30)]
    fn exec_stmts(&mut self, stmts: &Block, env: usize) -> (r: SpriteResult<Signal>)
        requires
            old(self).wf(),
            env < old(self).scopes.len(),
        ensures
            final(self).keeps(*old(self)),
            same(
                semantics::exec_stmts(old(self).heap(), env as nat, old(self).depth(), block_view(stmts@)),
                (signal_result(r), final(self).heap(), final(self).depth()),
            ),
            final(self).depth() == old(self).depth(),
            r matches Ok(s) ==> signal_valid(s@, final(self).functions.len() as nat),
        decreases room(old(self).call_depth as nat), block_size(block_view(stmts@)), 0nat,
    {
        let ghost h0 = self.heap();
        let ghost d0 = self.depth();
        let ghost b = block_view(stmts@);
        reveal_with_fuel(semantics::exec_stmts, 1);
        reveal_with_fuel(semantics::exec_stmt, 1);
        proof {
            lemma_block_view_index(stmts@);
            assert(b.take(0) =~= Seq::<StmtV>::empty());
        }
        let mut last = Value::Nil;
        let mut i: usize = 0;
        while i < stmts.len()
            invariant
                self.keeps(*old(self)),
                env < self.scopes.len(),
                i <= stmts.len(),
                b == block_view(stmts@),
                b.len() == stmts.len(),
                forall|j: int| 0 <= j < stmts.len() ==> #[trigger] b[j] == stmt_view(stmts@[j]),
                h0 == old(self).heap(),
                d0 == old(self).depth(),
                self.depth() == d0,
                valid_value(last@, self.functions.len() as nat),
                same(
                    semantics::exec_stmts(h0, env as nat, d0, b.take(i as int)),
                    (Ok(SignalV::Normal(last@)), self.heap(), d0),
                ),
            decreases stmts.len() - i,
        {
            reveal_with_fuel(semantics::exec_stmts, 1);
            reveal_with_fuel(semantics::exec_stmt, 1);
            proof {
                lemma_stmt_smaller(b, i as int);
                assert(b.take(i + 1).drop_last() =~= b.take(i as int));
                assert(b.take(i + 1).last() == b[i as int]);
            }
            let r = self.exec_stmt(&stmts[i], env);
            match r {
                Err(e) => {
                    proof {
                        lemma_stmts_stop(h0, env as nat, d0, b, i + 1, b.len() as int);
                        assert(b.take(b.len() as int) =~= b);
                    }
                    return Err(e);
                },
                Ok(Signal::Return(v)) => {
                    proof {
                        lemma_stmts_stop(h0, env as nat, d0, b, i + 1, b.len() as int);
                        assert(b.take(b.len() as int) =~= b);
                    }
                    return Ok(Signal::Return(v));
                },
                Ok(Signal::Normal(v)) => {
                    last = v;
                },
            }
            i = i + 1;
        }
        proof {
            assert(b.take(stmts.len() as int) =~= b);
        }
        Ok(Signal::Normal(last))
    }

    /// A block, in a scope of its own when it declares names.
    #[verifier::spinoff_prover]
    #[verifier::rlimit(30)]
    fn exec_block(&mut self, block: &Block, env: usize) -> (r: SpriteResult<Signal>)
        requires
            old(self).wf(),
            env < old(self).scopes.len(),
        ensures
            final(self).keeps(*old(self)),
            same(
                semantics::exec_block(old(self).heap(), env as nat, old(self).depth(), block_view(block@)),
                (signal_result(r), final(self).heap(), final(self).depth()),
            ),
            final(self).depth() == old(self).depth(),
            r matches Ok(s) ==> signal_valid(s@, final(self).functions.len() as nat),
        decreases room(old(self).call_depth as nat), block_size(block_view(block@)) + 1, 0nat,
    {
        reveal_with_fuel(semantics::exec_block, 1);
        reveal_with_fuel(semantics::exec_stmts, 1);
        if block_declares(block) {
            let scope = self.open_scope(Vec::new(), env);
            self.exec_stmts(block, scope)
        } else {
            self.exec_stmts(block, env)
        }
    }

    /// One statement, as `semantics::exec_stmt` says.
    #[verifier::spinoff_prover]
    #[verifier::rlimit(30)]
    fn exec_stmt(&mut self, stmt: &Stmt, env: usize) -> (r: SpriteResult<Signal>)
        requires
            old(self).wf(),
            env < old(self).scopes.len(),
        ensures
            final(self).keeps(*old(self)),
            same(
                semantics::exec_stmt(old(self).heap(), env as nat, old(self).depth(), stmt@),
                (signal_result(r), final(self).heap(), final(self).depth()),
            ),
            final(self).depth() == old(self).depth(),
            r matches Ok(s) ==> signal_valid(s@, final(self).functions.len() as nat),
        decreases room(old(self).call_depth as nat), stmt_size(stmt@), 0nat,
    {
        reveal_with_fuel(semantics::exec_stmt, 1);
        reveal_with_fuel(semantics::eval_expr, 1);
        reveal_with_fuel(semantics::exec_block, 1);
        reveal_with_fuel(semantics::run_while, 1);
        match stmt {
            Stmt::Let(name, e) => {
                let v = self.eval_expr(e, env)?;
                self.define(env, name.clone(), v);
                Ok(Signal::Normal(Value::Nil))
            },
            Stmt::Expr(e) => {
                let v = self.eval_expr(e, env)?;
                Ok(Signal::Normal(v))
            },
            Stmt::If(c, then_block, else_block) => {
                let v = self.eval_expr(c, env)?;
                if v.is_truthy() {
                    self.exec_block(then_block, env)
                } else {
                    match else_block {
                        Some(b) => self.exec_block(b, env),
                        None => Ok(Signal::Normal(Value::Nil)),
                    }
                }
            },
            Stmt::While(c, body) => self.exec_while(c, body, env),
            Stmt::FnDecl(name, params, body) => {
                let id = self.add_function(name.clone(), copy_strings(params), rc_clone(body), env);
                self.define(env, name.clone(), Value::Function(id, name.clone()));
                Ok(Signal::Normal(Value::Nil))
            },
            Stmt::Return(e) => match e {
                None => Ok(Signal::Return(Value::Nil)),
                Some(x) => {
                    let v = self.eval_expr(x, env)?;
                    Ok(Signal::Return(v))
                },
            },
            Stmt::Block(b) => self.exec_block(b, env),
        }
    }

    /// A `while` loop, as `semantics::run_while` says from the full iteration limit.
    #[verifier::spinoff_prover]
    #[verifier::rlimit(30)]
    fn exec_while(&mut self, cond: &Expr, body: &Block, env: usize) -> (r: SpriteResult<Signal>)
        requires
            old(self).wf(),
            env < old(self).scopes.len(),
        ensures
            final(self).keeps(*old(self)),
            same(
                semantics::run_while(
                    old(self).heap(),
                    env as nat,
                    old(self).depth(),
                    cond@,
                    block_view(body@),
                    LOOP_LIMIT as nat,
                ),
                (signal_result(r), final(self).heap(), final(self).depth()),
            ),
            final(self).depth() == old(self).depth(),
            r matches Ok(s) ==> signal_valid(s@, final(self).functions.len() as nat),
        decreases room(old(self).call_depth as nat), expr_size(cond@) + block_size(block_view(body@)) + 2, 0nat,
    {
        let ghost d0 = self.depth();
        let ghost g = semantics::run_while(self.heap(), env as nat, d0, cond@, block_view(body@), LOOP_LIMIT as nat);
        let mut k: u64 = LOOP_LIMIT;
        loop
            invariant
                self.keeps(*old(self)),
                env < self.scopes.len(),
                d0 == old(self).depth(),
                self.depth() == d0,
                g == semantics::run_while(old(self).heap(), env as nat, d0, cond@, block_view(body@), LOOP_LIMIT as nat),
                g == semantics::run_while(self.heap(), env as nat, d0, cond@, block_view(body@), k as nat),
            decreases k,
        {
            reveal_with_fuel(semantics::run_while, 1);
            reveal_with_fuel(semantics::eval_expr, 1);
            reveal_with_fuel(semantics::exec_block, 1);
            let v = self.eval_expr(cond, env)?;
            if !v.is_truthy() {
                return Ok(Signal::Normal(Value::Nil));
            }
            if k == 0 {
                return Err(SpriteError::Runtime(lit("loop iteration limit exceeded")));
            }
            match self.exec_block(body, env)? {
                Signal::Return(v) => {
                    return Ok(Signal::Return(v));
                },
                Signal::Normal(_) => {},
            }
            k = k - 1;
        }
    }

    /// One expression, as `semantics::eval_expr` says.
    #[verifier::spinoff_prover]
    #[verifier::rlimit(50)]
    fn eval_expr(&mut self, expr: &Expr, env: usize) -> (r: SpriteResult<Value>)
        requires
            old(self).wf(),
            env < old(self).scopes.len(),
        ensures
            final(self).keeps(*old(self)),
            same(
                semantics::eval_expr(old(self).heap(), env as nat, old(self).depth(), expr@),
                (value_result(r), final(self).heap(), final(self).depth()),
            ),
            final(self).depth() == old(self).depth(),
            r matches Ok(v) ==> valid_value(v@, final(self).functions.len() as nat),
        decreases room(old(self).call_depth as nat), expr_size(expr@), 1nat,
    {
        reveal_with_fuel(semantics::eval_expr, 1);
        reveal_with_fuel(semantics::eval_call, 1);
        match expr {
            Expr::Number(n) => Ok(Value::Number(*n)),
            Expr::Str(s) => Ok(Value::Str(s.clone())),
            Expr::Bool(b) => Ok(Value::Bool(*b)),
            Expr::Nil => Ok(Value::Nil),
            Expr::Ident(name) => match self.lookup(env, name) {
                Some(v) => Ok(v),
                None => {
                    let mut m = lit("undefined variable '");
                    append_str(&mut m, name.as_str());
                    append_str(&mut m, "'");
                    Err(SpriteError::Runtime(m))
                },
            },
            Expr::Unary(op, rhs) => self.eval_unary(*op, rhs, env),
            Expr::Logical(lhs, op, rhs) => self.eval_logical(lhs, *op, rhs, env),
            Expr::Binary(lhs, op, rhs) => {
                let l = self.eval_expr(lhs, env)?;
                let r = self.eval_expr(rhs, env)?;
                eval_binary(*op, l, r)
            },
            Expr::Assign(name, value) => {
                let v = self.eval_expr(value, env)?;
                let stored = v.duplicate();
                if self.assign(env, name, stored) {
                    Ok(v)
                } else {
                    let mut m = lit("cannot assign to undefined variable '");
                    append_str(&mut m, name.as_str());
                    append_str(&mut m, "'");
                    Err(SpriteError::Runtime(m))
                }
            },
            Expr::Call(callee, args) => self.eval_call(callee, args, env),
        }
    }

    /// `-x` and `not x`.
    #[verifier::spinoff_prover]
    #[verifier::rlimit(30)]
    fn eval_unary(&mut self, op: UnaryOp, rhs: &Expr, env: usize) -> (r: SpriteResult<Value>)
        requires
            old(self).wf(),
            env < old(self).scopes.len(),
        ensures
            final(self).keeps(*old(self)),
            same(
                semantics::eval_expr(old(self).heap(), env as nat, old(self).depth(), ExprV::Unary(op, Box::new(rhs@))),
                (value_result(r), final(self).heap(), final(self).depth()),
            ),
            final(self).depth() == old(self).depth(),
            r matches Ok(v) ==> valid_value(v@, final(self).functions.len() as nat),
        decreases room(old(self).call_depth as nat), expr_size(rhs@) + 1, 0nat,
    {
        reveal_with_fuel(semantics::eval_expr, 1);
        reveal_with_fuel(semantics::eval_call, 1);
        let v = self.eval_expr(rhs, env)?;
        match op {
            UnaryOp::Neg => match v {
                Value::Number(n) => Ok(Value::Number(negate(n))),
                other => {
                    let mut m = lit("cannot negate a ");
                    let k = other.kind();
                    append_str(&mut m, k.as_str());
                    Err(SpriteError::Runtime(m))
                },
            },
            UnaryOp::Not => Ok(Value::Bool(!v.is_truthy())),
        }
    }

    /// `a and b`, `a or b`: the right side runs only when the left does not decide.
    #[verifier::spinoff_prover]
    #[verifier::rlimit(30)]
    fn eval_logical(&mut self, lhs: &Expr, op: LogicOp, rhs: &Expr, env: usize) -> (r: SpriteResult<Value>)
        requires
            old(self).wf(),
            env < old(self).scopes.len(),
        ensures
            final(self).keeps(*old(self)),
            same(
                semantics::eval_expr(
                    old(self).heap(),
                    env as nat,
                    old(self).depth(),
                    ExprV::Logical(Box::new(lhs@), op, Box::new(rhs@)),
                ),
                (value_result(r), final(self).heap(), final(self).depth()),
            ),
            final(self).depth() == old(self).depth(),
            r matches Ok(v) ==> valid_value(v@, final(self).functions.len() as nat),
        decreases room(old(self).call_depth as nat), expr_size(lhs@) + expr_size(rhs@) + 1, 0nat,
    {
        reveal_with_fuel(semantics::eval_expr, 1);
        reveal_with_fuel(semantics::eval_call, 1);
        let l = self.eval_expr(lhs, env)?;
        let short = match op {
            LogicOp::And => !l.is_truthy(),
            LogicOp::Or => l.is_truthy(),
        };
        if short {
            Ok(l)
        } else {
            self.eval_expr(rhs, env)
        }
    }

    /// A call, as `semantics::eval_call` says.
    #[verifier::spinoff_prover]
    #[verifier::rlimit(30)]
    fn eval_call(&mut self, callee: &Expr, args: &Vec<Expr>, env: usize) -> (r: SpriteResult<Value>)
        requires
            old(self).wf(),
            env < old(self).scopes.len(),
        ensures
            final(self).keeps(*old(self)),
            same(
                semantics::eval_call(old(self).heap(), env as nat, old(self).depth(), callee@, exprs_view(args@)),
                (value_result(r), final(self).heap(), final(self).depth()),
            ),
            final(self).depth() == old(self).depth(),
            r matches Ok(v) ==> valid_value(v@, final(self).functions.len() as nat),
        decreases room(old(self).call_depth as nat), expr_size(callee@) + args_size(exprs_view(args@)) + 1, 0nat,
    {
        reveal_with_fuel(semantics::eval_call, 1);
        reveal_with_fuel(semantics::eval_expr, 1);
        reveal_with_fuel(semantics::eval_args, 1);
        reveal_with_fuel(semantics::call_function, 1);
        if is_print(callee) {
            let vs = self.eval_args(args, env)?;
            let line = join_values(&vs);
            self.write_line(line);
            return Ok(Value::Nil);
        }
        let f = self.eval_expr(callee, env)?;
        let vs = self.eval_args(args, env)?;
        match f {
            Value::Function(id, _) => self.call_function(id, vs),
            other => {
                let mut m = lit("cannot call a ");
                let k = other.kind();
                append_str(&mut m, k.as_str());
                Err(SpriteError::Runtime(m))
            },
        }
    }

    /// Arguments, left to right.
    #[verifier::spinoff_prover]
    #[verifier::rlimit(30)]
    fn eval_args(&mut self, args: &Vec<Expr>, env: usize) -> (r: SpriteResult<Vec<Value>>)
        requires
            old(self).wf(),
            env < old(self).scopes.len(),
        ensures
            final(self).keeps(*old(self)),
            same(
                semantics::eval_args(old(self).heap(), env as nat, old(self).depth(), exprs_view(args@)),
                (values_result(r), final(self).heap(), final(self).depth()),
            ),
            final(self).depth() == old(self).depth(),
            r matches Ok(vs) ==> forall|j: int|
                0 <= j < vs.len() ==> valid_value(#[trigger] vs@[j]@, final(self).functions.len() as nat),
        decreases room(old(self).call_depth as nat), args_size(exprs_view(args@)), 0nat,
    {
        let ghost h0 = self.heap();
        let ghost d0 = self.depth();
        let ghost a = exprs_view(args@);
        reveal_with_fuel(semantics::eval_args, 1);
        reveal_with_fuel(semantics::eval_expr, 1);
        proof {
            lemma_exprs_view_index(args@);
            assert(a.take(0) =~= Seq::<ExprV>::empty());
        }
        let mut vs: Vec<Value> = Vec::new();
        let mut i: usize = 0;
        assert(values_view(vs@) =~= Seq::<ValueV>::empty());
        while i < args.len()
            invariant
                self.keeps(*old(self)),
                env < self.scopes.len(),
                i <= args.len(),
                a == exprs_view(args@),
                a.len() == args.len(),
                forall|j: int| 0 <= j < args.len() ==> #[trigger] a[j] == expr_view(args@[j]),
                h0 == old(self).heap(),
                d0 == old(self).depth(),
                self.depth() == d0,
                forall|j: int| 0 <= j < vs.len() ==> valid_value(#[trigger] vs@[j]@, self.functions.len() as nat),
                same(
                    semantics::eval_args(h0, env as nat, d0, a.take(i as int)),
                    (Ok(values_view(vs@)), self.heap(), d0),
                ),
            decreases args.len() - i,
        {
            reveal_with_fuel(semantics::eval_args, 1);
            reveal_with_fuel(semantics::eval_expr, 1);
            proof {
                lemma_arg_smaller(a, i as int);
                assert(a.take(i + 1).drop_last() =~= a.take(i as int));
                assert(a.take(i + 1).last() == a[i as int]);
            }
            let r = self.eval_expr(&args[i], env);
            match r {
                Err(e) => {
                    proof {
                        lemma_args_stop(h0, env as nat, d0, a, i + 1, a.len() as int);
                        assert(a.take(a.len() as int) =~= a);
                    }
                    return Err(e);
                },
                Ok(v) => {
                    let ghost before = values_view(vs@);
                    vs.push(v);
                    assert(values_view(vs@) =~= before.push(v@));
                },
            }
            i = i + 1;
        }
        proof {
            assert(a.take(args.len() as int) =~= a);
        }
        Ok(vs)
    }

    /// Calls function `id` with argument values, as `semantics::call_function` says.
    #[verifier::spinoff_prover]
    #[verifier::rlimit(30)]
    fn call_function(&mut self, id: usize, args: Vec<Value>) -> (r: SpriteResult<Value>)
        requires
            old(self).wf(),
            id < old(self).functions.len(),
            forall|j: int| 0 <= j < args.len() ==> valid_value(#[trigger] args@[j]@, old(self).functions.len() as nat),
        ensures
            final(self).keeps(*old(self)),
            same(
                semantics::call_function(old(self).heap(), old(self).depth(), id as nat, values_view(args@)),
                (value_result(r), final(self).heap(), final(self).depth()),
            ),
            final(self).depth() == old(self).depth(),
            r matches Ok(v) ==> valid_value(v@, final(self).functions.len() as nat),
        decreases room(old(self).call_depth as nat), 0nat, 0nat,
    {
        reveal_with_fuel(semantics::call_function, 1);
        reveal_with_fuel(semantics::exec_block, 1);
        let ghost h0 = self.heap();
        let nparams = self.functions[id].params.len();
        if args.len() != nparams {
            let mut m = lit("function '");
            append_str(&mut m, self.functions[id].name.as_str());
            append_str(&mut m, "' expects ");
            push_decimal(&mut m, nparams as u64);
            append_str(&mut m, " argument(s), got ");
            push_decimal(&mut m, args.len() as u64);
            return Err(SpriteError::Runtime(m));
        }
        if self.call_depth >= MAX_CALL_DEPTH {
            return Err(SpriteError::Runtime(lit("stack overflow")));
        }
        self.call_depth = self.call_depth + 1;
        let closure = self.functions[id].closure;
        let body = rc_clone(&self.functions[id].body);
        let vars = bind_args(&self.functions[id].params, &args);
        let scope = self.open_scope(vars, closure);
        let r = self.exec_block(&body, scope);
        self.call_depth = self.call_depth - 1;
        match r {
            Err(e) => Err(e),
            Ok(Signal::Return(v)) => Ok(v),
            Ok(Signal::Normal(_)) => Ok(Value::Nil),
        }
    }

    /// The value `name` has as seen from scope `env`.
    #[verifier::spinoff_prover]
    #[verifier::rlimit(30)]
    fn lookup(&self, env: usize, name: &String) -> (r: Option<Value>)
        requires
            self.wf(),
            env < self.scopes.len(),
        ensures
            match r {
                Some(v) => lookup(self.heap(), env as nat, name@) == Some(v@) && valid_value(
                    v@,
                    self.functions.len() as nat,
                ),
                None => lookup(self.heap(), env as nat, name@) is None,
            },
    {
        let ghost h = self.heap();
        let mut cur = env;
        loop
            invariant
                self.wf(),
                h == self.heap(),
                cur < self.scopes.len(),
                lookup(h, env as nat, name@) == lookup(h, cur as nat, name@),
            decreases cur,
        {
            proof {
                lemma_last_index(self.scopes[cur as int].vars@, name@);
                assert(h.scopes[cur as int] == scope_view(self.scopes[cur as int]));
            }
            match self.find_var(cur, name) {
                Some(i) => {
                    proof {
                        assert(scope_ok(self.scopes[cur as int], self.functions.len() as nat));
                    }
                    return Some(self.scopes[cur].vars[i].1.duplicate());
                },
                None => {
                    match self.scopes[cur].parent {
                        Some(p) => {
                            cur = p;
                        },
                        None => {
                            return None;
                        },
                    }
                },
            }
        }
    }
}

impl Default for Interpreter {
    fn default() -> (r: Interpreter)
        ensures
            r.wf(),
            r.heap() == initial_heap(),
            r.depth() == 0,
    {
        Interpreter::new()
    }
}

} // verus!
