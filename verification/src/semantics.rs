//! What running a program means, as mathematics: a big-step semantics over
//! the syntax tree's view.
//!
//! The state is a heap of scopes (each a map from names to values with an
//! optional parent scope), the function values created so far, and the
//! lines that `print` produced. Every evaluation function takes the heap,
//! the scope it runs in and the current call depth, and gives back its
//! result, the new heap and the call depth it leaves. The depth counts the
//! calls in progress: a call raises it for its lifetime and lowers it again
//! when it ends, whether it returns or fails.
use vstd::prelude::*;

use crate::ast::{BinOp, ExprV, LogicOp, StmtV, UnaryOp};
use crate::error::ErrorV;
use crate::number::{
    float_add, float_div, float_mul, float_rem, float_sub, is_zero, negated, num_eq, num_order, Order,
};
use crate::numtext::display_text;

verus! {

/// Calls nested deeper than this fail with "stack overflow".
pub const MAX_CALL_DEPTH: usize = 512;

/// Iterations a single `while` loop may run before it fails.
pub const LOOP_LIMIT: u64 = 0xFFFF_FFFF_FFFF_FFFF;

pub enum ValueV {
    Number(u64),
    Str(Seq<char>),
    Bool(bool),
    Nil,
    /// A function value: its index among the functions created so far, and its name.
    Function(nat, Seq<char>),
}

#[verifier::ext_equal]
pub struct ScopeV {
    pub vars: Map<Seq<char>, ValueV>,
    pub parent: Option<nat>,
}

pub struct FunV {
    pub name: Seq<char>,
    pub params: Seq<Seq<char>>,
    pub body: Seq<StmtV>,
    /// The scope the declaration ran in.
    pub closure: nat,
}

#[verifier::ext_equal]
pub struct HeapV {
    pub scopes: Seq<ScopeV>,
    pub funs: Seq<FunV>,
    /// The lines `print` wrote, oldest first.
    pub out: Seq<Seq<char>>,
}

/// The heap a fresh interpreter starts with: one empty global scope.
pub open spec fn initial_heap() -> HeapV {
    HeapV { scopes: seq![ScopeV { vars: Map::empty(), parent: None }], funs: Seq::empty(), out: Seq::empty() }
}

/// A value refers only to functions that exist.
pub open spec fn valid_value(v: ValueV, nfuns: nat) -> bool {
    match v {
        ValueV::Function(id, _) => id < nfuns,
        _ => true,
    }
}

/// How a statement ends: normally with a value, or by `return`.
pub enum SignalV {
    Normal(ValueV),
    Return(ValueV),
}

/// Result, heap after, call depth after.
pub type Outcome<T> = (Result<T, ErrorV>, HeapV, nat);

// ---------------------------------------------------------------------
// Values
// ---------------------------------------------------------------------

/// `false` and `nil` are falsy; every other value is truthy.
pub open spec fn truthy(v: ValueV) -> bool {
    match v {
        ValueV::Bool(b) => b,
        ValueV::Nil => false,
        _ => true,
    }
}

pub open spec fn kind_name(v: ValueV) -> Seq<char> {
    match v {
        ValueV::Number(_) => "number"@,
        ValueV::Str(_) => "string"@,
        ValueV::Bool(_) => "bool"@,
        ValueV::Nil => "nil"@,
        ValueV::Function(_, _) => "function"@,
    }
}

/// The text of a value, as `print` and string concatenation show it.
pub open spec fn value_text(v: ValueV) -> Seq<char> {
    match v {
        ValueV::Number(b) => display_text(b),
        ValueV::Str(s) => s,
        ValueV::Bool(b) => if b { "true"@ } else { "false"@ },
        ValueV::Nil => "nil"@,
        ValueV::Function(_, name) => "<fn "@ + name + ">"@,
    }
}

/// Equality by value; values of different types are never equal, and a
/// function equals only itself.
pub open spec fn equal_values(a: ValueV, b: ValueV) -> bool {
    match a {
        ValueV::Number(x) => match b {
            ValueV::Number(y) => num_eq(x, y),
            _ => false,
        },
        ValueV::Str(x) => match b {
            ValueV::Str(y) => x == y,
            _ => false,
        },
        ValueV::Bool(x) => match b {
            ValueV::Bool(y) => x == y,
            _ => false,
        },
        ValueV::Nil => b is Nil,
        ValueV::Function(i, _) => match b {
            ValueV::Function(j, _) => i == j,
            _ => false,
        },
    }
}

/// Lexicographic order of strings by character.
pub open spec fn text_order(a: Seq<char>, b: Seq<char>) -> Order
    decreases a.len(),
{
    if a.len() == 0 {
        if b.len() == 0 { Order::Equal } else { Order::Less }
    } else if b.len() == 0 {
        Order::Greater
    } else if a[0] < b[0] {
        Order::Less
    } else if a[0] > b[0] {
        Order::Greater
    } else {
        text_order(a.drop_first(), b.drop_first())
    }
}

pub open spec fn op_text(op: BinOp) -> Seq<char> {
    match op {
        BinOp::Add => "+"@,
        BinOp::Sub => "-"@,
        BinOp::Mul => "*"@,
        BinOp::Div => "/"@,
        BinOp::Mod => "%"@,
        BinOp::Eq => "=="@,
        BinOp::NotEq => "!="@,
        BinOp::Lt => "<"@,
        BinOp::Gt => ">"@,
        BinOp::LtEq => "<="@,
        BinOp::GtEq => ">="@,
    }
}

pub open spec fn runtime(m: Seq<char>) -> ErrorV {
    ErrorV::Runtime(m)
}

pub open spec fn type_error(op: BinOp, l: ValueV, r: ValueV) -> ErrorV {
    runtime("type error: cannot apply '"@ + op_text(op) + "' to "@ + kind_name(l) + " and "@ + kind_name(r))
}

/// Whether an ordering satisfies a comparison operator.
pub open spec fn order_holds(op: BinOp, o: Order) -> bool {
    match op {
        BinOp::Lt => o == Order::Less,
        BinOp::Gt => o == Order::Greater,
        BinOp::LtEq => o != Order::Greater,
        _ => o != Order::Less,
    }
}

/// The value of a binary operator on two values.
pub open spec fn binary_value(op: BinOp, l: ValueV, r: ValueV) -> Result<ValueV, ErrorV> {
    match op {
        BinOp::Add => match (l, r) {
            (ValueV::Number(a), ValueV::Number(b)) => Ok(ValueV::Number(float_add(a, b))),
            (ValueV::Str(_), _) => Ok(ValueV::Str(value_text(l) + value_text(r))),
            (_, ValueV::Str(_)) => Ok(ValueV::Str(value_text(l) + value_text(r))),
            _ => Err(type_error(op, l, r)),
        },
        BinOp::Sub => match (l, r) {
            (ValueV::Number(a), ValueV::Number(b)) => Ok(ValueV::Number(float_sub(a, b))),
            _ => Err(type_error(op, l, r)),
        },
        BinOp::Mul => match (l, r) {
            (ValueV::Number(a), ValueV::Number(b)) => Ok(ValueV::Number(float_mul(a, b))),
            _ => Err(type_error(op, l, r)),
        },
        BinOp::Div => match (l, r) {
            (ValueV::Number(a), ValueV::Number(b)) => if is_zero(b) {
                Err(runtime("division by zero"@))
            } else {
                Ok(ValueV::Number(float_div(a, b)))
            },
            _ => Err(type_error(op, l, r)),
        },
        BinOp::Mod => match (l, r) {
            (ValueV::Number(a), ValueV::Number(b)) => if is_zero(b) {
                Err(runtime("division by zero"@))
            } else {
                Ok(ValueV::Number(float_rem(a, b)))
            },
            _ => Err(type_error(op, l, r)),
        },
        BinOp::Eq => Ok(ValueV::Bool(equal_values(l, r))),
        BinOp::NotEq => Ok(ValueV::Bool(!equal_values(l, r))),
        _ => comparison_value(op, l, r),
    }
}

/// The value of a comparison operator (`<`, `>`, `<=`, `>=`): numbers and
/// strings are ordered, NaN is not, and nothing else is.
pub open spec fn comparison_value(op: BinOp, l: ValueV, r: ValueV) -> Result<ValueV, ErrorV> {
    match (l, r) {
        (ValueV::Number(a), ValueV::Number(b)) => match num_order(a, b) {
            Some(o) => Ok(ValueV::Bool(order_holds(op, o))),
            None => Err(runtime("cannot compare NaN"@)),
        },
        (ValueV::Str(a), ValueV::Str(b)) => Ok(ValueV::Bool(order_holds(op, text_order(a, b)))),
        _ => Err(type_error(op, l, r)),
    }
}

// ---------------------------------------------------------------------
// Scopes
// ---------------------------------------------------------------------

/// The value a name has as seen from scope `env`: its own variables first,
/// then those of its parent chain.
pub open spec fn lookup(h: HeapV, env: nat, name: Seq<char>) -> Option<ValueV>
    decreases env,
{
    if env >= h.scopes.len() {
        None
    } else if h.scopes[env as int].vars.contains_key(name) {
        Some(h.scopes[env as int].vars[name])
    } else {
        match h.scopes[env as int].parent {
            Some(p) => if p < env { lookup(h, p, name) } else { None },
            None => None,
        }
    }
}

/// Assignment updates the nearest scope on the chain that has the name;
/// `None` when no scope has it.
pub open spec fn assign_var(h: HeapV, env: nat, name: Seq<char>, v: ValueV) -> Option<HeapV>
    decreases env,
{
    if env >= h.scopes.len() {
        None
    } else if h.scopes[env as int].vars.contains_key(name) {
        let s = h.scopes[env as int];
        Some(HeapV { scopes: h.scopes.update(env as int, ScopeV { vars: s.vars.insert(name, v), parent: s.parent }), ..h })
    } else {
        match h.scopes[env as int].parent {
            Some(p) => if p < env { assign_var(h, p, name, v) } else { None },
            None => None,
        }
    }
}

/// `let` defines (or redefines) a name in the current scope itself.
pub open spec fn define_var(h: HeapV, env: nat, name: Seq<char>, v: ValueV) -> HeapV {
    if env >= h.scopes.len() {
        h
    } else {
        let s = h.scopes[env as int];
        HeapV { scopes: h.scopes.update(env as int, ScopeV { vars: s.vars.insert(name, v), parent: s.parent }), ..h }
    }
}

/// The variables of a call's scope: each parameter bound to its argument, in order.
pub open spec fn bind_params(ps: Seq<Seq<char>>, vs: Seq<ValueV>) -> Map<Seq<char>, ValueV>
    decreases ps.len(),
{
    if ps.len() == 0 || vs.len() == 0 {
        Map::empty()
    } else {
        bind_params(ps.drop_last(), vs.drop_last()).insert(ps.last(), vs.last())
    }
}

/// A new scope at the end of the heap.
pub open spec fn push_scope(h: HeapV, vars: Map<Seq<char>, ValueV>, parent: nat) -> HeapV {
    HeapV { scopes: h.scopes.push(ScopeV { vars, parent: Some(parent) }), ..h }
}

/// Whether a block declares a name at its top level (with `let` or `fn`);
/// only such a block needs a scope of its own.
#[verifier::opaque]
pub open spec fn declares(b: Seq<StmtV>) -> bool {
    exists|i: int| 0 <= i < b.len() && (b[i] is Let || b[i] is FnDecl)
}

// ---------------------------------------------------------------------
// Sizes, for the termination argument
// ---------------------------------------------------------------------

pub open spec fn expr_size(e: ExprV) -> nat
    decreases e,
{
    match e {
        ExprV::Unary(_, a) => 1 + expr_size(*a),
        ExprV::Binary(a, _, b) => 1 + expr_size(*a) + expr_size(*b),
        ExprV::Logical(a, _, b) => 1 + expr_size(*a) + expr_size(*b),
        ExprV::Assign(_, a) => 1 + expr_size(*a),
        ExprV::Call(c, args) => 2 + expr_size(*c) + args_size(args),
        _ => 1,
    }
}

pub open spec fn args_size(a: Seq<ExprV>) -> nat
    decreases a,
{
    if a.len() == 0 {
        0
    } else {
        args_size(a.drop_last()) + expr_size(a.last()) + 1
    }
}

pub open spec fn stmt_size(s: StmtV) -> nat
    decreases s,
{
    match s {
        StmtV::Let(_, e) => expr_size(e) + 1,
        StmtV::Expr(e) => expr_size(e) + 1,
        StmtV::If(c, t, e) => expr_size(c) + block_size(t) + match e {
            Some(b) => block_size(b),
            None => 0,
        } + 3,
        StmtV::While(c, b) => expr_size(c) + block_size(b) + 3,
        StmtV::FnDecl(_, _, _) => 1,
        StmtV::Return(e) => match e {
            Some(x) => expr_size(x) + 1,
            None => 1,
        },
        StmtV::Block(b) => block_size(b) + 2,
    }
}

pub open spec fn block_size(b: Seq<StmtV>) -> nat
    decreases b,
{
    if b.len() == 0 {
        0
    } else {
        block_size(b.drop_last()) + stmt_size(b.last()) + 1
    }
}

/// A statement of a block is smaller than the block.
pub proof fn lemma_stmt_smaller(b: Seq<StmtV>, i: int)
    requires
        0 <= i < b.len(),
    ensures
        stmt_size(b[i]) < block_size(b),
    decreases b.len(),
{
    if i < b.len() - 1 {
        lemma_stmt_smaller(b.drop_last(), i);
        assert(b.drop_last()[i] == b[i]);
    }
}

/// An argument of a call is smaller than the argument list.
pub proof fn lemma_arg_smaller(a: Seq<ExprV>, i: int)
    requires
        0 <= i < a.len(),
    ensures
        expr_size(a[i]) < args_size(a),
    decreases a.len(),
{
    if i < a.len() - 1 {
        lemma_arg_smaller(a.drop_last(), i);
        assert(a.drop_last()[i] == a[i]);
    }
}

/// Calls still allowed from depth `d`.
pub open spec fn room(d: nat) -> nat {
    if d <= MAX_CALL_DEPTH { (MAX_CALL_DEPTH - d) as nat } else { 0 }
}

// ---------------------------------------------------------------------
// Evaluation
// ---------------------------------------------------------------------

pub open spec fn undefined_variable(name: Seq<char>) -> ErrorV {
    runtime("undefined variable '"@ + name + "'"@)
}

pub open spec fn undefined_assignment(name: Seq<char>) -> ErrorV {
    runtime("cannot assign to undefined variable '"@ + name + "'"@)
}

pub open spec fn arity_error(name: Seq<char>, expected: nat, got: nat) -> ErrorV {
    runtime("function '"@ + name + "' expects "@ + crate::text::decimal(expected) + " argument(s), got "@
        + crate::text::decimal(got))
}

/// The line `print` writes for its arguments: their texts separated by spaces.
pub open spec fn joined_text(vs: Seq<ValueV>) -> Seq<char>
    decreases vs.len(),
{
    if vs.len() == 0 {
        Seq::empty()
    } else if vs.len() == 1 {
        value_text(vs[0])
    } else {
        joined_text(vs.drop_last()) + " "@ + value_text(vs.last())
    }
}

pub open spec fn with_line(h: HeapV, line: Seq<char>) -> HeapV {
    HeapV { out: h.out.push(line), ..h }
}

/// The heap after a function declaration runs in scope `env`.
pub open spec fn with_function(h: HeapV, name: Seq<char>, ps: Seq<Seq<char>>, body: Seq<StmtV>, env: nat) -> HeapV {
    HeapV { funs: h.funs.push(FunV { name, params: ps, body, closure: env }), ..h }
}

/// Evaluating an expression in scope `env` at call depth `d`.
#[verifier::opaque]
pub open spec fn eval_expr(h: HeapV, env: nat, d: nat, e: ExprV) -> Outcome<ValueV>
    decreases room(d), expr_size(e), 0nat,
{
    match e {
        ExprV::Number(b) => (Ok(ValueV::Number(b)), h, d),
        ExprV::Str(s) => (Ok(ValueV::Str(s)), h, d),
        ExprV::Bool(b) => (Ok(ValueV::Bool(b)), h, d),
        ExprV::Nil => (Ok(ValueV::Nil), h, d),
        ExprV::Ident(name) => match lookup(h, env, name) {
            Some(v) => (Ok(v), h, d),
            None => (Err(undefined_variable(name)), h, d),
        },
        ExprV::Unary(op, a) => {
            let (r, h1, d1) = eval_expr(h, env, d, *a);
            match r {
                Err(x) => (Err(x), h1, d1),
                Ok(v) => match op {
                    UnaryOp::Neg => match v {
                        ValueV::Number(b) => (Ok(ValueV::Number(negated(b))), h1, d),
                        other => (Err(runtime("cannot negate a "@ + kind_name(other))), h1, d),
                    },
                    UnaryOp::Not => (Ok(ValueV::Bool(!truthy(v))), h1, d),
                },
            }
        },
        ExprV::Logical(a, op, b) => {
            let (r, h1, d1) = eval_expr(h, env, d, *a);
            match r {
                Err(x) => (Err(x), h1, d1),
                Ok(l) => {
                    let short = match op {
                        LogicOp::And => !truthy(l),
                        LogicOp::Or => truthy(l),
                    };
                    if short {
                        (Ok(l), h1, d)
                    } else {
                        eval_expr(h1, env, d, *b)
                    }
                },
            }
        },
        ExprV::Binary(a, op, b) => {
            let (r, h1, d1) = eval_expr(h, env, d, *a);
            match r {
                Err(x) => (Err(x), h1, d1),
                Ok(l) => {
                    let (r2, h2, d2) = eval_expr(h1, env, d, *b);
                    match r2 {
                        Err(x) => (Err(x), h2, d2),
                        Ok(rv) => (binary_value(op, l, rv), h2, d),
                    }
                },
            }
        },
        ExprV::Assign(name, a) => {
            let (r, h1, d1) = eval_expr(h, env, d, *a);
            match r {
                Err(x) => (Err(x), h1, d1),
                Ok(v) => match assign_var(h1, env, name, v) {
                    Some(h2) => (Ok(v), h2, d),
                    None => (Err(undefined_assignment(name)), h1, d),
                },
            }
        },
        ExprV::Call(c, args) => eval_call(h, env, d, *c, args),
    }
}

/// A call: `print(...)` writes a line; any other callee must evaluate to a function.
#[verifier::opaque]
pub open spec fn eval_call(h: HeapV, env: nat, d: nat, c: ExprV, args: Seq<ExprV>) -> Outcome<ValueV>
    decreases room(d), expr_size(c) + args_size(args) + 1, 0nat,
{
    if c is Ident && c->Ident_0 == "print"@ {
        let (r, h1, d1) = eval_args(h, env, d, args);
        match r {
            Err(x) => (Err(x), h1, d1),
            Ok(vs) => (Ok(ValueV::Nil), with_line(h1, joined_text(vs)), d),
        }
    } else {
        let (r, h1, d1) = eval_expr(h, env, d, c);
        match r {
            Err(x) => (Err(x), h1, d1),
            Ok(callee) => {
                let (r2, h2, d2) = eval_args(h1, env, d, args);
                match r2 {
                    Err(x) => (Err(x), h2, d2),
                    Ok(vs) => match callee {
                        ValueV::Function(id, _) => call_function(h2, d, id, vs),
                        other => (Err(runtime("cannot call a "@ + kind_name(other))), h2, d),
                    },
                }
            },
        }
    }
}

/// Arguments, left to right.
#[verifier::opaque]
pub open spec fn eval_args(h: HeapV, env: nat, d: nat, args: Seq<ExprV>) -> Outcome<Seq<ValueV>>
    decreases room(d), args_size(args), 0nat,
{
    if args.len() == 0 {
        (Ok(Seq::empty()), h, d)
    } else {
        let (r, h1, d1) = eval_args(h, env, d, args.drop_last());
        match r {
            Err(x) => (Err(x), h1, d1),
            Ok(vs) => {
                let (r2, h2, d2) = eval_expr(h1, env, d, args.last());
                match r2 {
                    Err(x) => (Err(x), h2, d2),
                    Ok(v) => (Ok(vs.push(v)), h2, d),
                }
            },
        }
    }
}

/// Calling function `id` with argument values: the arity must match and the
/// call must stay within `MAX_CALL_DEPTH`; the body runs in a new scope whose
/// parent is the scope the function was declared in.
#[verifier::opaque]
pub open spec fn call_function(h: HeapV, d: nat, id: nat, vs: Seq<ValueV>) -> Outcome<ValueV>
    decreases room(d), 0nat, 0nat,
{
    let f = h.funs[id as int];
    if vs.len() != f.params.len() {
        (Err(arity_error(f.name, f.params.len(), vs.len())), h, d)
    } else if d + 1 > MAX_CALL_DEPTH {
        (Err(runtime("stack overflow"@)), h, d)
    } else {
        let (r, h2, d2) = exec_block(push_scope(h, bind_params(f.params, vs), f.closure), h.scopes.len(), d + 1, f.body);
        match r {
            Err(x) => (Err(x), h2, d),
            Ok(SignalV::Return(v)) => (Ok(v), h2, d),
            Ok(SignalV::Normal(_)) => (Ok(ValueV::Nil), h2, d),
        }
    }
}

/// Executing one statement.
#[verifier::opaque]
pub open spec fn exec_stmt(h: HeapV, env: nat, d: nat, s: StmtV) -> Outcome<SignalV>
    decreases room(d), stmt_size(s), 0nat,
{
    match s {
        StmtV::Let(name, e) => {
            let (r, h1, d1) = eval_expr(h, env, d, e);
            match r {
                Err(x) => (Err(x), h1, d1),
                Ok(v) => (Ok(SignalV::Normal(ValueV::Nil)), define_var(h1, env, name, v), d),
            }
        },
        StmtV::Expr(e) => {
            let (r, h1, d1) = eval_expr(h, env, d, e);
            match r {
                Err(x) => (Err(x), h1, d1),
                Ok(v) => (Ok(SignalV::Normal(v)), h1, d),
            }
        },
        StmtV::If(c, t, el) => {
            let (r, h1, d1) = eval_expr(h, env, d, c);
            match r {
                Err(x) => (Err(x), h1, d1),
                Ok(v) => if truthy(v) {
                    exec_block(h1, env, d, t)
                } else {
                    match el {
                        Some(b) => exec_block(h1, env, d, b),
                        None => (Ok(SignalV::Normal(ValueV::Nil)), h1, d),
                    }
                },
            }
        },
        StmtV::While(c, b) => run_while(h, env, d, c, b, LOOP_LIMIT as nat),
        StmtV::FnDecl(name, ps, body) => {
            let h1 = with_function(h, name, ps, body, env);
            (Ok(SignalV::Normal(ValueV::Nil)), define_var(h1, env, name, ValueV::Function(h.funs.len(), name)), d)
        },
        StmtV::Return(e) => match e {
            None => (Ok(SignalV::Return(ValueV::Nil)), h, d),
            Some(x) => {
                let (r, h1, d1) = eval_expr(h, env, d, x);
                match r {
                    Err(y) => (Err(y), h1, d1),
                    Ok(v) => (Ok(SignalV::Return(v)), h1, d),
                }
            },
        },
        StmtV::Block(b) => exec_block(h, env, d, b),
    }
}

/// Statements in order; a `return` ends them, and otherwise the value is
/// that of the last statement (`nil` for none).
#[verifier::opaque]
pub open spec fn exec_stmts(h: HeapV, env: nat, d: nat, ss: Seq<StmtV>) -> Outcome<SignalV>
    decreases room(d), block_size(ss), 0nat,
{
    if ss.len() == 0 {
        (Ok(SignalV::Normal(ValueV::Nil)), h, d)
    } else {
        let (r, h1, d1) = exec_stmts(h, env, d, ss.drop_last());
        match r {
            Err(x) => (Err(x), h1, d1),
            Ok(SignalV::Return(v)) => (Ok(SignalV::Return(v)), h1, d),
            Ok(SignalV::Normal(_)) => exec_stmt(h1, env, d, ss.last()),
        }
    }
}

/// A block runs in a scope of its own when it declares names.
#[verifier::opaque]
pub open spec fn exec_block(h: HeapV, env: nat, d: nat, b: Seq<StmtV>) -> Outcome<SignalV>
    decreases room(d), block_size(b) + 1, 0nat,
{
    if declares(b) {
        exec_stmts(push_scope(h, Map::empty(), env), h.scopes.len(), d, b)
    } else {
        exec_stmts(h, env, d, b)
    }
}

/// A `while` loop with `k` iterations left before the limit.
#[verifier::opaque]
pub open spec fn run_while(h: HeapV, env: nat, d: nat, c: ExprV, b: Seq<StmtV>, k: nat) -> Outcome<SignalV>
    decreases room(d), expr_size(c) + block_size(b) + 2, k,
{
    let (r, h1, d1) = eval_expr(h, env, d, c);
    match r {
        Err(x) => (Err(x), h1, d1),
        Ok(v) => if !truthy(v) {
            (Ok(SignalV::Normal(ValueV::Nil)), h1, d)
        } else if k == 0 {
            (Err(runtime("loop iteration limit exceeded"@)), h1, d)
        } else {
            let (r2, h2, d2) = exec_block(h1, env, d, b);
            match r2 {
                Err(x) => (Err(x), h2, d2),
                Ok(SignalV::Return(v)) => (Ok(SignalV::Return(v)), h2, d),
                Ok(SignalV::Normal(_)) => run_while(h2, env, d, c, b, (k - 1) as nat),
            }
        },
    }
}

/// Running a program in the global scope (scope 0): the value of its last
/// statement, or of the `return` that ended it.
pub open spec fn run_program(h: HeapV, d: nat, prog: Seq<StmtV>) -> Outcome<ValueV> {
    let (r, h1, d1) = exec_stmts(h, 0, d, prog);
    match r {
        Err(x) => (Err(x), h1, d1),
        Ok(SignalV::Normal(v)) => (Ok(v), h1, d1),
        Ok(SignalV::Return(v)) => (Ok(v), h1, d1),
    }
}

} // verus!
