//! Properties of the language as a whole, proved over the definitions in
//! `grammar` and `semantics` that the parser and the interpreter are proved
//! to follow.
use vstd::prelude::*;

use crate::ast::{BinOp, ExprV, LogicOp, StmtV};
use crate::error::ErrorV;
use crate::grammar::{
    args, assignment, at, at_eof, binary, binary_operand, binary_tail, block, block_items, call, call_tail,
    else_branch, expected, expr, fn_decl, ident_at, if_branches, if_stmt, let_stmt, logic, logic_operand,
    logic_rank, logic_sym, logic_tail, binary_rank, params, params_from, primary, primary_inner, program,
    program_from, remaining, return_stmt, stmt, stmt_inner, tok_at, too_deep, unary, while_body, while_stmt,
    MAX_DEPTH,
};
use crate::lexer::{lex, lex_from, Sym, TokenV};
use crate::number::{is_nan, is_negative, is_zero, magnitude, negated, num_eq, num_order, Order, SIGN_BIT};
use crate::semantics::{
    args_size, assign_var, binary_value, define_var, lookup, value_text, block_size, call_function, equal_values, eval_args, eval_call, eval_expr,
    exec_block, exec_stmt, exec_stmts, expr_size, push_scope, room, run_program, run_while, runtime, stmt_size,
    text_order, truthy, type_error, HeapV, SignalV, ValueV, MAX_CALL_DEPTH,
};
use crate::{eval_source, run_source};

verus! {

// ---------------------------------------------------------------------
// Nesting depth
// ---------------------------------------------------------------------

/// Once `unary` fails at a position, every binary level above it fails the same way.
proof fn lemma_binary_fails(toks: Seq<TokenV>, p: nat, d: nat, level: nat)
    requires
        unary(toks, p, d).0 is Err,
    ensures
        binary(toks, p, d, level).0 == unary(toks, p, d).0,
    decreases level,
{
    reveal_with_fuel(binary, 1);
    reveal_with_fuel(binary_operand, 1);
    reveal_with_fuel(binary_tail, 1);
    reveal_with_fuel(unary, 1);
    if level > 0 {
        lemma_binary_fails(toks, p, d, (level - 1) as nat);
    }
}

/// Once `unary` fails at a position, `assignment` there fails the same way.
proof fn lemma_assignment_fails(toks: Seq<TokenV>, p: nat, d: nat)
    requires
        unary(toks, p, d).0 is Err,
    ensures
        assignment(toks, p, d).0 == unary(toks, p, d).0,
{
    lemma_binary_fails(toks, p, d, 3);
    reveal_with_fuel(assignment, 1);
    reveal_with_fuel(logic, 1);
    reveal_with_fuel(logic_operand, 1);
    reveal_with_fuel(logic_tail, 1);
    reveal_with_fuel(binary, 1);
    assert(logic(toks, p, d, LogicOp::And).0 == unary(toks, p, d).0);
    assert(logic(toks, p, d, LogicOp::Or).0 == unary(toks, p, d).0);
}

/// Once `primary` fails at a position, `call` there fails the same way.
proof fn lemma_call_fails(toks: Seq<TokenV>, p: nat, d: nat)
    requires
        primary(toks, p, d).0 is Err,
    ensures
        call(toks, p, d).0 == primary(toks, p, d).0,
{
    reveal_with_fuel(call, 1);
    reveal_with_fuel(primary, 1);
    reveal_with_fuel(call_tail, 1);
}

/// A parenthesis whose inner expression fails makes `primary` fail the same way.
proof fn lemma_primary_paren_fails(toks: Seq<TokenV>, p: nat, d: nat)
    requires
        tok_at(toks, p) == TokenV::Sym(Sym::LParen),
        d + 1 <= MAX_DEPTH,
        expr(toks, p + 1, d + 1).0 is Err,
    ensures
        primary(toks, p, d).0 == expr(toks, p + 1, d + 1).0,
{
    reveal_with_fuel(primary, 1);
    reveal_with_fuel(primary_inner, 1);
    reveal_with_fuel(expr, 1);
}

/// An expression that starts with `n` opening parentheses at depth `d`
/// fails once the levels they open (three for each) pass the bound.
proof fn lemma_nested_expr(toks: Seq<TokenV>, p: nat, d: nat, n: nat)
    requires
        n >= 1,
        forall|i: nat| i < n ==> #[trigger] tok_at(toks, p + i) == TokenV::Sym(Sym::LParen),
        d + 3 * n > MAX_DEPTH,
    ensures
        expr(toks, p, d).0 == Err::<ExprV, ErrorV>(too_deep()),
    decreases n, 1nat,
{
    reveal_with_fuel(expr, 1);
    reveal_with_fuel(assignment, 1);
    if d + 1 <= MAX_DEPTH {
        lemma_nested_unary(toks, p, d + 1, n);
        lemma_assignment_fails(toks, p, d + 1);
    }
}

/// The same for `unary` at depth `d`, which opens two levels before the
/// parenthesis's own expression.
proof fn lemma_nested_unary(toks: Seq<TokenV>, p: nat, d: nat, n: nat)
    requires
        n >= 1,
        forall|i: nat| i < n ==> #[trigger] tok_at(toks, p + i) == TokenV::Sym(Sym::LParen),
        d + 3 * n > MAX_DEPTH + 1,
    ensures
        unary(toks, p, d).0 == Err::<ExprV, ErrorV>(too_deep()),
    decreases n, 0nat,
{
    assert(tok_at(toks, p + 0) == TokenV::Sym(Sym::LParen));
    assert(tok_at(toks, p) == TokenV::Sym(Sym::LParen));
    reveal_with_fuel(unary, 1);
    reveal_with_fuel(call, 1);
    if d + 1 <= MAX_DEPTH {
        if d + 2 <= MAX_DEPTH {
            assert forall|i: nat| i < (n - 1) as nat implies #[trigger] tok_at(toks, (p + 1) + i) == TokenV::Sym(
                Sym::LParen,
            ) by {
                assert(tok_at(toks, p + (i + 1)) == TokenV::Sym(Sym::LParen));
            }
            lemma_nested_expr(toks, p + 1, d + 2, (n - 1) as nat);
            lemma_primary_paren_fails(toks, p, d + 1);
        } else {
            reveal_with_fuel(primary, 1);
        }
        lemma_call_fails(toks, p, d + 1);
    }
}

/// A token sequence that opens with `n` parentheses, nested past the
/// parser's depth bound, is rejected with "expression nested too deeply",
/// whatever follows them.
pub proof fn deep_nesting_is_a_parse_error(toks: Seq<TokenV>, n: nat)
    requires
        n <= toks.len(),
        forall|i: int| 0 <= i < n ==> toks[i] == TokenV::Sym(Sym::LParen),
        1 + 3 * n > MAX_DEPTH,
    ensures
        program(toks) == Err::<Seq<StmtV>, ErrorV>(too_deep()),
{
    assert forall|i: nat| i < n implies #[trigger] tok_at(toks, 0 + i) == TokenV::Sym(Sym::LParen) by {
        assert(toks[i as int] == TokenV::Sym(Sym::LParen));
    }
    lemma_nested_expr(toks, 0, 1, n);
    assert(tok_at(toks, 0 + 0) == TokenV::Sym(Sym::LParen));
    reveal_with_fuel(program_from, 1);
    reveal_with_fuel(stmt, 1);
    reveal_with_fuel(stmt_inner, 1);
    reveal_with_fuel(expr, 1);
    assert(stmt(toks, 0, 0).0 == Err::<StmtV, ErrorV>(too_deep()));
}

/// Once the first statement of a block's items fails, the items fail the same way.
proof fn lemma_block_items_fail(toks: Seq<TokenV>, p: nat, d: nat, acc: Seq<StmtV>, e: ErrorV)
    requires
        !at(toks, p, Sym::RBrace),
        !at_eof(toks, p),
        stmt(toks, p, d).0 == Err::<StmtV, ErrorV>(e),
    ensures
        block_items(toks, p, d, acc).0 == Err::<Seq<StmtV>, ErrorV>(e),
{
    reveal_with_fuel(block_items, 1);
    reveal_with_fuel(stmt, 1);
}

/// A block whose items fail fails the same way.
proof fn lemma_block_fails(toks: Seq<TokenV>, p: nat, d: nat, e: ErrorV)
    requires
        at(toks, p, Sym::LBrace),
        d + 1 <= MAX_DEPTH,
        block_items(toks, p + 1, d + 1, Seq::empty()).0 == Err::<Seq<StmtV>, ErrorV>(e),
    ensures
        block(toks, p, d).0 == Err::<Seq<StmtV>, ErrorV>(e),
{
    reveal_with_fuel(block, 1);
    reveal_with_fuel(block_items, 1);
}

/// A statement that is a failing block fails the same way.
proof fn lemma_block_stmt_fails(toks: Seq<TokenV>, p: nat, d: nat, e: ErrorV)
    requires
        at(toks, p, Sym::LBrace),
        d + 1 <= MAX_DEPTH,
        block(toks, p, d + 1).0 == Err::<Seq<StmtV>, ErrorV>(e),
    ensures
        stmt(toks, p, d).0 == Err::<StmtV, ErrorV>(e),
{
    reveal_with_fuel(stmt, 1);
    reveal_with_fuel(stmt_inner, 1);
    reveal_with_fuel(block, 1);
}

/// A statement that starts with `n` opening braces at depth `d` fails once
/// the levels they open (two for each) pass the bound.
proof fn lemma_nested_block(toks: Seq<TokenV>, p: nat, d: nat, n: nat)
    requires
        n >= 1,
        forall|i: nat| i < n ==> #[trigger] tok_at(toks, p + i) == TokenV::Sym(Sym::LBrace),
        d + 2 * n > MAX_DEPTH,
    ensures
        stmt(toks, p, d).0 == Err::<StmtV, ErrorV>(too_deep()),
    decreases n,
{
    assert(tok_at(toks, p + 0) == TokenV::Sym(Sym::LBrace));
    assert(tok_at(toks, p) == TokenV::Sym(Sym::LBrace));
    reveal_with_fuel(stmt, 1);
    reveal_with_fuel(stmt_inner, 1);
    if d + 1 <= MAX_DEPTH {
        reveal_with_fuel(block, 1);
        if d + 2 <= MAX_DEPTH {
            assert(tok_at(toks, p + 1) == TokenV::Sym(Sym::LBrace));
            assert forall|i: nat| i < (n - 1) as nat implies #[trigger] tok_at(toks, (p + 1) + i) == TokenV::Sym(
                Sym::LBrace,
            ) by {
                assert(tok_at(toks, p + (i + 1)) == TokenV::Sym(Sym::LBrace));
            }
            lemma_nested_block(toks, p + 1, d + 2, (n - 1) as nat);
            lemma_block_items_fail(toks, p + 1, d + 2, Seq::empty(), too_deep());
            lemma_block_fails(toks, p, d + 1, too_deep());
        }
        lemma_block_stmt_fails(toks, p, d, too_deep());
    }
}

/// A token sequence that opens with `n` braces, nested past the parser's
/// depth bound, is rejected with "expression nested too deeply".
pub proof fn deep_block_nesting_is_a_parse_error(toks: Seq<TokenV>, n: nat)
    requires
        n <= toks.len(),
        forall|i: int| 0 <= i < n ==> toks[i] == TokenV::Sym(Sym::LBrace),
        2 * n > MAX_DEPTH,
    ensures
        program(toks) == Err::<Seq<StmtV>, ErrorV>(too_deep()),
{
    assert forall|i: nat| i < n implies #[trigger] tok_at(toks, 0 + i) == TokenV::Sym(Sym::LBrace) by {
        assert(toks[i as int] == TokenV::Sym(Sym::LBrace));
    }
    lemma_nested_block(toks, 0, 0, n);
    assert(tok_at(toks, 0 + 0) == TokenV::Sym(Sym::LBrace));
    reveal_with_fuel(program_from, 1);
    reveal_with_fuel(stmt, 1);
}

/// Lexing characters that are all `(` gives `LParen` tokens first.
proof fn lemma_lex_parens(cs: Seq<char>, i: int, n: int)
    requires
        0 <= i <= n <= cs.len(),
        forall|k: int| i <= k < n ==> cs[k] == '(',
    ensures
        lex_from(cs, i) matches Ok(ts) ==> ts.len() >= n - i && forall|k: int|
            0 <= k < n - i ==> ts[k] == TokenV::Sym(Sym::LParen),
    decreases n - i,
{
    if i < n {
        lemma_lex_parens(cs, i + 1, n);
        if lex_from(cs, i) is Ok {
            let ts = lex_from(cs, i)->Ok_0;
            let rest = lex_from(cs, i + 1)->Ok_0;
            assert(ts == seq![TokenV::Sym(Sym::LParen)] + rest);
            assert forall|k: int| 0 <= k < n - i implies ts[k] == TokenV::Sym(Sym::LParen) by {
                if k > 0 {
                    assert(ts[k] == rest[k - 1]);
                }
            }
        }
    }
}

/// A source text that opens with `n` `(` characters, nested past the
/// parser's depth bound, never evaluates to a value: it reads as tokens and
/// is then rejected with "expression nested too deeply", or it does not
/// read as tokens at all.
pub proof fn deep_nesting_never_evaluates(src: Seq<char>, n: nat)
    requires
        n <= src.len(),
        forall|i: int| 0 <= i < n ==> src[i] == '(',
        1 + 3 * n > MAX_DEPTH,
    ensures
        eval_source(src) is Err,
        lex(src) is Ok ==> eval_source(src) == Err::<ValueV, ErrorV>(too_deep()),
{
    lemma_lex_parens(src, 0, n as int);
    if lex(src) is Ok {
        let toks = lex(src)->Ok_0;
        deep_nesting_is_a_parse_error(toks, n);
    }
}

// ---------------------------------------------------------------------
// Calls
// ---------------------------------------------------------------------

/// A call made at the call-depth bound, with the right number of
/// arguments, fails with "stack overflow" and changes nothing.
pub proof fn call_at_depth_bound_overflows(h: HeapV, d: nat, id: nat, vs: Seq<ValueV>)
    requires
        d >= MAX_CALL_DEPTH,
        id < h.funs.len(),
        vs.len() == h.funs[id as int].params.len(),
    ensures
        call_function(h, d, id, vs) == (Err::<ValueV, ErrorV>(runtime("stack overflow"@)), h, d),
{
    reveal_with_fuel(call_function, 1);
    reveal_with_fuel(crate::semantics::exec_block, 1);
}

/// `a and b` with a falsy `a`, and `a or b` with a truthy `a`, give `a`'s
/// value without evaluating `b`.
pub proof fn logic_short_circuits(h: HeapV, env: nat, d: nat, a: ExprV, op: LogicOp, b: ExprV)
    requires
        eval_expr(h, env, d, a).0 is Ok,
        match op {
            LogicOp::And => !truthy(eval_expr(h, env, d, a).0->Ok_0),
            LogicOp::Or => truthy(eval_expr(h, env, d, a).0->Ok_0),
        },
    ensures
        eval_expr(h, env, d, ExprV::Logical(Box::new(a), op, Box::new(b))) == (
            eval_expr(h, env, d, a).0,
            eval_expr(h, env, d, a).1,
            d,
        ),
{
    reveal_with_fuel(eval_expr, 1);
    reveal_with_fuel(crate::semantics::eval_call, 1);
}

// ---------------------------------------------------------------------
// Values and operators
// ---------------------------------------------------------------------

/// Exactly `false` and `nil` are falsy; every other value, `0` and `""`
/// among them, is truthy.
pub proof fn falsy_values_are_false_and_nil(v: ValueV)
    ensures
        !truthy(v) <==> (v == ValueV::Bool(false) || v == ValueV::Nil),
{
}

/// Whether two values have the same type.
pub open spec fn same_type(l: ValueV, r: ValueV) -> bool {
    ||| (l is Number && r is Number)
    ||| (l is Str && r is Str)
    ||| (l is Bool && r is Bool)
    ||| (l is Nil && r is Nil)
    ||| (l is Function && r is Function)
}

/// `==` and `!=` never fail; `==` is symmetric and `!=` is its negation.
pub proof fn equality_is_total_and_symmetric(l: ValueV, r: ValueV)
    ensures
        binary_value(BinOp::Eq, l, r) == Ok::<ValueV, ErrorV>(ValueV::Bool(equal_values(l, r))),
        binary_value(BinOp::NotEq, l, r) == Ok::<ValueV, ErrorV>(ValueV::Bool(!equal_values(l, r))),
        equal_values(l, r) == equal_values(r, l),
{
}

/// Values of different types are never equal: comparing them with `==`
/// gives `false` rather than an error.
pub proof fn values_of_different_types_differ(l: ValueV, r: ValueV)
    requires
        !same_type(l, r),
    ensures
        binary_value(BinOp::Eq, l, r) == Ok::<ValueV, ErrorV>(ValueV::Bool(false)),
        binary_value(BinOp::NotEq, l, r) == Ok::<ValueV, ErrorV>(ValueV::Bool(true)),
{
}

/// Ordering is defined for two numbers or two strings only; `<`, `>`,
/// `<=`, `>=` on anything else is a type error.
pub proof fn only_numbers_and_strings_are_ordered(op: BinOp, l: ValueV, r: ValueV)
    requires
        op == BinOp::Lt || op == BinOp::Gt || op == BinOp::LtEq || op == BinOp::GtEq,
        !(l is Number && r is Number),
        !(l is Str && r is Str),
    ensures
        binary_value(op, l, r) == Err::<ValueV, ErrorV>(type_error(op, l, r)),
{
}

/// The order of strings is antisymmetric: `a` before `b` exactly when `b` after `a`.
proof fn lemma_text_order_flip(a: Seq<char>, b: Seq<char>)
    ensures
        (text_order(a, b) == Order::Less) == (text_order(b, a) == Order::Greater),
        (text_order(a, b) == Order::Equal) == (text_order(b, a) == Order::Equal),
    decreases a.len(),
{
    if a.len() > 0 && b.len() > 0 && a[0] == b[0] {
        lemma_text_order_flip(a.drop_first(), b.drop_first());
    }
}

/// `a < b` is `b > a`, and `a <= b` is `b >= a`, for numbers and for strings.
pub proof fn comparisons_flip(l: ValueV, r: ValueV)
    requires
        (l is Number && r is Number) || (l is Str && r is Str),
    ensures
        binary_value(BinOp::Lt, l, r) == binary_value(BinOp::Gt, r, l),
        binary_value(BinOp::LtEq, l, r) == binary_value(BinOp::GtEq, r, l),
{
    match (l, r) {
        (ValueV::Str(a), ValueV::Str(b)) => {
            lemma_text_order_flip(a, b);
        },
        _ => {},
    }
}

/// Dividing by zero, or taking a remainder by zero, is a runtime error
/// rather than an infinity or a NaN.
pub proof fn division_by_zero_is_an_error(a: u64, b: u64)
    requires
        is_zero(b),
    ensures
        binary_value(BinOp::Div, ValueV::Number(a), ValueV::Number(b)) == Err::<ValueV, ErrorV>(
            runtime("division by zero"@),
        ),
        binary_value(BinOp::Mod, ValueV::Number(a), ValueV::Number(b)) == Err::<ValueV, ErrorV>(
            runtime("division by zero"@),
        ),
{
}

// ---------------------------------------------------------------------
// What running a program can report
// ---------------------------------------------------------------------

/// The lines of `a` are the first lines of `b`.
pub open spec fn keeps_lines(a: Seq<Seq<char>>, b: Seq<Seq<char>>) -> bool {
    a.len() <= b.len() && forall|i: int| 0 <= i < a.len() ==> a[i] == b[i]
}

/// An evaluation step reports only runtime errors, keeps the lines written
/// before it, and ends at the call depth it started at.
pub open spec fn sound_value(h: HeapV, d: nat, o: (Result<ValueV, ErrorV>, HeapV, nat)) -> bool {
    &&& (o.0 matches Err(x) ==> x is Runtime)
    &&& keeps_lines(h.out, o.1.out)
    &&& o.2 == d
}

pub open spec fn sound_values(h: HeapV, d: nat, o: (Result<Seq<ValueV>, ErrorV>, HeapV, nat)) -> bool {
    &&& (o.0 matches Err(x) ==> x is Runtime)
    &&& keeps_lines(h.out, o.1.out)
    &&& o.2 == d
}

pub open spec fn sound_signal(h: HeapV, d: nat, o: (Result<SignalV, ErrorV>, HeapV, nat)) -> bool {
    &&& (o.0 matches Err(x) ==> x is Runtime)
    &&& keeps_lines(h.out, o.1.out)
    &&& o.2 == d
}

/// Assignment changes only variables.
proof fn lemma_assign_keeps_lines(h: HeapV, env: nat, name: Seq<char>, v: ValueV)
    ensures
        assign_var(h, env, name, v) matches Some(h2) ==> h2.out == h.out,
    decreases env,
{
    if env < h.scopes.len() && !h.scopes[env as int].vars.contains_key(name) {
        match h.scopes[env as int].parent {
            Some(p) => {
                if p < env {
                    lemma_assign_keeps_lines(h, p, name, v);
                }
            },
            None => {},
        }
    }
}

proof fn lemma_expr_sound(h: HeapV, env: nat, d: nat, e: ExprV)
    ensures
        sound_value(h, d, eval_expr(h, env, d, e)),
    decreases room(d), expr_size(e), 0nat,
{
    reveal_with_fuel(eval_expr, 1);
    reveal_with_fuel(eval_call, 1);
    match e {
        ExprV::Unary(_, a) => {
            lemma_expr_sound(h, env, d, *a);
        },
        ExprV::Logical(a, _, b) => {
            lemma_expr_sound(h, env, d, *a);
            let h1 = eval_expr(h, env, d, *a).1;
            lemma_expr_sound(h1, env, d, *b);
        },
        ExprV::Binary(a, _, b) => {
            lemma_expr_sound(h, env, d, *a);
            let h1 = eval_expr(h, env, d, *a).1;
            lemma_expr_sound(h1, env, d, *b);
        },
        ExprV::Assign(name, a) => {
            lemma_expr_sound(h, env, d, *a);
            let (r, h1, _) = eval_expr(h, env, d, *a);
            if r is Ok {
                lemma_assign_keeps_lines(h1, env, name, r->Ok_0);
            }
        },
        ExprV::Call(c, args) => {
            lemma_call_sound(h, env, d, *c, args);
        },
        _ => {},
    }
}

proof fn lemma_call_sound(h: HeapV, env: nat, d: nat, c: ExprV, args: Seq<ExprV>)
    ensures
        sound_value(h, d, eval_call(h, env, d, c, args)),
    decreases room(d), expr_size(c) + args_size(args) + 1, 0nat,
{
    reveal_with_fuel(eval_call, 1);
    reveal_with_fuel(eval_expr, 1);
    reveal_with_fuel(eval_args, 1);
    reveal_with_fuel(call_function, 1);
    if c is Ident && c->Ident_0 == "print"@ {
        lemma_args_sound(h, env, d, args);
    } else {
        lemma_expr_sound(h, env, d, c);
        let h1 = eval_expr(h, env, d, c).1;
        lemma_args_sound(h1, env, d, args);
        let (r2, h2, _) = eval_args(h1, env, d, args);
        if r2 is Ok {
            match eval_expr(h, env, d, c).0 {
                Ok(ValueV::Function(id, _)) => {
                    lemma_function_sound(h2, d, id, r2->Ok_0);
                },
                _ => {},
            }
        }
    }
}

proof fn lemma_args_sound(h: HeapV, env: nat, d: nat, args: Seq<ExprV>)
    ensures
        sound_values(h, d, eval_args(h, env, d, args)),
    decreases room(d), args_size(args), 0nat,
{
    reveal_with_fuel(eval_args, 1);
    reveal_with_fuel(eval_expr, 1);
    if args.len() > 0 {
        lemma_args_sound(h, env, d, args.drop_last());
        let h1 = eval_args(h, env, d, args.drop_last()).1;
        lemma_expr_sound(h1, env, d, args.last());
    }
}

proof fn lemma_function_sound(h: HeapV, d: nat, id: nat, vs: Seq<ValueV>)
    ensures
        sound_value(h, d, call_function(h, d, id, vs)),
    decreases room(d), 0nat, 0nat,
{
    reveal_with_fuel(call_function, 1);
    reveal_with_fuel(exec_block, 1);
    let f = h.funs[id as int];
    if vs.len() == f.params.len() && d + 1 <= MAX_CALL_DEPTH {
        let h1 = push_scope(h, crate::semantics::bind_params(f.params, vs), f.closure);
        lemma_block_sound(h1, h.scopes.len(), d + 1, f.body);
    }
}

proof fn lemma_block_sound(h: HeapV, env: nat, d: nat, b: Seq<StmtV>)
    ensures
        sound_signal(h, d, exec_block(h, env, d, b)),
    decreases room(d), block_size(b) + 1, 0nat,
{
    reveal_with_fuel(exec_block, 1);
    reveal_with_fuel(exec_stmts, 1);
    lemma_stmts_sound(h, env, d, b);
    lemma_stmts_sound(push_scope(h, Map::empty(), env), h.scopes.len(), d, b);
}

proof fn lemma_stmts_sound(h: HeapV, env: nat, d: nat, ss: Seq<StmtV>)
    ensures
        sound_signal(h, d, exec_stmts(h, env, d, ss)),
    decreases room(d), block_size(ss), 0nat,
{
    reveal_with_fuel(exec_stmts, 1);
    reveal_with_fuel(exec_stmt, 1);
    if ss.len() > 0 {
        lemma_stmts_sound(h, env, d, ss.drop_last());
        let h1 = exec_stmts(h, env, d, ss.drop_last()).1;
        lemma_stmt_sound(h1, env, d, ss.last());
    }
}

proof fn lemma_stmt_sound(h: HeapV, env: nat, d: nat, s: StmtV)
    ensures
        sound_signal(h, d, exec_stmt(h, env, d, s)),
    decreases room(d), stmt_size(s), 0nat,
{
    reveal_with_fuel(exec_stmt, 1);
    reveal_with_fuel(eval_expr, 1);
    reveal_with_fuel(exec_block, 1);
    reveal_with_fuel(run_while, 1);
    match s {
        StmtV::Let(_, e) => {
            lemma_expr_sound(h, env, d, e);
        },
        StmtV::Expr(e) => {
            lemma_expr_sound(h, env, d, e);
        },
        StmtV::If(c, t, el) => {
            lemma_expr_sound(h, env, d, c);
            let h1 = eval_expr(h, env, d, c).1;
            lemma_block_sound(h1, env, d, t);
            match el {
                Some(b) => {
                    lemma_block_sound(h1, env, d, b);
                },
                None => {},
            }
        },
        StmtV::While(c, b) => {
            lemma_while_sound(h, env, d, c, b, crate::semantics::LOOP_LIMIT as nat);
        },
        StmtV::Return(e) => match e {
            Some(x) => {
                lemma_expr_sound(h, env, d, x);
            },
            None => {},
        },
        StmtV::Block(b) => {
            lemma_block_sound(h, env, d, b);
        },
        _ => {},
    }
}

proof fn lemma_while_sound(h: HeapV, env: nat, d: nat, c: ExprV, b: Seq<StmtV>, k: nat)
    ensures
        sound_signal(h, d, run_while(h, env, d, c, b, k)),
    decreases room(d), expr_size(c) + block_size(b) + 2, k,
{
    reveal_with_fuel(run_while, 1);
    reveal_with_fuel(eval_expr, 1);
    reveal_with_fuel(exec_block, 1);
    lemma_expr_sound(h, env, d, c);
    let h1 = eval_expr(h, env, d, c).1;
    lemma_block_sound(h1, env, d, b);
    if k > 0 {
        let h2 = exec_block(h1, env, d, b).1;
        lemma_while_sound(h2, env, d, c, b, (k - 1) as nat);
    }
}

/// Running a program reports only runtime errors, and the lines `print`
/// wrote before the run stay, in order, at the start of the output.
pub proof fn running_reports_only_runtime_errors(h: HeapV, d: nat, prog: Seq<StmtV>)
    ensures
        run_program(h, d, prog).0 matches Err(x) ==> x is Runtime,
        keeps_lines(h.out, run_program(h, d, prog).1.out),
{
    lemma_stmts_sound(h, 0, d, prog);
}

/// A call ends at the call depth it started at, whether it returns or
/// fails: the depth counts only the calls in progress.
pub proof fn calls_restore_call_depth(h: HeapV, d: nat, id: nat, vs: Seq<ValueV>)
    ensures
        call_function(h, d, id, vs).2 == d,
{
    lemma_function_sound(h, d, id, vs);
}

/// Every run, also one that fails (runaway recursion included), ends at the
/// call depth it started at, so a session stays usable after an error.
pub proof fn runs_restore_call_depth(h: HeapV, d: nat, src: Seq<char>)
    ensures
        run_source(h, d, src).2 == d,
{
    if lex(src) is Ok && program(lex(src)->Ok_0) is Ok {
        lemma_stmts_sound(h, 0, d, program(lex(src)->Ok_0)->Ok_0);
    }
}

/// Lexing from any position reports only lexical errors.
proof fn lemma_lex_errors(cs: Seq<char>, i: int)
    ensures
        lex_from(cs, i) matches Err(e) ==> e is Lex,
    decreases cs.len() - i,
{
    if 0 <= i < cs.len() {
        let c = cs[i];
        if crate::lexer::is_space(c) {
            lemma_lex_errors(cs, i + 1);
        } else if c == '#' {
            crate::lexer::lemma_find_char_bounds(cs, i + 1, '\n');
            lemma_lex_errors(cs, crate::lexer::find_char(cs, i + 1, '\n'));
        } else if crate::numtext::is_digit(c) {
            crate::lexer::lemma_number_end_bounds(cs, i);
            lemma_lex_errors(cs, crate::lexer::number_end(cs, i));
        } else if crate::lexer::is_ident_start(c) {
            crate::lexer::lemma_ident_end_bounds(cs, i + 1);
            lemma_lex_errors(cs, crate::lexer::ident_end(cs, i + 1));
        } else if c == '"' {
            crate::lexer::lemma_find_char_bounds(cs, i + 1, '"');
            let j = crate::lexer::find_char(cs, i + 1, '"');
            if j < cs.len() {
                lemma_lex_errors(cs, j + 1);
            }
        } else {
            match crate::lexer::operator_at(cs, i) {
                Some((_, n)) => {
                    lemma_lex_errors(cs, i + n);
                },
                None => {},
            }
        }
    }
}

/// Reading a source text into tokens reports only lexical errors.
pub proof fn lexing_reports_only_lexical_errors(src: Seq<char>)
    ensures
        lex(src) matches Err(e) ==> e is Lex,
{
    lemma_lex_errors(src, 0);
}

// ---------------------------------------------------------------------
// What parsing can report
// ---------------------------------------------------------------------

proof fn lemma_params_parse(toks: Seq<TokenV>, p: nat, acc: Seq<Seq<char>>)
    ensures
        params_from(toks, p, acc).0 matches Err(e) ==> e is Parse,
    decreases remaining(toks, p),
{
    if let Ok(n) = ident_at(toks, p) {
        if at(toks, p + 1, Sym::Comma) {
            lemma_params_parse(toks, p + 2, acc.push(n));
        }
    }
}

proof fn lemma_stmt_parse(toks: Seq<TokenV>, p: nat, d: nat)
    ensures
        stmt(toks, p, d).0 matches Err(e) ==> e is Parse,
    decreases remaining(toks, p), 60nat,
{
    reveal_with_fuel(stmt, 1);
    reveal_with_fuel(stmt_inner, 1);
    reveal(too_deep);
    if d + 1 <= MAX_DEPTH {
        lemma_stmt_inner_parse(toks, p, d + 1);
    }
}

proof fn lemma_stmt_inner_parse(toks: Seq<TokenV>, p: nat, d: nat)
    ensures
        stmt_inner(toks, p, d).0 matches Err(e) ==> e is Parse,
    decreases remaining(toks, p), 59nat,
{
    reveal_with_fuel(stmt_inner, 1);
    reveal_with_fuel(let_stmt, 1);
    reveal_with_fuel(fn_decl, 1);
    reveal_with_fuel(if_stmt, 1);
    reveal_with_fuel(while_stmt, 1);
    reveal_with_fuel(return_stmt, 1);
    reveal_with_fuel(block, 1);
    reveal_with_fuel(expr, 1);
    match tok_at(toks, p) {
        TokenV::Sym(Sym::Let) => lemma_let_parse(toks, p + 1, d),
        TokenV::Sym(Sym::Fn) => lemma_fn_decl_parse(toks, p + 1, d),
        TokenV::Sym(Sym::If) => lemma_if_parse(toks, p + 1, d),
        TokenV::Sym(Sym::While) => lemma_while_parse(toks, p + 1, d),
        TokenV::Sym(Sym::Return) => lemma_return_parse(toks, p + 1, d),
        TokenV::Sym(Sym::LBrace) => lemma_block_parse(toks, p, d),
        _ => lemma_expr_parse(toks, p, d),
    }
}

proof fn lemma_let_parse(toks: Seq<TokenV>, p: nat, d: nat)
    ensures
        let_stmt(toks, p, d).0 matches Err(e) ==> e is Parse,
    decreases remaining(toks, p), 65nat,
{
    reveal_with_fuel(let_stmt, 1);
    reveal_with_fuel(expr, 1);
    reveal(expected);
    if ident_at(toks, p) is Ok && at(toks, p + 1, Sym::Eq) {
        lemma_expr_parse(toks, p + 2, d);
    }
}

proof fn lemma_fn_decl_parse(toks: Seq<TokenV>, p: nat, d: nat)
    ensures
        fn_decl(toks, p, d).0 matches Err(e) ==> e is Parse,
    decreases remaining(toks, p), 65nat,
{
    reveal_with_fuel(fn_decl, 1);
    reveal_with_fuel(block, 1);
    reveal(expected);
    lemma_params_parse(toks, p + 2, Seq::empty());
    if ident_at(toks, p) is Ok && at(toks, p + 1, Sym::LParen) {
        let (pr, pc) = params(toks, p + 2);
        if pr is Ok && at(toks, p + 2 + pc, Sym::RParen) {
            lemma_block_parse(toks, p + 3 + pc, d);
        }
    }
}

proof fn lemma_if_parse(toks: Seq<TokenV>, p: nat, d: nat)
    ensures
        if_stmt(toks, p, d).0 matches Err(e) ==> e is Parse,
    decreases remaining(toks, p), 65nat,
{
    reveal_with_fuel(if_stmt, 1);
    reveal_with_fuel(expr, 1);
    reveal_with_fuel(if_branches, 1);
    lemma_expr_parse(toks, p, d);
    let (r, c, d1) = expr(toks, p, d);
    if r is Ok {
        lemma_if_branches_parse(toks, p + c, d1, r->Ok_0);
    }
}

proof fn lemma_if_branches_parse(toks: Seq<TokenV>, p: nat, d: nat, cond: ExprV)
    ensures
        if_branches(toks, p, d, cond).0 matches Err(e) ==> e is Parse,
    decreases remaining(toks, p), 64nat,
{
    reveal_with_fuel(if_branches, 1);
    reveal_with_fuel(block, 1);
    reveal_with_fuel(else_branch, 1);
    lemma_block_parse(toks, p, d);
    let (r, c, d1) = block(toks, p, d);
    if r is Ok {
        lemma_else_parse(toks, p + c, d1);
    }
}

proof fn lemma_else_parse(toks: Seq<TokenV>, p: nat, d: nat)
    ensures
        else_branch(toks, p, d).0 matches Err(e) ==> e is Parse,
    decreases remaining(toks, p), 62nat,
{
    reveal_with_fuel(else_branch, 1);
    reveal_with_fuel(stmt, 1);
    reveal_with_fuel(block, 1);
    if at(toks, p, Sym::Else) {
        if at(toks, p + 1, Sym::If) {
            lemma_stmt_parse(toks, p + 1, d);
        } else {
            lemma_block_parse(toks, p + 1, d);
        }
    }
}

proof fn lemma_while_parse(toks: Seq<TokenV>, p: nat, d: nat)
    ensures
        while_stmt(toks, p, d).0 matches Err(e) ==> e is Parse,
    decreases remaining(toks, p), 65nat,
{
    reveal_with_fuel(while_stmt, 1);
    reveal_with_fuel(expr, 1);
    reveal_with_fuel(while_body, 1);
    lemma_expr_parse(toks, p, d);
    let (r, c, d1) = expr(toks, p, d);
    if r is Ok {
        lemma_while_body_parse(toks, p + c, d1, r->Ok_0);
    }
}

proof fn lemma_while_body_parse(toks: Seq<TokenV>, p: nat, d: nat, cond: ExprV)
    ensures
        while_body(toks, p, d, cond).0 matches Err(e) ==> e is Parse,
    decreases remaining(toks, p), 64nat,
{
    reveal_with_fuel(while_body, 1);
    reveal_with_fuel(block, 1);
    lemma_block_parse(toks, p, d);
}

proof fn lemma_return_parse(toks: Seq<TokenV>, p: nat, d: nat)
    ensures
        return_stmt(toks, p, d).0 matches Err(e) ==> e is Parse,
    decreases remaining(toks, p), 65nat,
{
    reveal_with_fuel(return_stmt, 1);
    reveal_with_fuel(expr, 1);
    lemma_expr_parse(toks, p, d);
}

proof fn lemma_block_parse(toks: Seq<TokenV>, p: nat, d: nat)
    ensures
        block(toks, p, d).0 matches Err(e) ==> e is Parse,
    decreases remaining(toks, p), 58nat,
{
    reveal_with_fuel(block, 1);
    reveal_with_fuel(block_items, 1);
    reveal(too_deep);
    reveal(expected);
    if d + 1 <= MAX_DEPTH && at(toks, p, Sym::LBrace) {
        lemma_block_items_parse(toks, p + 1, d + 1, Seq::empty());
    }
}

proof fn lemma_block_items_parse(toks: Seq<TokenV>, p: nat, d: nat, acc: Seq<StmtV>)
    ensures
        block_items(toks, p, d, acc).0 matches Err(e) ==> e is Parse,
    decreases remaining(toks, p), 61nat,
{
    reveal_with_fuel(block_items, 1);
    reveal_with_fuel(stmt, 1);
    if !(at(toks, p, Sym::RBrace) || at_eof(toks, p)) {
        lemma_stmt_parse(toks, p, d);
        let (r, c, d1) = stmt(toks, p, d);
        if r is Ok && c != 0 {
            lemma_block_items_parse(toks, p + c, d1, acc.push(r->Ok_0));
        }
    }
}

proof fn lemma_expr_parse(toks: Seq<TokenV>, p: nat, d: nat)
    ensures
        expr(toks, p, d).0 matches Err(e) ==> e is Parse,
    decreases remaining(toks, p), 50nat,
{
    reveal_with_fuel(expr, 1);
    reveal_with_fuel(assignment, 1);
    reveal(too_deep);
    if d + 1 <= MAX_DEPTH {
        lemma_assignment_parse(toks, p, d + 1);
    }
}

proof fn lemma_assignment_parse(toks: Seq<TokenV>, p: nat, d: nat)
    ensures
        assignment(toks, p, d).0 matches Err(e) ==> e is Parse,
    decreases remaining(toks, p), 49nat,
{
    reveal_with_fuel(assignment, 1);
    reveal_with_fuel(logic, 1);
    lemma_logic_parse(toks, p, d, LogicOp::Or);
    let (r, c, d1) = logic(toks, p, d, LogicOp::Or);
    if r is Ok && at(toks, p + c, Sym::Eq) {
        lemma_assignment_parse(toks, p + c + 1, d1);
    }
}

proof fn lemma_logic_parse(toks: Seq<TokenV>, p: nat, d: nat, op: LogicOp)
    ensures
        logic(toks, p, d, op).0 matches Err(e) ==> e is Parse,
    decreases remaining(toks, p), logic_rank(op),
{
    reveal_with_fuel(logic, 1);
    reveal_with_fuel(logic_operand, 1);
    reveal_with_fuel(logic_tail, 1);
    lemma_logic_operand_parse(toks, p, d, op);
    let (r, c, d1) = logic_operand(toks, p, d, op);
    if r is Ok {
        lemma_logic_tail_parse(toks, p + c, d1, op, r->Ok_0);
    }
}

proof fn lemma_logic_operand_parse(toks: Seq<TokenV>, p: nat, d: nat, op: LogicOp)
    ensures
        logic_operand(toks, p, d, op).0 matches Err(e) ==> e is Parse,
    decreases remaining(toks, p), (logic_rank(op) - 2) as nat,
{
    reveal_with_fuel(logic_operand, 1);
    reveal_with_fuel(logic, 1);
    reveal_with_fuel(binary, 1);
    match op {
        LogicOp::Or => lemma_logic_parse(toks, p, d, LogicOp::And),
        LogicOp::And => lemma_binary_parse(toks, p, d, 3),
    }
}

proof fn lemma_logic_tail_parse(toks: Seq<TokenV>, p: nat, d: nat, op: LogicOp, lhs: ExprV)
    ensures
        logic_tail(toks, p, d, op, lhs).0 matches Err(e) ==> e is Parse,
    decreases remaining(toks, p), (logic_rank(op) - 1) as nat,
{
    reveal_with_fuel(logic_tail, 1);
    reveal_with_fuel(logic_operand, 1);
    if at(toks, p, logic_sym(op)) {
        lemma_logic_operand_parse(toks, p + 1, d, op);
        let (r, c, d1) = logic_operand(toks, p + 1, d, op);
        if r is Ok {
            lemma_logic_tail_parse(
                toks,
                p + 1 + c,
                d1,
                op,
                ExprV::Logical(Box::new(lhs), op, Box::new(r->Ok_0)),
            );
        }
    }
}

proof fn lemma_binary_parse(toks: Seq<TokenV>, p: nat, d: nat, level: nat)
    ensures
        binary(toks, p, d, level).0 matches Err(e) ==> e is Parse,
    decreases remaining(toks, p), binary_rank(level),
{
    reveal_with_fuel(binary, 1);
    reveal_with_fuel(binary_operand, 1);
    reveal_with_fuel(binary_tail, 1);
    lemma_binary_operand_parse(toks, p, d, level);
    let (r, c, d1) = binary_operand(toks, p, d, level);
    if r is Ok {
        lemma_binary_tail_parse(toks, p + c, d1, level, r->Ok_0);
    }
}

proof fn lemma_binary_operand_parse(toks: Seq<TokenV>, p: nat, d: nat, level: nat)
    ensures
        binary_operand(toks, p, d, level).0 matches Err(e) ==> e is Parse,
    decreases remaining(toks, p), (binary_rank(level) - 2) as nat,
{
    reveal_with_fuel(binary_operand, 1);
    reveal_with_fuel(unary, 1);
    reveal_with_fuel(binary, 1);
    if level == 0 {
        lemma_unary_parse(toks, p, d);
    } else {
        lemma_binary_parse(toks, p, d, (level - 1) as nat);
    }
}

proof fn lemma_binary_tail_parse(toks: Seq<TokenV>, p: nat, d: nat, level: nat, lhs: ExprV)
    ensures
        binary_tail(toks, p, d, level, lhs).0 matches Err(e) ==> e is Parse,
    decreases remaining(toks, p), (binary_rank(level) - 1) as nat,
{
    reveal_with_fuel(binary_tail, 1);
    reveal_with_fuel(binary_operand, 1);
    match crate::grammar::binary_op_at(toks, p, level) {
        Some(op) => {
            lemma_binary_operand_parse(toks, p + 1, d, level);
            let (r, c, d1) = binary_operand(toks, p + 1, d, level);
            if r is Ok {
                lemma_binary_tail_parse(
                    toks,
                    p + 1 + c,
                    d1,
                    level,
                    ExprV::Binary(Box::new(lhs), op, Box::new(r->Ok_0)),
                );
            }
        },
        None => {},
    }
}

proof fn lemma_unary_parse(toks: Seq<TokenV>, p: nat, d: nat)
    ensures
        unary(toks, p, d).0 matches Err(e) ==> e is Parse,
    decreases remaining(toks, p), 15nat,
{
    reveal_with_fuel(unary, 1);
    reveal_with_fuel(call, 1);
    reveal(too_deep);
    if d + 1 <= MAX_DEPTH {
        if at(toks, p, Sym::Minus) || at(toks, p, Sym::Not) {
            lemma_unary_parse(toks, p + 1, d + 1);
        } else {
            lemma_call_parse(toks, p, d + 1);
        }
    }
}

proof fn lemma_call_parse(toks: Seq<TokenV>, p: nat, d: nat)
    ensures
        call(toks, p, d).0 matches Err(e) ==> e is Parse,
    decreases remaining(toks, p), 14nat,
{
    reveal_with_fuel(call, 1);
    reveal_with_fuel(primary, 1);
    reveal_with_fuel(call_tail, 1);
    lemma_primary_parse(toks, p, d);
    let (r, c, d1) = primary(toks, p, d);
    if r is Ok {
        lemma_call_tail_parse(toks, p + c, d1, r->Ok_0);
    }
}

proof fn lemma_call_tail_parse(toks: Seq<TokenV>, p: nat, d: nat, callee: ExprV)
    ensures
        call_tail(toks, p, d, callee).0 matches Err(e) ==> e is Parse,
    decreases remaining(toks, p), 13nat,
{
    reveal_with_fuel(call_tail, 1);
    reveal_with_fuel(args, 1);
    reveal(expected);
    if at(toks, p, Sym::LParen) {
        if !at(toks, p + 1, Sym::RParen) {
            lemma_args_parse(toks, p + 1, d, Seq::empty());
        }
        let (ra, ca, d1) = if at(toks, p + 1, Sym::RParen) {
            (Ok(Seq::<ExprV>::empty()), 0nat, d)
        } else {
            args(toks, p + 1, d, Seq::empty())
        };
        if ra is Ok && at(toks, p + 1 + ca, Sym::RParen) {
            lemma_call_tail_parse(toks, p + 2 + ca, d1, ExprV::Call(Box::new(callee), ra->Ok_0));
        }
    }
}

proof fn lemma_args_parse(toks: Seq<TokenV>, p: nat, d: nat, acc: Seq<ExprV>)
    ensures
        args(toks, p, d, acc).0 matches Err(e) ==> e is Parse,
    decreases remaining(toks, p), 51nat,
{
    reveal_with_fuel(args, 1);
    reveal_with_fuel(expr, 1);
    lemma_expr_parse(toks, p, d);
    let (r, c, d1) = expr(toks, p, d);
    if r is Ok && at(toks, p + c, Sym::Comma) {
        lemma_args_parse(toks, p + c + 1, d1, acc.push(r->Ok_0));
    }
}

proof fn lemma_primary_parse(toks: Seq<TokenV>, p: nat, d: nat)
    ensures
        primary(toks, p, d).0 matches Err(e) ==> e is Parse,
    decreases remaining(toks, p), 12nat,
{
    reveal_with_fuel(primary, 1);
    reveal_with_fuel(primary_inner, 1);
    reveal(too_deep);
    if d + 1 <= MAX_DEPTH {
        lemma_primary_inner_parse(toks, p, d + 1);
    }
}

proof fn lemma_primary_inner_parse(toks: Seq<TokenV>, p: nat, d: nat)
    ensures
        primary_inner(toks, p, d).0 matches Err(e) ==> e is Parse,
    decreases remaining(toks, p), 11nat,
{
    reveal_with_fuel(primary_inner, 1);
    reveal_with_fuel(expr, 1);
    reveal(expected);
    if tok_at(toks, p) == TokenV::Sym(Sym::LParen) {
        lemma_expr_parse(toks, p + 1, d);
    }
}

proof fn lemma_program_parse(toks: Seq<TokenV>, p: nat, d: nat, acc: Seq<StmtV>)
    ensures
        program_from(toks, p, d, acc).0 matches Err(e) ==> e is Parse,
    decreases remaining(toks, p),
{
    reveal_with_fuel(program_from, 1);
    reveal_with_fuel(stmt, 1);
    if !at_eof(toks, p) {
        lemma_stmt_parse(toks, p, d);
        let (r, c, d1) = stmt(toks, p, d);
        if r is Ok && c != 0 {
            lemma_program_parse(toks, p + c, d1, acc.push(r->Ok_0));
        }
    }
}

/// No token from `p` up to `p + c` is `Eof`.
pub open spec fn reads(toks: Seq<TokenV>, p: nat, c: nat) -> bool {
    forall|i: nat| p <= i < p + c ==> !(#[trigger] tok_at(toks, i) is Eof)
}

proof fn lemma_params_reads(toks: Seq<TokenV>, p: nat, acc: Seq<Seq<char>>)
    ensures
        reads(toks, p, params_from(toks, p, acc).1),
    decreases remaining(toks, p),
{
    if let Ok(n) = ident_at(toks, p) {
        if at(toks, p + 1, Sym::Comma) {
            lemma_params_reads(toks, p + 2, acc.push(n));
        }
    }
}

proof fn lemma_stmt_reads(toks: Seq<TokenV>, p: nat, d: nat)
    ensures
        reads(toks, p, stmt(toks, p, d).1),
        stmt(toks, p, d).0 is Ok ==> stmt(toks, p, d).1 >= 1,
    decreases remaining(toks, p), 60nat,
{
    reveal_with_fuel(stmt, 1);
    reveal_with_fuel(stmt_inner, 1);
    if d + 1 <= MAX_DEPTH {
        lemma_stmt_inner_reads(toks, p, d + 1);
    }
}

proof fn lemma_stmt_inner_reads(toks: Seq<TokenV>, p: nat, d: nat)
    ensures
        reads(toks, p, stmt_inner(toks, p, d).1),
        stmt_inner(toks, p, d).0 is Ok ==> stmt_inner(toks, p, d).1 >= 1,
    decreases remaining(toks, p), 59nat,
{
    reveal_with_fuel(stmt_inner, 1);
    reveal_with_fuel(let_stmt, 1);
    reveal_with_fuel(fn_decl, 1);
    reveal_with_fuel(if_stmt, 1);
    reveal_with_fuel(while_stmt, 1);
    reveal_with_fuel(return_stmt, 1);
    reveal_with_fuel(block, 1);
    reveal_with_fuel(expr, 1);
    match tok_at(toks, p) {
        TokenV::Sym(Sym::Let) => lemma_let_reads(toks, p + 1, d),
        TokenV::Sym(Sym::Fn) => lemma_fn_decl_reads(toks, p + 1, d),
        TokenV::Sym(Sym::If) => lemma_if_reads(toks, p + 1, d),
        TokenV::Sym(Sym::While) => lemma_while_reads(toks, p + 1, d),
        TokenV::Sym(Sym::Return) => lemma_return_reads(toks, p + 1, d),
        TokenV::Sym(Sym::LBrace) => lemma_block_reads(toks, p, d),
        _ => lemma_expr_reads(toks, p, d),
    }
}

#[verifier::spinoff_prover]
proof fn lemma_let_reads(toks: Seq<TokenV>, p: nat, d: nat)
    ensures
        reads(toks, p, let_stmt(toks, p, d).1),
    decreases remaining(toks, p), 65nat,
{
    reveal_with_fuel(let_stmt, 1);
    reveal_with_fuel(expr, 1);
    if ident_at(toks, p) is Ok && at(toks, p + 1, Sym::Eq) {
        lemma_expr_reads(toks, p + 2, d);
        let c = expr(toks, p + 2, d).1;
        assert(!(tok_at(toks, p) is Eof));
        assert(!(tok_at(toks, p + 1) is Eof));
        assert(reads(toks, p, 2 + c));
    }
}

proof fn lemma_fn_decl_reads(toks: Seq<TokenV>, p: nat, d: nat)
    ensures
        reads(toks, p, fn_decl(toks, p, d).1),
    decreases remaining(toks, p), 65nat,
{
    reveal_with_fuel(fn_decl, 1);
    reveal_with_fuel(block, 1);
    lemma_params_reads(toks, p + 2, Seq::empty());
    if ident_at(toks, p) is Ok && at(toks, p + 1, Sym::LParen) {
        let (pr, pc) = params(toks, p + 2);
        if pr is Ok && at(toks, p + 2 + pc, Sym::RParen) {
            lemma_block_reads(toks, p + 3 + pc, d);
        }
    }
}

proof fn lemma_if_reads(toks: Seq<TokenV>, p: nat, d: nat)
    ensures
        reads(toks, p, if_stmt(toks, p, d).1),
    decreases remaining(toks, p), 65nat,
{
    reveal_with_fuel(if_stmt, 1);
    reveal_with_fuel(expr, 1);
    reveal_with_fuel(if_branches, 1);
    lemma_expr_reads(toks, p, d);
    let (r, c, d1) = expr(toks, p, d);
    if r is Ok {
        lemma_if_branches_reads(toks, p + c, d1, r->Ok_0);
    }
}

proof fn lemma_if_branches_reads(toks: Seq<TokenV>, p: nat, d: nat, cond: ExprV)
    ensures
        reads(toks, p, if_branches(toks, p, d, cond).1),
    decreases remaining(toks, p), 64nat,
{
    reveal_with_fuel(if_branches, 1);
    reveal_with_fuel(block, 1);
    reveal_with_fuel(else_branch, 1);
    lemma_block_reads(toks, p, d);
    let (r, c, d1) = block(toks, p, d);
    if r is Ok {
        lemma_else_reads(toks, p + c, d1);
    }
}

proof fn lemma_else_reads(toks: Seq<TokenV>, p: nat, d: nat)
    ensures
        reads(toks, p, else_branch(toks, p, d).1),
    decreases remaining(toks, p), 62nat,
{
    reveal_with_fuel(else_branch, 1);
    reveal_with_fuel(stmt, 1);
    reveal_with_fuel(block, 1);
    if at(toks, p, Sym::Else) {
        if at(toks, p + 1, Sym::If) {
            lemma_stmt_reads(toks, p + 1, d);
        } else {
            lemma_block_reads(toks, p + 1, d);
        }
    }
}

proof fn lemma_while_reads(toks: Seq<TokenV>, p: nat, d: nat)
    ensures
        reads(toks, p, while_stmt(toks, p, d).1),
    decreases remaining(toks, p), 65nat,
{
    reveal_with_fuel(while_stmt, 1);
    reveal_with_fuel(expr, 1);
    reveal_with_fuel(while_body, 1);
    lemma_expr_reads(toks, p, d);
    let (r, c, d1) = expr(toks, p, d);
    if r is Ok {
        lemma_while_body_reads(toks, p + c, d1, r->Ok_0);
    }
}

proof fn lemma_while_body_reads(toks: Seq<TokenV>, p: nat, d: nat, cond: ExprV)
    ensures
        reads(toks, p, while_body(toks, p, d, cond).1),
    decreases remaining(toks, p), 64nat,
{
    reveal_with_fuel(while_body, 1);
    reveal_with_fuel(block, 1);
    lemma_block_reads(toks, p, d);
}

proof fn lemma_return_reads(toks: Seq<TokenV>, p: nat, d: nat)
    ensures
        reads(toks, p, return_stmt(toks, p, d).1),
    decreases remaining(toks, p), 65nat,
{
    reveal_with_fuel(return_stmt, 1);
    reveal_with_fuel(expr, 1);
    lemma_expr_reads(toks, p, d);
}

proof fn lemma_block_reads(toks: Seq<TokenV>, p: nat, d: nat)
    ensures
        reads(toks, p, block(toks, p, d).1),
        block(toks, p, d).0 is Ok ==> block(toks, p, d).1 >= 1,
    decreases remaining(toks, p), 58nat,
{
    reveal_with_fuel(block, 1);
    reveal_with_fuel(block_items, 1);
    if d + 1 <= MAX_DEPTH && at(toks, p, Sym::LBrace) {
        lemma_block_items_reads(toks, p + 1, d + 1, Seq::empty());
    }
}

proof fn lemma_block_items_reads(toks: Seq<TokenV>, p: nat, d: nat, acc: Seq<StmtV>)
    ensures
        reads(toks, p, block_items(toks, p, d, acc).1),
    decreases remaining(toks, p), 61nat,
{
    reveal_with_fuel(block_items, 1);
    reveal_with_fuel(stmt, 1);
    if !(at(toks, p, Sym::RBrace) || at_eof(toks, p)) {
        lemma_stmt_reads(toks, p, d);
        let (r, c, d1) = stmt(toks, p, d);
        if r is Ok && c != 0 {
            lemma_block_items_reads(toks, p + c, d1, acc.push(r->Ok_0));
        }
    }
}

proof fn lemma_expr_reads(toks: Seq<TokenV>, p: nat, d: nat)
    ensures
        reads(toks, p, expr(toks, p, d).1),
        expr(toks, p, d).0 is Ok ==> expr(toks, p, d).1 >= 1,
    decreases remaining(toks, p), 50nat,
{
    reveal_with_fuel(expr, 1);
    reveal_with_fuel(assignment, 1);
    if d + 1 <= MAX_DEPTH {
        lemma_assignment_reads(toks, p, d + 1);
    }
}

proof fn lemma_assignment_reads(toks: Seq<TokenV>, p: nat, d: nat)
    ensures
        reads(toks, p, assignment(toks, p, d).1),
        assignment(toks, p, d).0 is Ok ==> assignment(toks, p, d).1 >= 1,
    decreases remaining(toks, p), 49nat,
{
    reveal_with_fuel(assignment, 1);
    reveal_with_fuel(logic, 1);
    lemma_logic_reads(toks, p, d, LogicOp::Or);
    let (r, c, d1) = logic(toks, p, d, LogicOp::Or);
    if r is Ok && at(toks, p + c, Sym::Eq) {
        lemma_assignment_reads(toks, p + c + 1, d1);
    }
}

proof fn lemma_logic_reads(toks: Seq<TokenV>, p: nat, d: nat, op: LogicOp)
    ensures
        reads(toks, p, logic(toks, p, d, op).1),
        logic(toks, p, d, op).0 is Ok ==> logic(toks, p, d, op).1 >= 1,
    decreases remaining(toks, p), logic_rank(op),
{
    reveal_with_fuel(logic, 1);
    reveal_with_fuel(logic_operand, 1);
    reveal_with_fuel(logic_tail, 1);
    lemma_logic_operand_reads(toks, p, d, op);
    let (r, c, d1) = logic_operand(toks, p, d, op);
    if r is Ok {
        lemma_logic_tail_reads(toks, p + c, d1, op, r->Ok_0);
    }
}

proof fn lemma_logic_operand_reads(toks: Seq<TokenV>, p: nat, d: nat, op: LogicOp)
    ensures
        reads(toks, p, logic_operand(toks, p, d, op).1),
        logic_operand(toks, p, d, op).0 is Ok ==> logic_operand(toks, p, d, op).1 >= 1,
    decreases remaining(toks, p), (logic_rank(op) - 2) as nat,
{
    reveal_with_fuel(logic_operand, 1);
    reveal_with_fuel(logic, 1);
    reveal_with_fuel(binary, 1);
    match op {
        LogicOp::Or => lemma_logic_reads(toks, p, d, LogicOp::And),
        LogicOp::And => lemma_binary_reads(toks, p, d, 3),
    }
}

proof fn lemma_logic_tail_reads(toks: Seq<TokenV>, p: nat, d: nat, op: LogicOp, lhs: ExprV)
    ensures
        reads(toks, p, logic_tail(toks, p, d, op, lhs).1),
    decreases remaining(toks, p), (logic_rank(op) - 1) as nat,
{
    reveal_with_fuel(logic_tail, 1);
    reveal_with_fuel(logic_operand, 1);
    if at(toks, p, logic_sym(op)) {
        lemma_logic_operand_reads(toks, p + 1, d, op);
        let (r, c, d1) = logic_operand(toks, p + 1, d, op);
        if r is Ok {
            lemma_logic_tail_reads(
                toks,
                p + 1 + c,
                d1,
                op,
                ExprV::Logical(Box::new(lhs), op, Box::new(r->Ok_0)),
            );
        }
    }
}

proof fn lemma_binary_reads(toks: Seq<TokenV>, p: nat, d: nat, level: nat)
    ensures
        reads(toks, p, binary(toks, p, d, level).1),
        binary(toks, p, d, level).0 is Ok ==> binary(toks, p, d, level).1 >= 1,
    decreases remaining(toks, p), binary_rank(level),
{
    reveal_with_fuel(binary, 1);
    reveal_with_fuel(binary_operand, 1);
    reveal_with_fuel(binary_tail, 1);
    lemma_binary_operand_reads(toks, p, d, level);
    let (r, c, d1) = binary_operand(toks, p, d, level);
    if r is Ok {
        lemma_binary_tail_reads(toks, p + c, d1, level, r->Ok_0);
    }
}

proof fn lemma_binary_operand_reads(toks: Seq<TokenV>, p: nat, d: nat, level: nat)
    ensures
        reads(toks, p, binary_operand(toks, p, d, level).1),
        binary_operand(toks, p, d, level).0 is Ok ==> binary_operand(toks, p, d, level).1 >= 1,
    decreases remaining(toks, p), (binary_rank(level) - 2) as nat,
{
    reveal_with_fuel(binary_operand, 1);
    reveal_with_fuel(unary, 1);
    reveal_with_fuel(binary, 1);
    if level == 0 {
        lemma_unary_reads(toks, p, d);
    } else {
        lemma_binary_reads(toks, p, d, (level - 1) as nat);
    }
}

proof fn lemma_binary_tail_reads(toks: Seq<TokenV>, p: nat, d: nat, level: nat, lhs: ExprV)
    ensures
        reads(toks, p, binary_tail(toks, p, d, level, lhs).1),
    decreases remaining(toks, p), (binary_rank(level) - 1) as nat,
{
    reveal_with_fuel(binary_tail, 1);
    reveal_with_fuel(binary_operand, 1);
    match crate::grammar::binary_op_at(toks, p, level) {
        Some(op) => {
            lemma_binary_operand_reads(toks, p + 1, d, level);
            let (r, c, d1) = binary_operand(toks, p + 1, d, level);
            if r is Ok {
                lemma_binary_tail_reads(
                    toks,
                    p + 1 + c,
                    d1,
                    level,
                    ExprV::Binary(Box::new(lhs), op, Box::new(r->Ok_0)),
                );
            }
        },
        None => {},
    }
}

proof fn lemma_unary_reads(toks: Seq<TokenV>, p: nat, d: nat)
    ensures
        reads(toks, p, unary(toks, p, d).1),
        unary(toks, p, d).0 is Ok ==> unary(toks, p, d).1 >= 1,
    decreases remaining(toks, p), 15nat,
{
    reveal_with_fuel(unary, 1);
    reveal_with_fuel(call, 1);
    if d + 1 <= MAX_DEPTH {
        if at(toks, p, Sym::Minus) || at(toks, p, Sym::Not) {
            lemma_unary_reads(toks, p + 1, d + 1);
        } else {
            lemma_call_reads(toks, p, d + 1);
        }
    }
}

proof fn lemma_call_reads(toks: Seq<TokenV>, p: nat, d: nat)
    ensures
        reads(toks, p, call(toks, p, d).1),
        call(toks, p, d).0 is Ok ==> call(toks, p, d).1 >= 1,
    decreases remaining(toks, p), 14nat,
{
    reveal_with_fuel(call, 1);
    reveal_with_fuel(primary, 1);
    reveal_with_fuel(call_tail, 1);
    lemma_primary_reads(toks, p, d);
    let (r, c, d1) = primary(toks, p, d);
    if r is Ok {
        lemma_call_tail_reads(toks, p + c, d1, r->Ok_0);
    }
}

proof fn lemma_call_tail_reads(toks: Seq<TokenV>, p: nat, d: nat, callee: ExprV)
    ensures
        reads(toks, p, call_tail(toks, p, d, callee).1),
    decreases remaining(toks, p), 13nat,
{
    reveal_with_fuel(call_tail, 1);
    reveal_with_fuel(args, 1);
    if at(toks, p, Sym::LParen) {
        if !at(toks, p + 1, Sym::RParen) {
            lemma_args_reads(toks, p + 1, d, Seq::empty());
        }
        let (ra, ca, d1) = if at(toks, p + 1, Sym::RParen) {
            (Ok(Seq::<ExprV>::empty()), 0nat, d)
        } else {
            args(toks, p + 1, d, Seq::empty())
        };
        if ra is Ok && at(toks, p + 1 + ca, Sym::RParen) {
            lemma_call_tail_reads(toks, p + 2 + ca, d1, ExprV::Call(Box::new(callee), ra->Ok_0));
        }
    }
}

proof fn lemma_args_reads(toks: Seq<TokenV>, p: nat, d: nat, acc: Seq<ExprV>)
    ensures
        reads(toks, p, args(toks, p, d, acc).1),
        args(toks, p, d, acc).0 is Ok ==> args(toks, p, d, acc).1 >= 1,
    decreases remaining(toks, p), 51nat,
{
    reveal_with_fuel(args, 1);
    reveal_with_fuel(expr, 1);
    lemma_expr_reads(toks, p, d);
    let (r, c, d1) = expr(toks, p, d);
    if r is Ok && at(toks, p + c, Sym::Comma) {
        lemma_args_reads(toks, p + c + 1, d1, acc.push(r->Ok_0));
    }
}

proof fn lemma_primary_reads(toks: Seq<TokenV>, p: nat, d: nat)
    ensures
        reads(toks, p, primary(toks, p, d).1),
        primary(toks, p, d).0 is Ok ==> primary(toks, p, d).1 >= 1,
    decreases remaining(toks, p), 12nat,
{
    reveal_with_fuel(primary, 1);
    reveal_with_fuel(primary_inner, 1);
    if d + 1 <= MAX_DEPTH {
        lemma_primary_inner_reads(toks, p, d + 1);
    }
}

proof fn lemma_primary_inner_reads(toks: Seq<TokenV>, p: nat, d: nat)
    ensures
        reads(toks, p, primary_inner(toks, p, d).1),
        primary_inner(toks, p, d).0 is Ok ==> primary_inner(toks, p, d).1 >= 1,
    decreases remaining(toks, p), 11nat,
{
    reveal_with_fuel(primary_inner, 1);
    reveal_with_fuel(expr, 1);
    if tok_at(toks, p) == TokenV::Sym(Sym::LParen) {
        lemma_expr_reads(toks, p + 1, d);
    }
}

pub(crate) proof fn lemma_program_reads(toks: Seq<TokenV>, p: nat, d: nat, acc: Seq<StmtV>)
    ensures
        reads(toks, p, program_from(toks, p, d, acc).1),
        program_from(toks, p, d, acc).0 matches Ok(stmts) ==> at_eof(toks, p + program_from(toks, p, d, acc).1)
            && stmts.len() <= acc.len() + program_from(toks, p, d, acc).1,
    decreases remaining(toks, p),
{
    reveal_with_fuel(program_from, 1);
    reveal_with_fuel(stmt, 1);
    if !at_eof(toks, p) {
        lemma_stmt_reads(toks, p, d);
        let (r, c, d1) = stmt(toks, p, d);
        if r is Ok && c != 0 {
            lemma_program_reads(toks, p + c, d1, acc.push(r->Ok_0));
        }
    }
}

/// A parse that succeeds reads every token before the first `Eof` and
/// stops there, and gives no more statements than the tokens it read:
/// every statement consumes at least one token.
pub proof fn parsing_reads_up_to_the_first_eof(toks: Seq<TokenV>)
    ensures
        program(toks) matches Ok(stmts) ==> {
            let c = program_from(toks, 0, 0, Seq::empty()).1;
            &&& at_eof(toks, c)
            &&& forall|i: nat| i < c ==> !(#[trigger] tok_at(toks, i) is Eof)
            &&& stmts.len() <= c <= toks.len()
        },
{
    lemma_program_reads(toks, 0, 0, Seq::empty());
    let c = program_from(toks, 0, 0, Seq::empty()).1;
    if c > toks.len() {
        assert(!(tok_at(toks, toks.len() as nat) is Eof));
    }
}

/// Parsing a token sequence reports only parse errors.
pub proof fn parsing_reports_only_parse_errors(toks: Seq<TokenV>)
    ensures
        program(toks) matches Err(e) ==> e is Parse,
{
    lemma_program_parse(toks, 0, 0, Seq::empty());
}

/// The error `eval` reports names the stage that failed: a lexical error
/// exactly when the text does not read as tokens, a parse error exactly
/// when the tokens do not form a program, and a runtime error otherwise.
pub proof fn errors_name_their_stage(src: Seq<char>)
    ensures
        eval_source(src) matches Err(e) ==> (e is Lex <==> lex(src) is Err),
        eval_source(src) matches Err(e) ==> (e is Parse <==> (lex(src) is Ok && program(lex(src)->Ok_0) is Err)),
        eval_source(src) matches Err(e) ==> (e is Runtime <==> (lex(src) is Ok && program(lex(src)->Ok_0) is Ok)),
{
    lexing_reports_only_lexical_errors(src);
    if lex(src) is Ok {
        let toks = lex(src)->Ok_0;
        parsing_reports_only_parse_errors(toks);
        if program(toks) is Ok {
            running_reports_only_runtime_errors(crate::semantics::initial_heap(), 0, program(toks)->Ok_0);
        }
    }
}

// ---------------------------------------------------------------------
// The values numbers stand for
// ---------------------------------------------------------------------

/// The significand step of binary64: 2^52.
pub open spec fn unit() -> int {
    0x10_0000_0000_0000
}

/// What the magnitude bits `m` of a binary64 value stand for, as a multiple
/// of the smallest subnormal 2^-1074: a subnormal (exponent field 0) is its
/// fraction field, a normal value is (2^52 + fraction) * 2^(exponent - 1).
/// The all-ones exponent field (infinity) follows the same formula and so
/// lies beyond every finite value.
pub open spec fn scaled_magnitude(m: nat) -> int {
    let e = m / (unit() as nat);
    let f = m % (unit() as nat);
    if e == 0 {
        f as int
    } else {
        (unit() + f) * vstd::arithmetic::power2::pow2((e - 1) as nat)
    }
}

/// The value of a number times 2^1074, an exact integer.
pub open spec fn scaled_value(b: u64) -> int {
    if is_negative(b) {
        -scaled_magnitude(magnitude(b) as nat)
    } else {
        scaled_magnitude(magnitude(b) as nat)
    }
}

/// More magnitude bits stand for a larger value.
proof fn lemma_scaled_increasing(m1: nat, m2: nat)
    requires
        m1 < m2,
    ensures
        0 <= scaled_magnitude(m1) < scaled_magnitude(m2),
{
    let u = unit() as nat;
    let e1 = m1 / u;
    let f1 = m1 % u;
    let e2 = m2 / u;
    let f2 = m2 % u;
    assert(m1 == e1 * u + f1 && f1 < u) by (nonlinear_arith)
        requires
            u > 0,
            e1 == m1 / u,
            f1 == m1 % u,
    ;
    assert(m2 == e2 * u + f2 && f2 < u) by (nonlinear_arith)
        requires
            u > 0,
            e2 == m2 / u,
            f2 == m2 % u,
    ;
    assert(e1 <= e2) by (nonlinear_arith)
        requires
            m1 == e1 * u + f1,
            m2 == e2 * u + f2,
            f1 < u,
            f2 < u,
            m1 < m2,
            u > 0,
    ;
    vstd::arithmetic::power2::lemma2_to64();
    if e1 >= 1 {
        vstd::arithmetic::power2::lemma_pow2_pos((e1 - 1) as nat);
        assert(scaled_magnitude(m1) >= 0) by (nonlinear_arith)
            requires
                scaled_magnitude(m1) == (u + f1) * vstd::arithmetic::power2::pow2((e1 - 1) as nat),
                vstd::arithmetic::power2::pow2((e1 - 1) as nat) > 0,
        ;
    }
    if e1 == e2 {
        assert(f1 < f2) by (nonlinear_arith)
            requires
                m1 == e1 * u + f1,
                m2 == e2 * u + f2,
                e1 == e2,
                m1 < m2,
        ;
        if e1 >= 1 {
            let q = vstd::arithmetic::power2::pow2((e1 - 1) as nat);
            assert((u + f1) * q < (u + f2) * q) by (nonlinear_arith)
                requires
                    f1 < f2,
                    q > 0,
            ;
        }
    } else {
        let q2 = vstd::arithmetic::power2::pow2((e2 - 1) as nat);
        vstd::arithmetic::power2::lemma_pow2_pos((e2 - 1) as nat);
        assert(scaled_magnitude(m2) >= u * q2) by (nonlinear_arith)
            requires
                scaled_magnitude(m2) == (u + f2) * q2,
                q2 > 0,
        ;
        if e1 == 0 {
            assert(u <= u * q2) by (nonlinear_arith)
                requires
                    q2 >= 1,
            ;
        } else {
            let q1 = vstd::arithmetic::power2::pow2((e1 - 1) as nat);
            vstd::arithmetic::power2::lemma_pow2_unfold(e1);
            if e1 < e2 - 1 {
                vstd::arithmetic::power2::lemma_pow2_strictly_increases(e1, (e2 - 1) as nat);
            }
            let p1 = vstd::arithmetic::power2::pow2(e1);
            assert(p1 <= q2);
            assert((u + f1) * q1 < u * p1) by (nonlinear_arith)
                requires
                    f1 < u,
                    q1 > 0,
                    p1 == 2 * q1,
            ;
            assert(u * p1 <= u * q2) by (nonlinear_arith)
                requires
                    p1 <= q2,
                    u > 0,
            ;
        }
    }
}

/// Zero magnitude bits stand for zero, and any others for a positive value.
proof fn lemma_scaled_zero(m: nat)
    ensures
        m == 0 ==> scaled_magnitude(m) == 0,
        m > 0 ==> scaled_magnitude(m) > 0,
{
    if m > 0 {
        lemma_scaled_increasing(0, m);
    }
}

/// The order of numbers is the order of the values they stand for: NaN is
/// unordered, and otherwise `a` is less than `b` exactly when its value is
/// smaller (so -5 < -3 and -0 == 0). The comparison operators follow it.
pub proof fn numbers_are_ordered_by_value(a: u64, b: u64)
    ensures
        num_order(a, b) is None <==> (is_nan(a) || is_nan(b)),
        !is_nan(a) && !is_nan(b) ==> {
            &&& (num_order(a, b) == Some(Order::Less)) == (scaled_value(a) < scaled_value(b))
            &&& (num_order(a, b) == Some(Order::Equal)) == (scaled_value(a) == scaled_value(b))
            &&& (num_order(a, b) == Some(Order::Greater)) == (scaled_value(a) > scaled_value(b))
            &&& binary_value(BinOp::Lt, ValueV::Number(a), ValueV::Number(b))
                == Ok::<ValueV, ErrorV>(ValueV::Bool(scaled_value(a) < scaled_value(b)))
            &&& binary_value(BinOp::Gt, ValueV::Number(a), ValueV::Number(b))
                == Ok::<ValueV, ErrorV>(ValueV::Bool(scaled_value(a) > scaled_value(b)))
            &&& binary_value(BinOp::LtEq, ValueV::Number(a), ValueV::Number(b))
                == Ok::<ValueV, ErrorV>(ValueV::Bool(scaled_value(a) <= scaled_value(b)))
            &&& binary_value(BinOp::GtEq, ValueV::Number(a), ValueV::Number(b))
                == Ok::<ValueV, ErrorV>(ValueV::Bool(scaled_value(a) >= scaled_value(b)))
        },
{
    let ma = magnitude(a) as nat;
    let mb = magnitude(b) as nat;
    lemma_scaled_zero(ma);
    lemma_scaled_zero(mb);
    if ma < mb {
        lemma_scaled_increasing(ma, mb);
    } else if mb < ma {
        lemma_scaled_increasing(mb, ma);
    }
}

/// Two numbers are equal exactly when neither is NaN and they stand for the
/// same value.
pub proof fn numbers_are_equal_by_value(a: u64, b: u64)
    ensures
        num_eq(a, b) <==> (!is_nan(a) && !is_nan(b) && scaled_value(a) == scaled_value(b)),
{
    numbers_are_ordered_by_value(a, b);
}

/// `-x` flips the sign and keeps the magnitude: negating twice gives the
/// number back, and the value of `-x` is minus the value of `x`.
pub proof fn negation_flips_the_sign(b: u64)
    ensures
        negated(negated(b)) == b,
        is_negative(negated(b)) != is_negative(b),
        magnitude(negated(b)) == magnitude(b),
        scaled_value(negated(b)) == -scaled_value(b),
        is_nan(negated(b)) == is_nan(b),
{
    assert(SIGN_BIT == 0x8000_0000_0000_0000u64);
    if b >= SIGN_BIT {
        assert(magnitude(b) == b - SIGN_BIT);
        assert(magnitude((b - SIGN_BIT) as u64) == b - SIGN_BIT);
    } else {
        assert(magnitude(b) == b);
        assert(magnitude((b + SIGN_BIT) as u64) == b);
    }
}

/// Equality compares contents: strings are equal exactly when they hold the
/// same characters, booleans when they are the same, `nil` equals `nil`,
/// functions are equal when they are the same function, and numbers when
/// they stand for the same value and neither is NaN.
pub proof fn equality_compares_contents(a: ValueV, b: ValueV)
    ensures
        a is Str && b is Str ==> (equal_values(a, b) <==> a == b),
        a is Bool && b is Bool ==> (equal_values(a, b) <==> a == b),
        a is Nil && b is Nil ==> equal_values(a, b),
        a is Function && b is Function ==> (equal_values(a, b) <==> a->Function_0 == b->Function_0),
        a is Number && b is Number ==> (equal_values(a, b) <==> (!is_nan(a->Number_0) && !is_nan(b->Number_0)
            && scaled_value(a->Number_0) == scaled_value(b->Number_0))),
        binary_value(BinOp::Eq, a, b) == Ok::<ValueV, ErrorV>(ValueV::Bool(equal_values(a, b))),
{
    if a is Number && b is Number {
        numbers_are_equal_by_value(a->Number_0, b->Number_0);
    }
}

/// NaN is unordered: `<`, `>`, `<=` and `>=` with a NaN on either side fail
/// with "cannot compare NaN".
pub proof fn nan_cannot_be_compared(op: BinOp, a: u64, b: u64)
    requires
        op == BinOp::Lt || op == BinOp::Gt || op == BinOp::LtEq || op == BinOp::GtEq,
        is_nan(a) || is_nan(b),
    ensures
        binary_value(op, ValueV::Number(a), ValueV::Number(b)) == Err::<ValueV, ErrorV>(
            runtime("cannot compare NaN"@),
        ),
{
    numbers_are_ordered_by_value(a, b);
}

/// A call gives what its body returns, each parameter standing for the
/// argument in its position: with distinct parameter names, a body
/// `return p` gives the argument bound to `p`, and a body that ends without
/// `return` (here one that only reads `p`) gives `nil`.
pub proof fn calls_give_the_returned_value(h: HeapV, d: nat, id: nat, vs: Seq<ValueV>, i: int)
    requires
        id < h.funs.len(),
        vs.len() == h.funs[id as int].params.len(),
        d + 1 <= MAX_CALL_DEPTH,
        0 <= i < vs.len(),
        forall|j: int, k: int| 0 <= j < k < vs.len() ==> h.funs[id as int].params[j] != h.funs[id as int].params[k],
    ensures
        h.funs[id as int].body == seq![StmtV::Return(Some(ExprV::Ident(h.funs[id as int].params[i])))]
            ==> call_function(h, d, id, vs).0 == Ok::<ValueV, ErrorV>(vs[i]),
        h.funs[id as int].body == seq![StmtV::Expr(ExprV::Ident(h.funs[id as int].params[i]))]
            ==> call_function(h, d, id, vs).0 == Ok::<ValueV, ErrorV>(ValueV::Nil),
{
    let f = h.funs[id as int];
    let ps = f.params;
    parameters_bind_in_order(ps, vs);
    let n = h.scopes.len();
    let h1 = push_scope(h, crate::semantics::bind_params(ps, vs), f.closure);
    assert(h1.scopes[n as int].vars.contains_key(ps[i]));
    assert(lookup(h1, n, ps[i]) == Some(vs[i]));
    reveal_with_fuel(call_function, 1);
    reveal_with_fuel(exec_block, 1);
    reveal_with_fuel(exec_stmts, 2);
    reveal_with_fuel(exec_stmt, 1);
    reveal_with_fuel(eval_expr, 1);
    reveal(crate::semantics::declares);
    let b = f.body;
    if b == seq![StmtV::Return(Some(ExprV::Ident(ps[i])))] {
        assert(!crate::semantics::declares(b));
        assert(b.drop_last() =~= Seq::<StmtV>::empty());
        assert(exec_stmt(h1, n, d + 1, b.last()) == (Ok::<SignalV, ErrorV>(SignalV::Return(vs[i])), h1, d + 1));
        assert(exec_block(h1, n, d + 1, b) == (Ok::<SignalV, ErrorV>(SignalV::Return(vs[i])), h1, d + 1));
    }
    if b == seq![StmtV::Expr(ExprV::Ident(ps[i]))] {
        assert(!crate::semantics::declares(b));
        assert(b.drop_last() =~= Seq::<StmtV>::empty());
        assert(exec_stmt(h1, n, d + 1, b.last()) == (Ok::<SignalV, ErrorV>(SignalV::Normal(vs[i])), h1, d + 1));
        assert(exec_block(h1, n, d + 1, b) == (Ok::<SignalV, ErrorV>(SignalV::Normal(vs[i])), h1, d + 1));
    }
}

/// Only parameters are bound when a call starts.
proof fn lemma_bound_names(ps: Seq<Seq<char>>, vs: Seq<ValueV>)
    ensures
        forall|k: Seq<char>| #[trigger] crate::semantics::bind_params(ps, vs).contains_key(k) ==> ps.contains(k),
    decreases ps.len(),
{
    if ps.len() > 0 && vs.len() > 0 {
        lemma_bound_names(ps.drop_last(), vs.drop_last());
        let before = crate::semantics::bind_params(ps.drop_last(), vs.drop_last());
        assert(crate::semantics::bind_params(ps, vs) == before.insert(ps.last(), vs.last()));
        assert forall|k: Seq<char>| #[trigger] crate::semantics::bind_params(ps, vs).contains_key(k) implies ps.contains(
            k,
        ) by {
            if k != ps.last() {
                assert(before.contains_key(k));
                assert(ps.drop_last().contains(k));
                let j = choose|j: int| 0 <= j < ps.drop_last().len() && ps.drop_last()[j] == k;
                assert(ps[j] == k);
            } else {
                assert(ps[ps.len() - 1] == k);
            }
        }
    }
}

/// A function sees the scope it was declared in: a body `return x`, for a
/// name `x` that is no parameter, gives what `x` holds in that scope.
pub proof fn calls_see_the_defining_scope(h: HeapV, d: nat, id: nat, vs: Seq<ValueV>, x: Seq<char>)
    requires
        id < h.funs.len(),
        vs.len() == h.funs[id as int].params.len(),
        d + 1 <= MAX_CALL_DEPTH,
        h.funs[id as int].closure < h.scopes.len(),
        !h.funs[id as int].params.contains(x),
        h.funs[id as int].body == seq![StmtV::Return(Some(ExprV::Ident(x)))],
    ensures
        call_function(h, d, id, vs).0 == match lookup(h, h.funs[id as int].closure, x) {
            Some(v) => Ok::<ValueV, ErrorV>(v),
            None => Err::<ValueV, ErrorV>(crate::semantics::undefined_variable(x)),
        },
{
    let f = h.funs[id as int];
    lemma_bound_names(f.params, vs);
    let n = h.scopes.len();
    let h1 = push_scope(h, crate::semantics::bind_params(f.params, vs), f.closure);
    assert(!h1.scopes[n as int].vars.contains_key(x));
    lemma_lookup_below(h, h1, n, f.closure, x);
    assert(lookup(h1, n, x) == lookup(h, f.closure, x));
    reveal_with_fuel(call_function, 1);
    reveal_with_fuel(exec_block, 1);
    reveal_with_fuel(exec_stmts, 2);
    reveal_with_fuel(exec_stmt, 1);
    reveal_with_fuel(eval_expr, 1);
    reveal(crate::semantics::declares);
    let b = f.body;
    assert(!crate::semantics::declares(b));
    assert(b.drop_last() =~= Seq::<StmtV>::empty());
}

/// Each parameter of a call is bound to the argument in its position: with
/// distinct names, the `i`-th name maps to the `i`-th value, and no other
/// name is bound.
pub proof fn parameters_bind_in_order(ps: Seq<Seq<char>>, vs: Seq<ValueV>)
    requires
        ps.len() == vs.len(),
        forall|i: int, j: int| 0 <= i < j < ps.len() ==> ps[i] != ps[j],
    ensures
        forall|i: int| 0 <= i < ps.len() ==> #[trigger] crate::semantics::bind_params(ps, vs).contains_key(ps[i])
            && crate::semantics::bind_params(ps, vs)[ps[i]] == vs[i],
        forall|k: Seq<char>| #[trigger] crate::semantics::bind_params(ps, vs).contains_key(k) ==> ps.contains(k),
    decreases ps.len(),
{
    if ps.len() > 0 {
        let qs = ps.drop_last();
        let ws = vs.drop_last();
        parameters_bind_in_order(qs, ws);
        let before = crate::semantics::bind_params(qs, ws);
        assert(crate::semantics::bind_params(ps, vs) == before.insert(ps.last(), vs.last()));
        assert forall|i: int| 0 <= i < ps.len() implies #[trigger] crate::semantics::bind_params(ps, vs).contains_key(
            ps[i],
        ) && crate::semantics::bind_params(ps, vs)[ps[i]] == vs[i] by {
            if i < ps.len() - 1 {
                assert(qs[i] == ps[i]);
                assert(ws[i] == vs[i]);
                assert(ps[i] != ps[ps.len() - 1]);
                assert(before.contains_key(qs[i]) && before[qs[i]] == ws[i]);
            }
        }
        assert forall|k: Seq<char>| #[trigger] crate::semantics::bind_params(ps, vs).contains_key(k) implies ps.contains(k) by {
            if k != ps.last() {
                assert(before.contains_key(k));
                assert(qs.contains(k));
                let j = choose|j: int| 0 <= j < qs.len() && qs[j] == k;
                assert(ps[j] == k);
            } else {
                assert(ps[ps.len() - 1] == k);
            }
        }
    }
}

// ---------------------------------------------------------------------
// Precedence of `and` and `or`
// ---------------------------------------------------------------------

/// The expression a single-token operand stands for: a literal or a name.
pub open spec fn atom(t: TokenV) -> Option<ExprV> {
    match t {
        TokenV::Number(b) => Some(ExprV::Number(b)),
        TokenV::Str(s) => Some(ExprV::Str(s)),
        TokenV::Ident(n) => Some(ExprV::Ident(n)),
        TokenV::Sym(Sym::True) => Some(ExprV::Bool(true)),
        TokenV::Sym(Sym::False) => Some(ExprV::Bool(false)),
        TokenV::Sym(Sym::Nil) => Some(ExprV::Nil),
        _ => None,
    }
}

/// `and`, `or` and the end close an operand.
pub open spec fn closes_operand(t: TokenV) -> bool {
    t == TokenV::Sym(Sym::And) || t == TokenV::Sym(Sym::Or) || t is Eof
}

/// A one-token operand not followed by `(` is read by `unary` as itself.
proof fn lemma_atom_unary(toks: Seq<TokenV>, p: nat, d: nat)
    requires
        atom(tok_at(toks, p)) is Some,
        !at(toks, p + 1, Sym::LParen),
        d + 3 <= MAX_DEPTH,
    ensures
        unary(toks, p, d) == (Ok::<ExprV, ErrorV>(atom(tok_at(toks, p))->Some_0), 1nat, d),
{
    reveal_with_fuel(unary, 1);
    reveal_with_fuel(call, 1);
    reveal_with_fuel(call_tail, 1);
    reveal_with_fuel(primary, 1);
    reveal_with_fuel(primary_inner, 1);
    reveal_with_fuel(crate::grammar::args, 1);
    assert(primary_inner(toks, p, d + 2) == (Ok::<ExprV, ErrorV>(atom(tok_at(toks, p))->Some_0), 1nat, d + 2));
    assert(primary(toks, p, d + 1) == (Ok::<ExprV, ErrorV>(atom(tok_at(toks, p))->Some_0), 1nat, d + 1));
    assert(call(toks, p, d + 1) == (Ok::<ExprV, ErrorV>(atom(tok_at(toks, p))->Some_0), 1nat, d + 1));
}

/// ... and by every binary level as itself.
proof fn lemma_atom_binary(toks: Seq<TokenV>, p: nat, d: nat, level: nat)
    requires
        atom(tok_at(toks, p)) is Some,
        closes_operand(tok_at(toks, p + 1)),
        d + 3 <= MAX_DEPTH,
    ensures
        binary(toks, p, d, level) == (Ok::<ExprV, ErrorV>(atom(tok_at(toks, p))->Some_0), 1nat, d),
    decreases level,
{
    reveal_with_fuel(binary, 1);
    reveal_with_fuel(binary_operand, 1);
    reveal_with_fuel(binary_tail, 1);
    reveal_with_fuel(unary, 1);
    if level == 0 {
        lemma_atom_unary(toks, p, d);
    } else {
        lemma_atom_binary(toks, p, d, (level - 1) as nat);
    }
    assert(crate::grammar::binary_op_at(toks, p + 1, level) is None);
}

/// A `logic` tail that does not start with its operator is empty.
proof fn lemma_logic_tail_stops(toks: Seq<TokenV>, p: nat, d: nat, op: LogicOp, lhs: ExprV)
    requires
        !at(toks, p, logic_sym(op)),
    ensures
        logic_tail(toks, p, d, op, lhs) == (Ok::<ExprV, ErrorV>(lhs), 0nat, d),
{
    reveal_with_fuel(logic_tail, 1);
    reveal_with_fuel(logic_operand, 1);
}

/// `a` alone, before `or` or the end, is an `and`-level operand of its own.
proof fn lemma_and_single(toks: Seq<TokenV>, p: nat, d: nat)
    requires
        atom(tok_at(toks, p)) is Some,
        tok_at(toks, p + 1) == TokenV::Sym(Sym::Or) || tok_at(toks, p + 1) is Eof,
        d + 3 <= MAX_DEPTH,
    ensures
        logic(toks, p, d, LogicOp::And) == (Ok::<ExprV, ErrorV>(atom(tok_at(toks, p))->Some_0), 1nat, d),
{
    lemma_atom_binary(toks, p, d, 3);
    lemma_logic_tail_stops(toks, p + 1, d, LogicOp::And, atom(tok_at(toks, p))->Some_0);
    reveal_with_fuel(logic, 1);
    reveal_with_fuel(logic_operand, 1);
    reveal_with_fuel(logic_tail, 1);
    reveal_with_fuel(binary, 1);
}

/// `a and b`, before `or` or the end, groups into one `and` node.
proof fn lemma_and_pair(toks: Seq<TokenV>, p: nat, d: nat)
    requires
        atom(tok_at(toks, p)) is Some,
        tok_at(toks, p + 1) == TokenV::Sym(Sym::And),
        atom(tok_at(toks, p + 2)) is Some,
        tok_at(toks, p + 3) == TokenV::Sym(Sym::Or) || tok_at(toks, p + 3) is Eof,
        d + 3 <= MAX_DEPTH,
    ensures
        logic(toks, p, d, LogicOp::And) == (
            Ok::<ExprV, ErrorV>(ExprV::Logical(
                Box::new(atom(tok_at(toks, p))->Some_0),
                LogicOp::And,
                Box::new(atom(tok_at(toks, p + 2))->Some_0),
            )),
            3nat,
            d,
        ),
{
    let a = atom(tok_at(toks, p))->Some_0;
    let b = atom(tok_at(toks, p + 2))->Some_0;
    lemma_atom_binary(toks, p, d, 3);
    lemma_atom_binary(toks, p + 2, d, 3);
    let both = ExprV::Logical(Box::new(a), LogicOp::And, Box::new(b));
    lemma_logic_tail_stops(toks, p + 3, d, LogicOp::And, both);
    reveal_with_fuel(logic_operand, 1);
    reveal_with_fuel(binary, 1);
    reveal_with_fuel(logic_tail, 1);
    assert(logic_operand(toks, p + 2, d, LogicOp::And) == (Ok::<ExprV, ErrorV>(b), 1nat, d));
    assert(logic_tail(toks, p + 1, d, LogicOp::And, a) == (Ok::<ExprV, ErrorV>(both), 2nat, d));
    reveal_with_fuel(logic, 1);
}

/// A program whose tokens are one `or`-level expression read to the end is
/// that expression as a statement.
proof fn lemma_program_of_logic(toks: Seq<TokenV>, e: ExprV, c: nat)
    requires
        logic(toks, 0, 2, LogicOp::Or) == (Ok::<ExprV, ErrorV>(e), c, 2nat),
        c >= 1,
        tok_at(toks, c) is Eof,
        atom(tok_at(toks, 0)) is Some,
    ensures
        program(toks) == Ok::<Seq<StmtV>, ErrorV>(seq![StmtV::Expr(e)]),
{
    reveal_with_fuel(assignment, 1);
    reveal_with_fuel(logic, 1);
    assert(assignment(toks, 0, 2) == (Ok::<ExprV, ErrorV>(e), c, 2nat));
    reveal_with_fuel(expr, 1);
    assert(expr(toks, 0, 1) == (Ok::<ExprV, ErrorV>(e), c, 1nat));
    reveal_with_fuel(stmt_inner, 1);
    reveal_with_fuel(crate::grammar::let_stmt, 1);
    reveal_with_fuel(crate::grammar::fn_decl, 1);
    reveal_with_fuel(crate::grammar::if_stmt, 1);
    reveal_with_fuel(crate::grammar::while_stmt, 1);
    reveal_with_fuel(crate::grammar::return_stmt, 1);
    reveal_with_fuel(block, 1);
    assert(stmt_inner(toks, 0, 1) == (Ok::<StmtV, ErrorV>(StmtV::Expr(e)), c, 1nat));
    reveal_with_fuel(stmt, 1);
    assert(stmt(toks, 0, 0) == (Ok::<StmtV, ErrorV>(StmtV::Expr(e)), c, 0nat));
    reveal_with_fuel(program_from, 1);
    assert(program_from(toks, c, 0, seq![StmtV::Expr(e)]) == (
        Ok::<Seq<StmtV>, ErrorV>(seq![StmtV::Expr(e)]),
        0nat,
        0nat,
    ));
    assert(Seq::<StmtV>::empty().push(StmtV::Expr(e)) =~= seq![StmtV::Expr(e)]);
}

/// `and` binds more tightly than `or`: for any one-token operands, `x or y
/// and z` reads as `x or (y and z)`, and `x and y or z` as `(x and y) or z`.
pub proof fn and_binds_tighter_than_or(x: TokenV, y: TokenV, z: TokenV)
    requires
        atom(x) is Some,
        atom(y) is Some,
        atom(z) is Some,
    ensures
        program(seq![x, TokenV::Sym(Sym::Or), y, TokenV::Sym(Sym::And), z, TokenV::Eof])
            == Ok::<Seq<StmtV>, ErrorV>(seq![StmtV::Expr(ExprV::Logical(
                Box::new(atom(x)->Some_0),
                LogicOp::Or,
                Box::new(ExprV::Logical(Box::new(atom(y)->Some_0), LogicOp::And, Box::new(atom(z)->Some_0))),
            ))]),
        program(seq![x, TokenV::Sym(Sym::And), y, TokenV::Sym(Sym::Or), z, TokenV::Eof])
            == Ok::<Seq<StmtV>, ErrorV>(seq![StmtV::Expr(ExprV::Logical(
                Box::new(ExprV::Logical(Box::new(atom(x)->Some_0), LogicOp::And, Box::new(atom(y)->Some_0))),
                LogicOp::Or,
                Box::new(atom(z)->Some_0),
            ))]),
{
    let (ax, ay, az) = (atom(x)->Some_0, atom(y)->Some_0, atom(z)->Some_0);
    reveal_with_fuel(logic, 1);
    reveal_with_fuel(logic_operand, 1);
    reveal_with_fuel(logic_tail, 1);
    let t1 = seq![x, TokenV::Sym(Sym::Or), y, TokenV::Sym(Sym::And), z, TokenV::Eof];
    assert(tok_at(t1, 0) == x && tok_at(t1, 1) == TokenV::Sym(Sym::Or) && tok_at(t1, 2) == y);
    assert(tok_at(t1, 3) == TokenV::Sym(Sym::And) && tok_at(t1, 4) == z && tok_at(t1, 5) is Eof);
    lemma_and_single(t1, 0, 2);
    lemma_and_pair(t1, 2, 2);
    let yz = ExprV::Logical(Box::new(ay), LogicOp::And, Box::new(az));
    let e1 = ExprV::Logical(Box::new(ax), LogicOp::Or, Box::new(yz));
    lemma_logic_tail_stops(t1, 5, 2, LogicOp::Or, e1);
    assert(logic_operand(t1, 2, 2, LogicOp::Or) == (Ok::<ExprV, ErrorV>(yz), 3nat, 2nat));
    assert(logic_tail(t1, 1, 2, LogicOp::Or, ax) == (Ok::<ExprV, ErrorV>(e1), 4nat, 2nat));
    assert(logic(t1, 0, 2, LogicOp::Or) == (Ok::<ExprV, ErrorV>(e1), 5nat, 2nat));
    lemma_program_of_logic(t1, e1, 5);

    let t2 = seq![x, TokenV::Sym(Sym::And), y, TokenV::Sym(Sym::Or), z, TokenV::Eof];
    assert(tok_at(t2, 0) == x && tok_at(t2, 1) == TokenV::Sym(Sym::And) && tok_at(t2, 2) == y);
    assert(tok_at(t2, 3) == TokenV::Sym(Sym::Or) && tok_at(t2, 4) == z && tok_at(t2, 5) is Eof);
    lemma_and_pair(t2, 0, 2);
    lemma_and_single(t2, 4, 2);
    let xy = ExprV::Logical(Box::new(ax), LogicOp::And, Box::new(ay));
    let e2 = ExprV::Logical(Box::new(xy), LogicOp::Or, Box::new(az));
    lemma_logic_tail_stops(t2, 5, 2, LogicOp::Or, e2);
    assert(logic_operand(t2, 0, 2, LogicOp::Or) == (Ok::<ExprV, ErrorV>(xy), 3nat, 2nat));
    assert(logic_operand(t2, 4, 2, LogicOp::Or) == (Ok::<ExprV, ErrorV>(az), 1nat, 2nat));
    assert(logic_tail(t2, 3, 2, LogicOp::Or, xy) == (Ok::<ExprV, ErrorV>(e2), 2nat, 2nat));
    assert(logic(t2, 0, 2, LogicOp::Or) == (Ok::<ExprV, ErrorV>(e2), 5nat, 2nat));
    lemma_program_of_logic(t2, e2, 5);
}

// ---------------------------------------------------------------------
// Binary operators
// ---------------------------------------------------------------------

/// The token that spells each binary operator.
pub open spec fn spelling(o: BinOp) -> Sym {
    match o {
        BinOp::Add => Sym::Plus,
        BinOp::Sub => Sym::Minus,
        BinOp::Mul => Sym::Star,
        BinOp::Div => Sym::Slash,
        BinOp::Mod => Sym::Percent,
        BinOp::Eq => Sym::EqEq,
        BinOp::NotEq => Sym::NotEq,
        BinOp::Lt => Sym::Lt,
        BinOp::Gt => Sym::Gt,
        BinOp::LtEq => Sym::LtEq,
        BinOp::GtEq => Sym::GtEq,
    }
}

/// How loosely each binary operator binds: `* / %` tightest, then `+ -`,
/// then `< > <= >=`, then `== !=`.
pub open spec fn tier(o: BinOp) -> nat {
    match o {
        BinOp::Mul | BinOp::Div | BinOp::Mod => 0,
        BinOp::Add | BinOp::Sub => 1,
        BinOp::Lt | BinOp::Gt | BinOp::LtEq | BinOp::GtEq => 2,
        BinOp::Eq | BinOp::NotEq => 3,
    }
}

/// An operator's token is an operator at its own tier only.
proof fn lemma_spelled(toks: Seq<TokenV>, p: nat, o: BinOp)
    requires
        tok_at(toks, p) == TokenV::Sym(spelling(o)),
    ensures
        forall|l: nat| l <= 3 ==> #[trigger] crate::grammar::binary_op_at(toks, p, l) == (if l == tier(o) { Some(o) } else { None::<BinOp> }),
{
    assert forall|l: nat| l <= 3 implies #[trigger] crate::grammar::binary_op_at(toks, p, l) == (if l == tier(o) {
        Some(o)
    } else {
        None::<BinOp>
    }) by {
        match o {
            BinOp::Add => {},
            BinOp::Sub => {},
            BinOp::Mul => {},
            BinOp::Div => {},
            BinOp::Mod => {},
            BinOp::Eq => {},
            BinOp::NotEq => {},
            BinOp::Lt => {},
            BinOp::Gt => {},
            BinOp::LtEq => {},
            BinOp::GtEq => {},
        }
    }
}

/// A one-token operand followed by no operator of a tier up to `level`,
/// and not by `(`, is read at that level as itself.
proof fn lemma_atom_level(toks: Seq<TokenV>, p: nat, d: nat, level: nat)
    requires
        atom(tok_at(toks, p)) is Some,
        !at(toks, p + 1, Sym::LParen),
        forall|l: nat| l <= level ==> #[trigger] crate::grammar::binary_op_at(toks, p + 1, l) is None,
        d + 3 <= MAX_DEPTH,
    ensures
        binary(toks, p, d, level) == (Ok::<ExprV, ErrorV>(atom(tok_at(toks, p))->Some_0), 1nat, d),
        binary_operand(toks, p, d, level) == (Ok::<ExprV, ErrorV>(atom(tok_at(toks, p))->Some_0), 1nat, d),
    decreases level,
{
    reveal_with_fuel(binary, 1);
    reveal_with_fuel(binary_operand, 1);
    reveal_with_fuel(binary_tail, 1);
    reveal_with_fuel(unary, 1);
    let a = atom(tok_at(toks, p))->Some_0;
    if level == 0 {
        lemma_atom_unary(toks, p, d);
        assert(binary_operand(toks, p, d, level) == unary(toks, p, d));
    } else {
        lemma_atom_level(toks, p, d, (level - 1) as nat);
        assert(binary_operand(toks, p, d, level) == binary(toks, p, d, (level - 1) as nat));
    }
    assert(crate::grammar::binary_op_at(toks, p + 1, level) is None);
    lemma_tail_stops(toks, p + 1, d, level, a);
}

/// The operand of a level, when the next token is no operator below that level.
proof fn lemma_atom_operand(toks: Seq<TokenV>, p: nat, d: nat, level: nat)
    requires
        atom(tok_at(toks, p)) is Some,
        !at(toks, p + 1, Sym::LParen),
        forall|l: nat| l < level ==> #[trigger] crate::grammar::binary_op_at(toks, p + 1, l) is None,
        d + 3 <= MAX_DEPTH,
    ensures
        binary_operand(toks, p, d, level) == (Ok::<ExprV, ErrorV>(atom(tok_at(toks, p))->Some_0), 1nat, d),
{
    reveal_with_fuel(binary_operand, 1);
    reveal_with_fuel(binary, 1);
    reveal_with_fuel(unary, 1);
    if level == 0 {
        lemma_atom_unary(toks, p, d);
    } else {
        lemma_atom_level(toks, p, d, (level - 1) as nat);
    }
}

/// One step of a level's tail: the operator, its right operand, then the rest.
proof fn lemma_tail_step(
    toks: Seq<TokenV>,
    p: nat,
    d: nat,
    level: nat,
    lhs: ExprV,
    o: BinOp,
    rhs: ExprV,
    c: nat,
    e: ExprV,
    c2: nat,
)
    requires
        crate::grammar::binary_op_at(toks, p, level) == Some(o),
        binary_operand(toks, p + 1, d, level) == (Ok::<ExprV, ErrorV>(rhs), c, d),
        binary_tail(toks, p + 1 + c, d, level, ExprV::Binary(Box::new(lhs), o, Box::new(rhs))) == (
            Ok::<ExprV, ErrorV>(e),
            c2,
            d,
        ),
    ensures
        binary_tail(toks, p, d, level, lhs) == (Ok::<ExprV, ErrorV>(e), 1 + c + c2, d),
{
    reveal_with_fuel(binary_tail, 1);
    reveal_with_fuel(binary_operand, 1);
}

/// A tail that does not start with an operator of its level is empty.
proof fn lemma_tail_stops(toks: Seq<TokenV>, p: nat, d: nat, level: nat, lhs: ExprV)
    requires
        crate::grammar::binary_op_at(toks, p, level) is None,
    ensures
        binary_tail(toks, p, d, level, lhs) == (Ok::<ExprV, ErrorV>(lhs), 0nat, d),
{
    reveal_with_fuel(binary_tail, 1);
}

/// What a level reads is read unchanged by the levels above it, up to one
/// whose operator follows.
proof fn lemma_lift(toks: Seq<TokenV>, p: nat, d: nat, a: nat, b: nat, e: ExprV, c: nat)
    requires
        binary(toks, p, d, a) == (Ok::<ExprV, ErrorV>(e), c, d),
        a <= b,
        forall|l: nat| a < l <= b ==> #[trigger] crate::grammar::binary_op_at(toks, p + c, l) is None,
    ensures
        binary(toks, p, d, b) == (Ok::<ExprV, ErrorV>(e), c, d),
    decreases b - a,
{
    if a < b {
        reveal_with_fuel(binary, 1);
        reveal_with_fuel(binary_operand, 1);
        assert(binary_operand(toks, p, d, a + 1) == (Ok::<ExprV, ErrorV>(e), c, d));
        lemma_tail_stops(toks, p + c, d, a + 1, e);
        assert(binary(toks, p, d, a + 1) == (Ok::<ExprV, ErrorV>(e), c, d));
        lemma_lift(toks, p, d, a + 1, b, e, c);
    }
}

/// A program whose tokens are one expression read by some level up to the
/// end is that expression as a statement.
proof fn lemma_program_of_level(toks: Seq<TokenV>, level: nat, e: ExprV, c: nat)
    requires
        binary(toks, 0, 2, level) == (Ok::<ExprV, ErrorV>(e), c, 2nat),
        level <= 3,
        c >= 1,
        tok_at(toks, c) is Eof,
        atom(tok_at(toks, 0)) is Some,
    ensures
        program(toks) == Ok::<Seq<StmtV>, ErrorV>(seq![StmtV::Expr(e)]),
{
    lemma_lift(toks, 0, 2, level, 3, e, c);
    assert(binary(toks, 0, 2, 3) == (Ok::<ExprV, ErrorV>(e), c, 2nat));
    reveal_with_fuel(logic, 1);
    reveal_with_fuel(logic_operand, 1);
    reveal_with_fuel(logic_tail, 1);
    reveal_with_fuel(binary, 1);
    assert(logic_operand(toks, 0, 2, LogicOp::And) == (Ok::<ExprV, ErrorV>(e), c, 2nat));
    lemma_logic_tail_stops(toks, c, 2, LogicOp::And, e);
    assert(logic(toks, 0, 2, LogicOp::And) == (Ok::<ExprV, ErrorV>(e), c, 2nat));
    assert(logic_operand(toks, 0, 2, LogicOp::Or) == (Ok::<ExprV, ErrorV>(e), c, 2nat));
    lemma_logic_tail_stops(toks, c, 2, LogicOp::Or, e);
    assert(logic(toks, 0, 2, LogicOp::Or) == (Ok::<ExprV, ErrorV>(e), c, 2nat));
    lemma_program_of_logic(toks, e, c);
}

/// An operator of a tighter tier groups first: for one-token operands,
/// `x lo y hi z` reads as `x lo (y hi z)` and `x hi y lo z` as
/// `(x hi y) lo z` (so `1 + 2 * 3` is `1 + (2 * 3)`).
pub proof fn tighter_operators_group_first(x: TokenV, y: TokenV, z: TokenV, lo: BinOp, hi: BinOp)
    requires
        atom(x) is Some,
        atom(y) is Some,
        atom(z) is Some,
        tier(hi) < tier(lo),
    ensures
        program(seq![x, TokenV::Sym(spelling(lo)), y, TokenV::Sym(spelling(hi)), z, TokenV::Eof])
            == Ok::<Seq<StmtV>, ErrorV>(seq![StmtV::Expr(ExprV::Binary(
                Box::new(atom(x)->Some_0),
                lo,
                Box::new(ExprV::Binary(Box::new(atom(y)->Some_0), hi, Box::new(atom(z)->Some_0))),
            ))]),
        program(seq![x, TokenV::Sym(spelling(hi)), y, TokenV::Sym(spelling(lo)), z, TokenV::Eof])
            == Ok::<Seq<StmtV>, ErrorV>(seq![StmtV::Expr(ExprV::Binary(
                Box::new(ExprV::Binary(Box::new(atom(x)->Some_0), hi, Box::new(atom(y)->Some_0))),
                lo,
                Box::new(atom(z)->Some_0),
            ))]),
{
    let (ax, ay, az) = (atom(x)->Some_0, atom(y)->Some_0, atom(z)->Some_0);
    let (h, l) = (tier(hi), tier(lo));
    reveal_with_fuel(binary, 1);
    reveal_with_fuel(binary_operand, 1);
    reveal_with_fuel(binary_tail, 1);

    let t1 = seq![x, TokenV::Sym(spelling(lo)), y, TokenV::Sym(spelling(hi)), z, TokenV::Eof];
    assert(tok_at(t1, 0) == x && tok_at(t1, 2) == y && tok_at(t1, 4) == z && tok_at(t1, 5) is Eof);
    lemma_spelled(t1, 1, lo);
    lemma_spelled(t1, 3, hi);
    lemma_atom_operand(t1, 2, 2, h);
    lemma_atom_operand(t1, 4, 2, h);
    let yz = ExprV::Binary(Box::new(ay), hi, Box::new(az));
    lemma_tail_stops(t1, 5, 2, h, yz);
    lemma_tail_step(t1, 3, 2, h, ay, hi, az, 1, yz, 0);
    assert(binary(t1, 2, 2, h) == (Ok::<ExprV, ErrorV>(yz), 3nat, 2nat));
    lemma_lift(t1, 2, 2, h, (l - 1) as nat, yz, 3);
    assert(binary_operand(t1, 2, 2, l) == (Ok::<ExprV, ErrorV>(yz), 3nat, 2nat));
    lemma_atom_operand(t1, 0, 2, l);
    let e1 = ExprV::Binary(Box::new(ax), lo, Box::new(yz));
    lemma_tail_stops(t1, 5, 2, l, e1);
    lemma_tail_step(t1, 1, 2, l, ax, lo, yz, 3, e1, 0);
    assert(binary(t1, 0, 2, l) == (Ok::<ExprV, ErrorV>(e1), 5nat, 2nat));
    lemma_program_of_level(t1, l, e1, 5);

    let t2 = seq![x, TokenV::Sym(spelling(hi)), y, TokenV::Sym(spelling(lo)), z, TokenV::Eof];
    assert(tok_at(t2, 0) == x && tok_at(t2, 2) == y && tok_at(t2, 4) == z && tok_at(t2, 5) is Eof);
    lemma_spelled(t2, 1, hi);
    lemma_spelled(t2, 3, lo);
    lemma_atom_operand(t2, 0, 2, h);
    lemma_atom_operand(t2, 2, 2, h);
    let xy = ExprV::Binary(Box::new(ax), hi, Box::new(ay));
    lemma_tail_stops(t2, 3, 2, h, xy);
    lemma_tail_step(t2, 1, 2, h, ax, hi, ay, 1, xy, 0);
    assert(binary(t2, 0, 2, h) == (Ok::<ExprV, ErrorV>(xy), 3nat, 2nat));
    lemma_lift(t2, 0, 2, h, (l - 1) as nat, xy, 3);
    assert(binary_operand(t2, 0, 2, l) == (Ok::<ExprV, ErrorV>(xy), 3nat, 2nat));
    lemma_atom_operand(t2, 4, 2, l);
    let e2 = ExprV::Binary(Box::new(xy), lo, Box::new(az));
    lemma_tail_stops(t2, 5, 2, l, e2);
    lemma_tail_step(t2, 3, 2, l, xy, lo, az, 1, e2, 0);
    assert(binary(t2, 0, 2, l) == (Ok::<ExprV, ErrorV>(e2), 5nat, 2nat));
    lemma_program_of_level(t2, l, e2, 5);
}

/// Operators of one tier group to the left: for one-token operands,
/// `x o1 y o2 z` reads as `(x o1 y) o2 z` (so `10 - 4 - 3` is `(10 - 4) - 3`).
pub proof fn operators_of_a_tier_group_left(x: TokenV, y: TokenV, z: TokenV, o1: BinOp, o2: BinOp)
    requires
        atom(x) is Some,
        atom(y) is Some,
        atom(z) is Some,
        tier(o1) == tier(o2),
    ensures
        program(seq![x, TokenV::Sym(spelling(o1)), y, TokenV::Sym(spelling(o2)), z, TokenV::Eof])
            == Ok::<Seq<StmtV>, ErrorV>(seq![StmtV::Expr(ExprV::Binary(
                Box::new(ExprV::Binary(Box::new(atom(x)->Some_0), o1, Box::new(atom(y)->Some_0))),
                o2,
                Box::new(atom(z)->Some_0),
            ))]),
{
    let (ax, ay, az) = (atom(x)->Some_0, atom(y)->Some_0, atom(z)->Some_0);
    let t = tier(o1);
    let ts = seq![x, TokenV::Sym(spelling(o1)), y, TokenV::Sym(spelling(o2)), z, TokenV::Eof];
    assert(tok_at(ts, 0) == x && tok_at(ts, 2) == y && tok_at(ts, 4) == z && tok_at(ts, 5) is Eof);
    lemma_spelled(ts, 1, o1);
    lemma_spelled(ts, 3, o2);
    lemma_atom_operand(ts, 0, 2, t);
    lemma_atom_operand(ts, 2, 2, t);
    lemma_atom_operand(ts, 4, 2, t);
    let xy = ExprV::Binary(Box::new(ax), o1, Box::new(ay));
    let e = ExprV::Binary(Box::new(xy), o2, Box::new(az));
    lemma_tail_stops(ts, 5, 2, t, e);
    lemma_tail_step(ts, 3, 2, t, xy, o2, az, 1, e, 0);
    lemma_tail_step(ts, 1, 2, t, ax, o1, ay, 1, e, 2);
    reveal_with_fuel(binary, 1);
    reveal_with_fuel(binary_operand, 1);
    reveal_with_fuel(binary_tail, 1);
    assert(binary(ts, 0, 2, t) == (Ok::<ExprV, ErrorV>(e), 5nat, 2nat));
    lemma_program_of_level(ts, t, e, 5);
}

// ---------------------------------------------------------------------
// Strings
// ---------------------------------------------------------------------

/// `+` with a string on either side joins the texts of both sides, left
/// then right; two strings join their characters.
pub proof fn plus_joins_texts(l: ValueV, r: ValueV)
    requires
        l is Str || r is Str,
    ensures
        binary_value(BinOp::Add, l, r) == Ok::<ValueV, ErrorV>(ValueV::Str(value_text(l) + value_text(r))),
        l is Str && r is Str ==> binary_value(BinOp::Add, l, r) == Ok::<ValueV, ErrorV>(
            ValueV::Str(l->Str_0 + r->Str_0),
        ),
{
}

/// Strings are ordered lexicographically by character: a string equals
/// itself, a proper prefix comes first, and otherwise the first differing
/// character decides.
pub proof fn strings_are_ordered_lexicographically(a: Seq<char>, b: Seq<char>)
    ensures
        text_order(a, a) == Order::Equal,
        a.len() < b.len() && a == b.take(a.len() as int) ==> text_order(a, b) == Order::Less,
        forall|i: int|
            0 <= i < a.len() && i < b.len() && a.take(i) == b.take(i) && a[i] < b[i] ==> #[trigger] text_order(a, b)
                == Order::Less,
    decreases a.len(),
{
    if a.len() > 0 {
        strings_are_ordered_lexicographically(a.drop_first(), a.drop_first());
        if b.len() > 0 {
            strings_are_ordered_lexicographically(a.drop_first(), b.drop_first());
            if a.len() < b.len() && a == b.take(a.len() as int) {
                assert(a[0] == b[0]);
                assert(a.drop_first() =~= b.drop_first().take(a.drop_first().len() as int));
            }
            assert forall|i: int|
                0 <= i < a.len() && i < b.len() && a.take(i) == b.take(i) && a[i] < b[i] implies #[trigger] text_order(
                a,
                b,
            ) == Order::Less by {
                if i > 0 {
                    assert(a[0] == a.take(i)[0]);
                    assert(b[0] == b.take(i)[0]);
                    assert(a.drop_first().take(i - 1) =~= a.take(i).drop_first());
                    assert(b.drop_first().take(i - 1) =~= b.take(i).drop_first());
                    assert(a.drop_first()[i - 1] == a[i]);
                    assert(b.drop_first()[i - 1] == b[i]);
                }
            }
        }
    }
}

// ---------------------------------------------------------------------
// Variables
// ---------------------------------------------------------------------

/// Scope `q` and the scopes its chain reaches lie below `env`.
proof fn lemma_lookup_below(h: HeapV, h2: HeapV, env: nat, q: nat, name: Seq<char>)
    requires
        q < env,
        env <= h.scopes.len(),
        env <= h2.scopes.len(),
        forall|i: int| 0 <= i < env ==> h2.scopes[i] == h.scopes[i],
    ensures
        lookup(h2, q, name) == lookup(h, q, name),
    decreases q,
{
    if q < h.scopes.len() && !h.scopes[q as int].vars.contains_key(name) {
        match h.scopes[q as int].parent {
            Some(p) => {
                if p < q {
                    lemma_lookup_below(h, h2, env, p, name);
                }
            },
            None => {},
        }
    }
}

/// `let` then reading: the name gives the value just defined, and every
/// other name gives what it gave before.
pub proof fn defined_names_read_back(h: HeapV, env: nat, name: Seq<char>, v: ValueV, other: Seq<char>)
    requires
        env < h.scopes.len(),
        other != name,
    ensures
        lookup(define_var(h, env, name, v), env, name) == Some(v),
        lookup(define_var(h, env, name, v), env, other) == lookup(h, env, other),
{
    let h2 = define_var(h, env, name, v);
    match h.scopes[env as int].parent {
        Some(p) => {
            if p < env {
                lemma_lookup_below(h, h2, env, p, other);
            }
        },
        None => {},
    }
}

/// Assignment succeeds exactly when the name can be read, and then reading
/// the name gives the value assigned.
pub proof fn assigned_names_read_back(h: HeapV, env: nat, name: Seq<char>, v: ValueV)
    ensures
        assign_var(h, env, name, v) is None <==> lookup(h, env, name) is None,
        assign_var(h, env, name, v) matches Some(h2) ==> lookup(h2, env, name) == Some(v),
    decreases env,
{
    if env < h.scopes.len() && !h.scopes[env as int].vars.contains_key(name) {
        match h.scopes[env as int].parent {
            Some(p) => {
                if p < env {
                    assigned_names_read_back(h, p, name, v);
                    if let Some(h2) = assign_var(h, p, name, v) {
                        lemma_assign_shape(h, p, name, v);
                    }
                }
            },
            None => {},
        }
    }
}

/// A successful assignment keeps the number of scopes and every scope
/// above `env`.
proof fn lemma_assign_shape(h: HeapV, env: nat, name: Seq<char>, v: ValueV)
    requires
        assign_var(h, env, name, v) is Some,
    ensures
        ({
            let h2 = assign_var(h, env, name, v)->Some_0;
            &&& h2.scopes.len() == h.scopes.len()
            &&& forall|i: int| env < i < h.scopes.len() ==> h2.scopes[i] == h.scopes[i]
        }),
    decreases env,
{
    if env < h.scopes.len() && !h.scopes[env as int].vars.contains_key(name) {
        match h.scopes[env as int].parent {
            Some(p) => {
                if p < env {
                    lemma_assign_shape(h, p, name, v);
                }
            },
            None => {},
        }
    }
}

// ---------------------------------------------------------------------
// Sessions
// ---------------------------------------------------------------------

/// `eval` of a source text is the first `run` of a fresh session.
pub proof fn eval_is_first_run_of_fresh_session(src: Seq<char>)
    ensures
        eval_source(src) == run_source(crate::semantics::initial_heap(), 0, src).0,
{
}

/// A source text that does not lex, or does not parse, is reported with
/// that error and leaves a session's state as it was.
pub proof fn unreadable_source_leaves_state(h: HeapV, d: nat, src: Seq<char>)
    requires
        lex(src) is Err || program(lex(src)->Ok_0) is Err,
    ensures
        run_source(h, d, src).1 == h,
        run_source(h, d, src).2 == d,
        lex(src) is Err ==> run_source(h, d, src).0 == Err::<ValueV, ErrorV>(lex(src)->Err_0),
        lex(src) is Ok ==> run_source(h, d, src).0 == Err::<ValueV, ErrorV>(program(lex(src)->Ok_0)->Err_0),
{
}

} // verus!
