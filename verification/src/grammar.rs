//! The grammar as mathematics: what parsing a token sequence yields.
//!
//! Each function reads from position `p` with nesting depth `d` and gives
//! back the result, the number of tokens it consumed, and the depth it
//! leaves. Nesting is counted on entering a statement, a block, an
//! expression, a unary operand and a primary; entering past `MAX_DEPTH`
//! fails with "expression nested too deeply". As in the recursive-descent
//! code it describes, a failure that leaves through an early return does not
//! restore the depth.
use vstd::prelude::*;

use crate::ast::{BinOp, ExprV, LogicOp, StmtV, UnaryOp};
use crate::error::ErrorV;
use crate::lexer::{Sym, TokenV};
use crate::numtext::debug_text;

verus! {

pub const MAX_DEPTH: usize = 200;

/// Result, tokens consumed, depth left.
pub type Parsed<T> = (Result<T, ErrorV>, nat, nat);

/// Plain equality (within a spec function `==` compares values directly,
/// where an `ensures` or `invariant` would compare collections extensionally).
pub open spec fn same<T>(a: T, b: T) -> bool {
    a == b
}

/// The token at `p`; past the end, `Eof`.
pub open spec fn tok_at(toks: Seq<TokenV>, p: nat) -> TokenV {
    if p < toks.len() { toks[p as int] } else { TokenV::Eof }
}

pub open spec fn at(toks: Seq<TokenV>, p: nat, k: Sym) -> bool {
    tok_at(toks, p) == TokenV::Sym(k)
}

pub open spec fn at_eof(toks: Seq<TokenV>, p: nat) -> bool {
    tok_at(toks, p) is Eof
}

/// How far `advance` moves from `p`: not at all on `Eof`.
pub open spec fn step(toks: Seq<TokenV>, p: nat) -> nat {
    if at_eof(toks, p) { 0 } else { 1 }
}

/// Tokens left from `p` on.
pub open spec fn remaining(toks: Seq<TokenV>, p: nat) -> nat {
    if p <= toks.len() { (toks.len() - p) as nat } else { 0 }
}

#[verifier::opaque]
pub open spec fn sym_name(k: Sym) -> Seq<char> {
    match k {
        Sym::Let => "Let"@,
        Sym::Fn => "Fn"@,
        Sym::If => "If"@,
        Sym::Else => "Else"@,
        Sym::While => "While"@,
        Sym::Return => "Return"@,
        Sym::True => "True"@,
        Sym::False => "False"@,
        Sym::Nil => "Nil"@,
        Sym::And => "And"@,
        Sym::Or => "Or"@,
        Sym::Not => "Not"@,
        Sym::Plus => "Plus"@,
        Sym::Minus => "Minus"@,
        Sym::Star => "Star"@,
        Sym::Slash => "Slash"@,
        Sym::Percent => "Percent"@,
        Sym::Eq => "Eq"@,
        Sym::EqEq => "EqEq"@,
        Sym::NotEq => "NotEq"@,
        Sym::Lt => "Lt"@,
        Sym::Gt => "Gt"@,
        Sym::LtEq => "LtEq"@,
        Sym::GtEq => "GtEq"@,
        Sym::LParen => "LParen"@,
        Sym::RParen => "RParen"@,
        Sym::LBrace => "LBrace"@,
        Sym::RBrace => "RBrace"@,
        Sym::Comma => "Comma"@,
        Sym::Semicolon => "Semicolon"@,
    }
}

/// A character as it appears inside a quoted string in diagnostics, as
/// `Debug` of a string shows it: `char::escape_debug`, except that a single
/// quote stays as it is.
pub open spec fn escape_char(c: char) -> Seq<char> {
    if c == '\'' {
        seq![c]
    } else {
        crate::text::debug_escape(c)
    }
}

pub open spec fn escaped(s: Seq<char>) -> Seq<char>
    decreases s.len(),
{
    if s.len() == 0 {
        Seq::empty()
    } else {
        escaped(s.drop_last()) + escape_char(s.last())
    }
}

pub open spec fn quoted(s: Seq<char>) -> Seq<char> {
    seq!['"'] + escaped(s) + seq!['"']
}

/// How diagnostics name a token, e.g. `RParen`, `Ident("x")`, `Number(1.0)`.
#[verifier::opaque]
pub open spec fn token_text(t: TokenV) -> Seq<char> {
    match t {
        TokenV::Number(b) => "Number("@ + debug_text(b) + ")"@,
        TokenV::Str(s) => "Str("@ + quoted(s) + ")"@,
        TokenV::Ident(s) => "Ident("@ + quoted(s) + ")"@,
        TokenV::Sym(k) => sym_name(k),
        TokenV::Eof => "Eof"@,
    }
}

#[verifier::opaque]
pub open spec fn too_deep() -> ErrorV {
    ErrorV::Parse("expression nested too deeply"@)
}

/// The error of `expect` when the token at `p` is not the one wanted.
#[verifier::opaque]
pub open spec fn expected(what: Seq<char>, found: TokenV) -> ErrorV {
    ErrorV::Parse("expected "@ + what + ", found "@ + token_text(found))
}

/// `expect_ident` at `p`: the name, or the error for the token it consumed.
pub open spec fn ident_at(toks: Seq<TokenV>, p: nat) -> Result<Seq<char>, ErrorV> {
    match tok_at(toks, p) {
        TokenV::Ident(n) => Ok(n),
        t => Err(ErrorV::Parse("expected identifier, found "@ + token_text(t))),
    }
}

pub open spec fn semicolon_step(toks: Seq<TokenV>, p: nat) -> nat {
    if at(toks, p, Sym::Semicolon) { 1 } else { 0 }
}

/// Parameter names after `(`: `ident (, ident)*`, stopping before `)`.
pub open spec fn params_from(toks: Seq<TokenV>, p: nat, acc: Seq<Seq<char>>) -> (Result<Seq<Seq<char>>, ErrorV>, nat)
    decreases remaining(toks, p),
{
    match ident_at(toks, p) {
        Err(e) => (Err(e), step(toks, p)),
        Ok(n) => if at(toks, p + 1, Sym::Comma) {
            let (r, c) = params_from(toks, p + 2, acc.push(n));
            (r, 2 + c)
        } else {
            (Ok(acc.push(n)), 1)
        },
    }
}

pub open spec fn params(toks: Seq<TokenV>, p: nat) -> (Result<Seq<Seq<char>>, ErrorV>, nat) {
    if at(toks, p, Sym::RParen) {
        (Ok(Seq::empty()), 0)
    } else {
        params_from(toks, p, Seq::empty())
    }
}

/// The binary operator at `p` for a precedence level: 3 equality,
/// 2 comparison, 1 additive, 0 multiplicative.
pub open spec fn binary_op_at(toks: Seq<TokenV>, p: nat, level: nat) -> Option<BinOp> {
    match tok_at(toks, p) {
        TokenV::Sym(k) => if level == 3 {
            if k == Sym::EqEq { Some(BinOp::Eq) } else if k == Sym::NotEq { Some(BinOp::NotEq) } else { None }
        } else if level == 2 {
            if k == Sym::Lt { Some(BinOp::Lt) } else if k == Sym::Gt { Some(BinOp::Gt) }
            else if k == Sym::LtEq { Some(BinOp::LtEq) } else if k == Sym::GtEq { Some(BinOp::GtEq) } else { None }
        } else if level == 1 {
            if k == Sym::Plus { Some(BinOp::Add) } else if k == Sym::Minus { Some(BinOp::Sub) } else { None }
        } else {
            if k == Sym::Star { Some(BinOp::Mul) } else if k == Sym::Slash { Some(BinOp::Div) }
            else if k == Sym::Percent { Some(BinOp::Mod) } else { None }
        },
        _ => None,
    }
}

/// `stmt := letStmt | fnDecl | ifStmt | whileStmt | returnStmt | block | exprStmt`,
/// with the depth counted around it.
#[verifier::opaque]
pub open spec fn stmt(toks: Seq<TokenV>, p: nat, d: nat) -> Parsed<StmtV>
    decreases remaining(toks, p), 60nat,
{
    if d + 1 > MAX_DEPTH {
        (Err(too_deep()), 0, d + 1)
    } else {
        let (r, c, d2) = stmt_inner(toks, p, d + 1);
        (r, c, (d2 - 1) as nat)
    }
}

#[verifier::opaque]
pub open spec fn stmt_inner(toks: Seq<TokenV>, p: nat, d: nat) -> Parsed<StmtV>
    decreases remaining(toks, p), 59nat,
{
    match tok_at(toks, p) {
        TokenV::Sym(Sym::Let) => after_keyword(let_stmt(toks, p + 1, d)),
        TokenV::Sym(Sym::Fn) => after_keyword(fn_decl(toks, p + 1, d)),
        TokenV::Sym(Sym::If) => after_keyword(if_stmt(toks, p + 1, d)),
        TokenV::Sym(Sym::While) => after_keyword(while_stmt(toks, p + 1, d)),
        TokenV::Sym(Sym::Return) => after_keyword(return_stmt(toks, p + 1, d)),
        TokenV::Sym(Sym::LBrace) => {
            let (r, c, d1) = block(toks, p, d);
            match r {
                Err(e) => (Err(e), c, d1),
                Ok(b) => (Ok(StmtV::Block(b)), c, d1),
            }
        },
        _ => {
            let (r, c, d1) = expr(toks, p, d);
            match r {
                Err(e) => (Err(e), c, d1),
                Ok(e) => (Ok(StmtV::Expr(e)), c + semicolon_step(toks, p + c), d1),
            }
        },
    }
}

/// Counts the keyword a statement started with.
pub open spec fn after_keyword(g: Parsed<StmtV>) -> Parsed<StmtV> {
    (g.0, 1 + g.1, g.2)
}

/// `letStmt := "let" IDENT "=" expression`, from just after `let`.
#[verifier::opaque]
pub open spec fn let_stmt(toks: Seq<TokenV>, p: nat, d: nat) -> Parsed<StmtV>
    decreases remaining(toks, p), 65nat,
{
    match ident_at(toks, p) {
        Err(e) => (Err(e), step(toks, p), d),
        Ok(name) => if !at(toks, p + 1, Sym::Eq) {
            (Err(expected("'=' after let name"@, tok_at(toks, p + 1))), 1, d)
        } else {
            let (r, c, d1) = expr(toks, p + 2, d);
            match r {
                Err(e) => (Err(e), 2 + c, d1),
                Ok(e) => (Ok(StmtV::Let(name, e)), 2 + c + semicolon_step(toks, p + 2 + c), d1),
            }
        },
    }
}

/// `fnDecl := "fn" IDENT "(" params? ")" block`, from just after `fn`.
#[verifier::opaque]
pub open spec fn fn_decl(toks: Seq<TokenV>, p: nat, d: nat) -> Parsed<StmtV>
    decreases remaining(toks, p), 65nat,
{
    match ident_at(toks, p) {
        Err(e) => (Err(e), step(toks, p), d),
        Ok(name) => if !at(toks, p + 1, Sym::LParen) {
            (Err(expected("'(' after function name"@, tok_at(toks, p + 1))), 1, d)
        } else {
            let (pr, pc) = params(toks, p + 2);
            match pr {
                Err(e) => (Err(e), 2 + pc, d),
                Ok(ps) => if !at(toks, p + 2 + pc, Sym::RParen) {
                    (Err(expected("')' after parameters"@, tok_at(toks, p + 2 + pc))), 2 + pc, d)
                } else {
                    let (r, c, d1) = block(toks, p + 3 + pc, d);
                    match r {
                        Err(e) => (Err(e), 3 + pc + c, d1),
                        Ok(body) => (Ok(StmtV::FnDecl(name, ps, body)), 3 + pc + c, d1),
                    }
                },
            }
        },
    }
}

/// `ifStmt := "if" expression block ("else" (ifStmt | block))?`, from just after `if`.
#[verifier::opaque]
pub open spec fn if_stmt(toks: Seq<TokenV>, p: nat, d: nat) -> Parsed<StmtV>
    decreases remaining(toks, p), 65nat,
{
    let (r, c, d1) = expr(toks, p, d);
    match r {
        Err(e) => (Err(e), c, d1),
        Ok(cond) => {
            let (r2, c2, d2) = if_branches(toks, p + c, d1, cond);
            (r2, c + c2, d2)
        },
    }
}

/// The blocks of an `if` statement, after its condition.
#[verifier::opaque]
pub open spec fn if_branches(toks: Seq<TokenV>, p: nat, d: nat, cond: ExprV) -> Parsed<StmtV>
    decreases remaining(toks, p), 64nat,
{
    let (r, c, d1) = block(toks, p, d);
    match r {
        Err(e) => (Err(e), c, d1),
        Ok(then_b) => {
            let (r2, c2, d2) = else_branch(toks, p + c, d1);
            match r2 {
                Err(e) => (Err(e), c + c2, d2),
                Ok(else_b) => (Ok(StmtV::If(cond, then_b, else_b)), c + c2, d2),
            }
        },
    }
}

/// The optional `else` part: another `if` statement or a block.
#[verifier::opaque]
pub open spec fn else_branch(toks: Seq<TokenV>, p: nat, d: nat) -> Parsed<Option<Seq<StmtV>>>
    decreases remaining(toks, p), 62nat,
{
    if !at(toks, p, Sym::Else) {
        (Ok(None), 0, d)
    } else if at(toks, p + 1, Sym::If) {
        let (r, c, d1) = stmt(toks, p + 1, d);
        match r {
            Err(e) => (Err(e), 1 + c, d1),
            Ok(s) => (Ok(Some(seq![s])), 1 + c, d1),
        }
    } else {
        let (r, c, d1) = block(toks, p + 1, d);
        match r {
            Err(e) => (Err(e), 1 + c, d1),
            Ok(b) => (Ok(Some(b)), 1 + c, d1),
        }
    }
}

/// `whileStmt := "while" expression block`, from just after `while`.
#[verifier::opaque]
pub open spec fn while_stmt(toks: Seq<TokenV>, p: nat, d: nat) -> Parsed<StmtV>
    decreases remaining(toks, p), 65nat,
{
    let (r, c, d1) = expr(toks, p, d);
    match r {
        Err(e) => (Err(e), c, d1),
        Ok(cond) => {
            let (r2, c2, d2) = while_body(toks, p + c, d1, cond);
            (r2, c + c2, d2)
        },
    }
}

/// The body of a `while` statement, after its condition.
#[verifier::opaque]
pub open spec fn while_body(toks: Seq<TokenV>, p: nat, d: nat, cond: ExprV) -> Parsed<StmtV>
    decreases remaining(toks, p), 64nat,
{
    let (r, c, d1) = block(toks, p, d);
    match r {
        Err(e) => (Err(e), c, d1),
        Ok(body) => (Ok(StmtV::While(cond, body)), c, d1),
    }
}

/// `returnStmt := "return" expression?`, from just after `return`; the
/// expression is absent before `;`, `}` or the end.
#[verifier::opaque]
pub open spec fn return_stmt(toks: Seq<TokenV>, p: nat, d: nat) -> Parsed<StmtV>
    decreases remaining(toks, p), 65nat,
{
    if at(toks, p, Sym::Semicolon) || at(toks, p, Sym::RBrace) || at_eof(toks, p) {
        (Ok(StmtV::Return(None)), semicolon_step(toks, p), d)
    } else {
        let (r, c, d1) = expr(toks, p, d);
        match r {
            Err(e) => (Err(e), c, d1),
            Ok(e) => (Ok(StmtV::Return(Some(e))), c + semicolon_step(toks, p + c), d1),
        }
    }
}

/// `block := "{" statement* "}"`, with the depth counted around it.
#[verifier::opaque]
pub open spec fn block(toks: Seq<TokenV>, p: nat, d: nat) -> Parsed<Seq<StmtV>>
    decreases remaining(toks, p), 58nat,
{
    if d + 1 > MAX_DEPTH {
        (Err(too_deep()), 0, d + 1)
    } else if !at(toks, p, Sym::LBrace) {
        (Err(expected("'{'"@, tok_at(toks, p))), 0, d + 1)
    } else {
        let (r, c, d2) = block_items(toks, p + 1, d + 1, Seq::empty());
        match r {
            Err(e) => (Err(e), 1 + c, d2),
            Ok(stmts) => if at(toks, p + 1 + c, Sym::RBrace) {
                (Ok(stmts), 2 + c, (d2 - 1) as nat)
            } else {
                (Err(expected("'}'"@, tok_at(toks, p + 1 + c))), 1 + c, d2)
            },
        }
    }
}

/// Statements up to a `}` or the end. A statement always consumes a token;
/// the test on `c` only makes that visible to the termination argument.
#[verifier::opaque]
pub open spec fn block_items(toks: Seq<TokenV>, p: nat, d: nat, acc: Seq<StmtV>) -> Parsed<Seq<StmtV>>
    decreases remaining(toks, p), 61nat,
{
    if at(toks, p, Sym::RBrace) || at_eof(toks, p) {
        (Ok(acc), 0, d)
    } else {
        let (r, c, d1) = stmt(toks, p, d);
        match r {
            Err(e) => (Err(e), c, d1),
            Ok(s) => if c == 0 {
                (Ok(acc.push(s)), 0, d1)
            } else {
                let (r2, c2, d2) = block_items(toks, p + c, d1, acc.push(s));
                (r2, c + c2, d2)
            },
        }
    }
}

/// `expression := assignment`, with the depth counted around it.
#[verifier::opaque]
pub open spec fn expr(toks: Seq<TokenV>, p: nat, d: nat) -> Parsed<ExprV>
    decreases remaining(toks, p), 50nat,
{
    if d + 1 > MAX_DEPTH {
        (Err(too_deep()), 0, d + 1)
    } else {
        let (r, c, d2) = assignment(toks, p, d + 1);
        (r, c, (d2 - 1) as nat)
    }
}

/// `assignment := logic_or ("=" assignment)?`; only a name may be assigned.
#[verifier::opaque]
pub open spec fn assignment(toks: Seq<TokenV>, p: nat, d: nat) -> Parsed<ExprV>
    decreases remaining(toks, p), 49nat,
{
    let (r, c, d1) = logic(toks, p, d, LogicOp::Or);
    match r {
        Err(e) => (Err(e), c, d1),
        Ok(target) => if at(toks, p + c, Sym::Eq) {
            let (r2, c2, d2) = assignment(toks, p + c + 1, d1);
            match r2 {
                Err(e) => (Err(e), c + 1 + c2, d2),
                Ok(v) => match target {
                    ExprV::Ident(name) => (Ok(ExprV::Assign(name, Box::new(v))), c + 1 + c2, d2),
                    _ => (Err(ErrorV::Parse("invalid assignment target"@)), c + 1 + c2, d2),
                },
            }
        } else {
            (Ok(target), c, d1)
        },
    }
}

pub open spec fn logic_sym(op: LogicOp) -> Sym {
    match op {
        LogicOp::Or => Sym::Or,
        LogicOp::And => Sym::And,
    }
}

pub open spec fn logic_rank(op: LogicOp) -> nat {
    match op {
        LogicOp::Or => 48,
        LogicOp::And => 44,
    }
}

/// `logic_or := logic_and ("or" logic_and)*` and
/// `logic_and := equality ("and" equality)*`, both left-associative.
#[verifier::opaque]
pub open spec fn logic(toks: Seq<TokenV>, p: nat, d: nat, op: LogicOp) -> Parsed<ExprV>
    decreases remaining(toks, p), logic_rank(op),
{
    let (r, c, d1) = logic_operand(toks, p, d, op);
    match r {
        Err(e) => (Err(e), c, d1),
        Ok(lhs) => {
            let (r2, c2, d2) = logic_tail(toks, p + c, d1, op, lhs);
            (r2, c + c2, d2)
        },
    }
}

#[verifier::opaque]
pub open spec fn logic_operand(toks: Seq<TokenV>, p: nat, d: nat, op: LogicOp) -> Parsed<ExprV>
    decreases remaining(toks, p), (logic_rank(op) - 2) as nat,
{
    match op {
        LogicOp::Or => logic(toks, p, d, LogicOp::And),
        LogicOp::And => binary(toks, p, d, 3),
    }
}

#[verifier::opaque]
pub open spec fn logic_tail(toks: Seq<TokenV>, p: nat, d: nat, op: LogicOp, lhs: ExprV) -> Parsed<ExprV>
    decreases remaining(toks, p), (logic_rank(op) - 1) as nat,
{
    if at(toks, p, logic_sym(op)) {
        let (r, c, d1) = logic_operand(toks, p + 1, d, op);
        match r {
            Err(e) => (Err(e), 1 + c, d1),
            Ok(rhs) => {
                let (r2, c2, d2) = logic_tail(toks, p + 1 + c, d1, op, ExprV::Logical(Box::new(lhs), op, Box::new(rhs)));
                (r2, 1 + c + c2, d2)
            },
        }
    } else {
        (Ok(lhs), 0, d)
    }
}

pub open spec fn binary_rank(level: nat) -> nat {
    18 + 3 * level
}

/// The binary levels `equality`, `comparison`, `term`, `factor`
/// (levels 3 down to 0), each `operand (op operand)*`, left-associative.
#[verifier::opaque]
pub open spec fn binary(toks: Seq<TokenV>, p: nat, d: nat, level: nat) -> Parsed<ExprV>
    decreases remaining(toks, p), binary_rank(level),
{
    let (r, c, d1) = binary_operand(toks, p, d, level);
    match r {
        Err(e) => (Err(e), c, d1),
        Ok(lhs) => {
            let (r2, c2, d2) = binary_tail(toks, p + c, d1, level, lhs);
            (r2, c + c2, d2)
        },
    }
}

#[verifier::opaque]
pub open spec fn binary_operand(toks: Seq<TokenV>, p: nat, d: nat, level: nat) -> Parsed<ExprV>
    decreases remaining(toks, p), (binary_rank(level) - 2) as nat,
{
    if level == 0 {
        unary(toks, p, d)
    } else {
        binary(toks, p, d, (level - 1) as nat)
    }
}

#[verifier::opaque]
pub open spec fn binary_tail(toks: Seq<TokenV>, p: nat, d: nat, level: nat, lhs: ExprV) -> Parsed<ExprV>
    decreases remaining(toks, p), (binary_rank(level) - 1) as nat,
{
    match binary_op_at(toks, p, level) {
        None => (Ok(lhs), 0, d),
        Some(op) => {
            let (r, c, d1) = binary_operand(toks, p + 1, d, level);
            match r {
                Err(e) => (Err(e), 1 + c, d1),
                Ok(rhs) => {
                    let (r2, c2, d2) = binary_tail(toks, p + 1 + c, d1, level, ExprV::Binary(Box::new(lhs), op, Box::new(rhs)));
                    (r2, 1 + c + c2, d2)
                },
            }
        },
    }
}

/// `unary := ("-" | "not") unary | call`, with the depth counted around it.
#[verifier::opaque]
pub open spec fn unary(toks: Seq<TokenV>, p: nat, d: nat) -> Parsed<ExprV>
    decreases remaining(toks, p), 15nat,
{
    if d + 1 > MAX_DEPTH {
        (Err(too_deep()), 0, d + 1)
    } else if at(toks, p, Sym::Minus) || at(toks, p, Sym::Not) {
        let op = if at(toks, p, Sym::Minus) { UnaryOp::Neg } else { UnaryOp::Not };
        let (r, c, d2) = unary(toks, p + 1, d + 1);
        match r {
            Err(e) => (Err(e), 1 + c, d2),
            Ok(x) => (Ok(ExprV::Unary(op, Box::new(x))), 1 + c, (d2 - 1) as nat),
        }
    } else {
        let (r, c, d2) = call(toks, p, d + 1);
        (r, c, (d2 - 1) as nat)
    }
}

/// `call := primary ("(" args? ")")*`
#[verifier::opaque]
pub open spec fn call(toks: Seq<TokenV>, p: nat, d: nat) -> Parsed<ExprV>
    decreases remaining(toks, p), 14nat,
{
    let (r, c, d1) = primary(toks, p, d);
    match r {
        Err(e) => (Err(e), c, d1),
        Ok(callee) => {
            let (r2, c2, d2) = call_tail(toks, p + c, d1, callee);
            (r2, c + c2, d2)
        },
    }
}

#[verifier::opaque]
pub open spec fn call_tail(toks: Seq<TokenV>, p: nat, d: nat, callee: ExprV) -> Parsed<ExprV>
    decreases remaining(toks, p), 13nat,
{
    if !at(toks, p, Sym::LParen) {
        (Ok(callee), 0, d)
    } else {
        let (ra, ca, d1) = if at(toks, p + 1, Sym::RParen) {
            (Ok(Seq::empty()), 0, d)
        } else {
            args(toks, p + 1, d, Seq::empty())
        };
        match ra {
            Err(e) => (Err(e), 1 + ca, d1),
            Ok(xs) => if at(toks, p + 1 + ca, Sym::RParen) {
                let (r2, c2, d2) = call_tail(toks, p + 2 + ca, d1, ExprV::Call(Box::new(callee), xs));
                (r2, 2 + ca + c2, d2)
            } else {
                (Err(expected("')' after arguments"@, tok_at(toks, p + 1 + ca))), 1 + ca, d1)
            },
        }
    }
}

/// `args := expression ("," expression)*`
#[verifier::opaque]
pub open spec fn args(toks: Seq<TokenV>, p: nat, d: nat, acc: Seq<ExprV>) -> Parsed<Seq<ExprV>>
    decreases remaining(toks, p), 51nat,
{
    let (r, c, d1) = expr(toks, p, d);
    match r {
        Err(e) => (Err(e), c, d1),
        Ok(x) => if at(toks, p + c, Sym::Comma) {
            let (r2, c2, d2) = args(toks, p + c + 1, d1, acc.push(x));
            (r2, c + 1 + c2, d2)
        } else {
            (Ok(acc.push(x)), c, d1)
        },
    }
}

/// `primary`, with the depth counted around it.
#[verifier::opaque]
pub open spec fn primary(toks: Seq<TokenV>, p: nat, d: nat) -> Parsed<ExprV>
    decreases remaining(toks, p), 12nat,
{
    if d + 1 > MAX_DEPTH {
        (Err(too_deep()), 0, d + 1)
    } else {
        let (r, c, d2) = primary_inner(toks, p, d + 1);
        (r, c, (d2 - 1) as nat)
    }
}

/// `primary := NUMBER | STRING | "true" | "false" | "nil" | IDENT | "(" expression ")"`
#[verifier::opaque]
pub open spec fn primary_inner(toks: Seq<TokenV>, p: nat, d: nat) -> Parsed<ExprV>
    decreases remaining(toks, p), 11nat,
{
    match tok_at(toks, p) {
        TokenV::Number(b) => (Ok(ExprV::Number(b)), 1, d),
        TokenV::Str(s) => (Ok(ExprV::Str(s)), 1, d),
        TokenV::Ident(n) => (Ok(ExprV::Ident(n)), 1, d),
        TokenV::Sym(Sym::True) => (Ok(ExprV::Bool(true)), 1, d),
        TokenV::Sym(Sym::False) => (Ok(ExprV::Bool(false)), 1, d),
        TokenV::Sym(Sym::Nil) => (Ok(ExprV::Nil), 1, d),
        TokenV::Sym(Sym::LParen) => {
            let (r, c, d1) = expr(toks, p + 1, d);
            match r {
                Err(e) => (Err(e), 1 + c, d1),
                Ok(x) => if at(toks, p + 1 + c, Sym::RParen) {
                    (Ok(x), 2 + c, d1)
                } else {
                    (Err(expected("')' after expression"@, tok_at(toks, p + 1 + c))), 1 + c, d1)
                },
            }
        },
        t => (Err(ErrorV::Parse("unexpected token "@ + token_text(t))), step(toks, p), d),
    }
}

/// `program := statement* EOF`, from position `p`.
#[verifier::opaque]
pub open spec fn program_from(toks: Seq<TokenV>, p: nat, d: nat, acc: Seq<StmtV>) -> Parsed<Seq<StmtV>>
    decreases remaining(toks, p),
{
    if at_eof(toks, p) {
        (Ok(acc), 0, d)
    } else {
        let (r, c, d1) = stmt(toks, p, d);
        match r {
            Err(e) => (Err(e), c, d1),
            Ok(s) => if c == 0 {
                (Ok(acc.push(s)), 0, d1)
            } else {
                let (r2, c2, d2) = program_from(toks, p + c, d1, acc.push(s));
                (r2, c + c2, d2)
            },
        }
    }
}

pub proof fn lemma_program_step(toks: Seq<TokenV>, p: nat, d: nat, acc: Seq<StmtV>)
    requires
        !at_eof(toks, p),
    ensures
        program_from(toks, p, d, acc) == ({
            let (r, c, d1) = stmt(toks, p, d);
            match r {
                Err(e) => (Err(e), c, d1),
                Ok(s) => if c == 0 {
                    (Ok(acc.push(s)), 0, d1)
                } else {
                    let (r2, c2, d2) = program_from(toks, p + c, d1, acc.push(s));
                    (r2, c + c2, d2)
                },
            }
        }),
{
    reveal_with_fuel(program_from, 1);
    reveal_with_fuel(stmt, 1);
}

pub proof fn lemma_call_tail_step(toks: Seq<TokenV>, p: nat, d: nat, callee: ExprV)
    requires
        at(toks, p, Sym::LParen),
    ensures
        call_tail(toks, p, d, callee) == ({
            let (ra, ca, d1) = if at(toks, p + 1, Sym::RParen) {
                (Ok(Seq::empty()), 0, d)
            } else {
                args(toks, p + 1, d, Seq::empty())
            };
            match ra {
                Err(e) => (Err(e), 1 + ca, d1),
                Ok(xs) => if at(toks, p + 1 + ca, Sym::RParen) {
                    let (r2, c2, d2) = call_tail(toks, p + 2 + ca, d1, ExprV::Call(Box::new(callee), xs));
                    (r2, 2 + ca + c2, d2)
                } else {
                    (Err(expected("')' after arguments"@, tok_at(toks, p + 1 + ca))), 1 + ca, d1)
                },
            }
        }),
{
    reveal_with_fuel(call_tail, 1);
    reveal_with_fuel(args, 1);
}

/// The statements of a whole token sequence.
pub open spec fn program(toks: Seq<TokenV>) -> Result<Seq<StmtV>, ErrorV> {
    program_from(toks, 0, 0, Seq::empty()).0
}

} // verus!
