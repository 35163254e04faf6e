//! Recursive-descent parser over the token stream. Its results are those of
//! the grammar in `grammar.rs`; a depth counter bounds the nesting so that
//! hostile input such as thousands of nested parentheses ends in a parse
//! error rather than exhausting the call stack.
use std::rc::Rc;
use vstd::prelude::*;

use crate::ast::{block_view, exprs_view, strings_view, BinOp, Block, Expr, ExprV, LogicOp, Stmt, StmtV, UnaryOp};
use crate::error::{ErrorV, SpriteError, SpriteResult};
use crate::grammar::{
    args, assignment, at, at_eof, binary, binary_op_at, binary_operand, binary_tail, block, block_items, call,
    call_tail, else_branch, escaped, expected, expr, fn_decl, ident_at, if_branches, if_stmt,
    lemma_call_tail_step, lemma_program_step, let_stmt, logic, logic_operand, logic_sym, logic_tail, params,
    params_from, primary, primary_inner, program, program_from, quoted, return_stmt, same, step, stmt,
    stmt_inner, sym_name, tok_at, token_text, too_deep, unary, while_body, while_stmt, MAX_DEPTH, Parsed,
};
use crate::lexer::{tokens_view, Sym, Token, TokenV};
use crate::numtext::debug_number;
use crate::text::{append_str, lit, push_char};

verus! {

pub open spec fn expr_result(r: SpriteResult<Expr>) -> Result<ExprV, ErrorV> {
    match r {
        Ok(e) => Ok(e@),
        Err(e) => Err(e@),
    }
}

pub open spec fn stmt_result(r: SpriteResult<Stmt>) -> Result<StmtV, ErrorV> {
    match r {
        Ok(s) => Ok(s@),
        Err(e) => Err(e@),
    }
}

pub open spec fn block_result(r: SpriteResult<Block>) -> Result<Seq<StmtV>, ErrorV> {
    match r {
        Ok(b) => Ok(block_view(b@)),
        Err(e) => Err(e@),
    }
}

pub open spec fn exprs_result(r: SpriteResult<Vec<Expr>>) -> Result<Seq<ExprV>, ErrorV> {
    match r {
        Ok(v) => Ok(exprs_view(v@)),
        Err(e) => Err(e@),
    }
}

pub open spec fn unit_result(r: SpriteResult<()>) -> Result<(), ErrorV> {
    match r {
        Ok(_) => Ok(()),
        Err(e) => Err(e@),
    }
}

fn sym_text(k: Sym) -> (r: String)
    ensures
        r@ == sym_name(k),
{
    reveal(sym_name);
    match k {
        Sym::Let => lit("Let"),
        Sym::Fn => lit("Fn"),
        Sym::If => lit("If"),
        Sym::Else => lit("Else"),
        Sym::While => lit("While"),
        Sym::Return => lit("Return"),
        Sym::True => lit("True"),
        Sym::False => lit("False"),
        Sym::Nil => lit("Nil"),
        Sym::And => lit("And"),
        Sym::Or => lit("Or"),
        Sym::Not => lit("Not"),
        Sym::Plus => lit("Plus"),
        Sym::Minus => lit("Minus"),
        Sym::Star => lit("Star"),
        Sym::Slash => lit("Slash"),
        Sym::Percent => lit("Percent"),
        Sym::Eq => lit("Eq"),
        Sym::EqEq => lit("EqEq"),
        Sym::NotEq => lit("NotEq"),
        Sym::Lt => lit("Lt"),
        Sym::Gt => lit("Gt"),
        Sym::LtEq => lit("LtEq"),
        Sym::GtEq => lit("GtEq"),
        Sym::LParen => lit("LParen"),
        Sym::RParen => lit("RParen"),
        Sym::LBrace => lit("LBrace"),
        Sym::RBrace => lit("RBrace"),
        Sym::Comma => lit("Comma"),
        Sym::Semicolon => lit("Semicolon"),
    }
}

fn push_quoted(s: &mut String, text: &String)
    ensures
        final(s)@ == old(s)@ + quoted(text@),
{
    let cs = crate::text::chars_of(text.as_str());
    push_char(s, '"');
    let ghost start = s@;
    let mut i: usize = 0;
    while i < cs.len()
        invariant
            i <= cs.len(),
            cs@ == text@,
            s@ == start + escaped(cs@.take(i as int)),
        decreases cs.len() - i,
    {
        let c = cs[i];
        if c == '\'' {
            push_char(s, c);
        } else {
            let e = crate::text::escape_debug(c);
            append_str(s, e.as_str());
        }
        proof {
            assert(cs@.take(i + 1).drop_last() =~= cs@.take(i as int));
            assert(s@ =~= start + escaped(cs@.take(i + 1)));
        }
        i = i + 1;
    }
    push_char(s, '"');
    assert(cs@.take(cs.len() as int) =~= cs@);
    assert(s@ =~= old(s)@ + quoted(text@));
}

/// How diagnostics name a token (`token_text`).
pub fn describe_token(t: &Token) -> (r: String)
    ensures
        r@ == token_text(t@),
{
    reveal(token_text);
    match t {
        Token::Number(b) => {
            let mut s = lit("Number(");
            let n = debug_number(*b);
            append_str(&mut s, n.as_str());
            append_str(&mut s, ")");
            s
        },
        Token::Str(x) => {
            let mut s = lit("Str(");
            push_quoted(&mut s, x);
            append_str(&mut s, ")");
            s
        },
        Token::Ident(x) => {
            let mut s = lit("Ident(");
            push_quoted(&mut s, x);
            append_str(&mut s, ")");
            s
        },
        Token::Sym(k) => sym_text(*k),
        Token::Eof => lit("Eof"),
    }
}

/// A parser over a token sequence: the tokens, the position of the next
/// token, and the current nesting depth.
pub struct Parser {
    tokens: Vec<Token>,
    pos: usize,
    depth: usize,
}

impl Parser {
    pub closed spec fn toks(self) -> Seq<TokenV> {
        tokens_view(self.tokens@)
    }

    pub closed spec fn position(self) -> nat {
        self.pos as nat
    }

    pub closed spec fn nesting(self) -> nat {
        self.depth as nat
    }

    /// The state every parsing method may start from.
    pub closed spec fn ready(self) -> bool {
        &&& self.pos <= self.tokens.len()
        &&& self.depth < usize::MAX
    }

    /// `self` is what a parsing method left from `before`: same tokens, the
    /// position moved forward by `consumed`, and the depth bounds every
    /// method keeps.
    pub closed spec fn moved(self, before: Parser, consumed: nat, depth: nat, ok: bool) -> bool {
        &&& self.tokens@ == before.tokens@
        &&& before.pos <= self.pos <= self.tokens.len()
        &&& consumed == self.pos - before.pos
        &&& depth == self.depth
        &&& before.depth <= self.depth
        &&& (ok ==> self.depth == before.depth)
    }

    pub open spec fn leaves_stmt(self, before: Parser, r: SpriteResult<Stmt>, g: Parsed<StmtV>) -> bool {
        &&& stmt_result(r) == g.0
        &&& self.moved(before, g.1, g.2, r is Ok)
    }

    pub open spec fn leaves_expr(self, before: Parser, r: SpriteResult<Expr>, g: Parsed<ExprV>) -> bool {
        &&& expr_result(r) == g.0
        &&& self.moved(before, g.1, g.2, r is Ok)
    }

    pub open spec fn leaves_block(self, before: Parser, r: SpriteResult<Block>, g: Parsed<Seq<StmtV>>) -> bool {
        &&& block_result(r) == g.0
        &&& self.moved(before, g.1, g.2, r is Ok)
    }

    pub open spec fn leaves_exprs(self, before: Parser, r: SpriteResult<Vec<Expr>>, g: Parsed<Seq<ExprV>>) -> bool {
        &&& exprs_result(r) == g.0
        &&& self.moved(before, g.1, g.2, r is Ok)
    }

    pub closed spec fn advanced(self, before: Parser) -> bool {
        self.pos > before.pos
    }

    pub fn new(tokens: Vec<Token>) -> (r: Parser)
        ensures
            r.toks() == tokens_view(tokens@),
            r.position() == 0,
            r.nesting() == 0,
            r.ready(),
    {
        Parser { tokens, pos: 0, depth: 0 }
    }

    fn enter(&mut self) -> (r: SpriteResult<()>)
        requires
            old(self).depth < usize::MAX,
        ensures
            final(self).tokens@ == old(self).tokens@,
            final(self).pos == old(self).pos,
            final(self).depth == old(self).depth + 1,
            r is Ok <==> final(self).depth <= MAX_DEPTH,
            r matches Err(e) ==> e@ == too_deep(),
    {
        reveal(too_deep);
        self.depth = self.depth + 1;
        if self.depth > MAX_DEPTH {
            return Err(SpriteError::Parse(lit("expression nested too deeply")));
        }
        Ok(())
    }

    fn exit(&mut self)
        requires
            old(self).depth >= 1,
        ensures
            final(self).tokens@ == old(self).tokens@,
            final(self).pos == old(self).pos,
            final(self).depth == old(self).depth - 1,
    {
        self.depth = self.depth - 1;
    }

    fn peek(&self) -> (r: Token)
        ensures
            r@ == tok_at(self.toks(), self.pos as nat),
    {
        if self.pos < self.tokens.len() {
            self.tokens[self.pos].duplicate()
        } else {
            Token::Eof
        }
    }

    fn check(&self, k: Sym) -> (r: bool)
        ensures
            r == at(self.toks(), self.pos as nat, k),
    {
        if self.pos < self.tokens.len() {
            match &self.tokens[self.pos] {
                Token::Sym(s) => *s == k,
                _ => false,
            }
        } else {
            false
        }
    }

    fn check_eof(&self) -> (r: bool)
        ensures
            r == at_eof(self.toks(), self.pos as nat),
    {
        if self.pos < self.tokens.len() {
            match &self.tokens[self.pos] {
                Token::Eof => true,
                _ => false,
            }
        } else {
            true
        }
    }

    fn advance(&mut self) -> (r: Token)
        requires
            old(self).pos <= old(self).tokens.len(),
        ensures
            final(self).tokens@ == old(self).tokens@,
            final(self).depth == old(self).depth,
            r@ == tok_at(old(self).toks(), old(self).pos as nat),
            final(self).pos == old(self).pos + step(old(self).toks(), old(self).pos as nat),
            final(self).pos <= final(self).tokens.len(),
    {
        let t = self.peek();
        match t {
            Token::Eof => {},
            _ => {
                self.pos = self.pos + 1;
            },
        }
        t
    }

    fn matches(&mut self, k: Sym) -> (r: bool)
        requires
            old(self).pos <= old(self).tokens.len(),
        ensures
            final(self).tokens@ == old(self).tokens@,
            final(self).depth == old(self).depth,
            r == at(old(self).toks(), old(self).pos as nat, k),
            final(self).pos == old(self).pos + if r { 1nat } else { 0nat },
            final(self).pos <= final(self).tokens.len(),
    {
        if self.check(k) {
            self.advance();
            true
        } else {
            false
        }
    }

    fn expect(&mut self, k: Sym, what: &str) -> (r: SpriteResult<()>)
        requires
            old(self).pos <= old(self).tokens.len(),
        ensures
            final(self).tokens@ == old(self).tokens@,
            final(self).depth == old(self).depth,
            final(self).pos <= final(self).tokens.len(),
            at(old(self).toks(), old(self).pos as nat, k) ==> r is Ok && final(self).pos == old(self).pos + 1,
            !at(old(self).toks(), old(self).pos as nat, k) ==> final(self).pos == old(self).pos && (r matches Err(e)
                && e@ == expected(what@, tok_at(old(self).toks(), old(self).pos as nat))),
    {
        reveal(expected);
        if self.matches(k) {
            Ok(())
        } else {
            let mut m = lit("expected ");
            append_str(&mut m, what);
            append_str(&mut m, ", found ");
            let t = self.peek();
            let d = describe_token(&t);
            append_str(&mut m, d.as_str());
            Err(SpriteError::Parse(m))
        }
    }

    fn expect_ident(&mut self) -> (r: SpriteResult<String>)
        requires
            old(self).pos <= old(self).tokens.len(),
        ensures
            final(self).tokens@ == old(self).tokens@,
            final(self).depth == old(self).depth,
            final(self).pos <= final(self).tokens.len(),
            final(self).pos == old(self).pos + step(old(self).toks(), old(self).pos as nat),
            match ident_at(old(self).toks(), old(self).pos as nat) {
                Ok(n) => r matches Ok(x) && x@ == n,
                Err(e) => r matches Err(x) && x@ == e,
            },
    {
        let t = self.advance();
        match t {
            Token::Ident(name) => Ok(name),
            other => {
                let mut m = lit("expected identifier, found ");
                let d = describe_token(&other);
                append_str(&mut m, d.as_str());
                Err(SpriteError::Parse(m))
            },
        }
    }


    /// `program := statement* EOF`: the statements up to the end.
    #[verifier::spinoff_prover]
    #[verifier::rlimit(100)]
    pub fn parse_program(&mut self) -> (r: SpriteResult<Block>)
        requires
            old(self).ready(),
        ensures
            final(self).leaves_block(*old(self), r,
                program_from(old(self).toks(), old(self).position(), old(self).nesting(), Seq::empty())),
            r matches Ok(stmts) ==> at_eof(final(self).toks(), final(self).position())
                && stmts.len() <= final(self).position() - old(self).position()
                && forall|i: nat| old(self).position() <= i < final(self).position()
                    ==> !(#[trigger] tok_at(final(self).toks(), i) is Eof),
    {
        reveal_with_fuel(program_from, 1);
        reveal_with_fuel(stmt, 1);
        let ghost t = self.toks();
        let ghost p0 = self.pos as nat;
        let ghost d0 = self.depth as nat;
        let mut stmts: Vec<Stmt> = Vec::new();
        loop
            invariant
                self.toks() == t,
                self.tokens@ == old(self).tokens@,
                p0 == old(self).pos,
                d0 == old(self).depth,
                p0 <= self.pos <= self.tokens.len(),
                self.depth == d0,
                self.depth < usize::MAX,
                same(program_from(t, p0, d0, Seq::empty()), {
                    let g = program_from(t, self.pos as nat, d0, block_view(stmts@));
                    (g.0, g.1 + (self.pos - p0) as nat, g.2)
                }),
            decreases self.tokens@.len() - self.pos,
        {
            reveal_with_fuel(program_from, 1);
            reveal_with_fuel(stmt, 1);
            if self.check_eof() {
                proof {
                    crate::laws::lemma_program_reads(t, p0, d0, Seq::empty());
                    crate::ast::lemma_block_view_index(stmts@);
                }
                return Ok(stmts);
            }
            proof {
                lemma_program_step(t, self.pos as nat, d0, block_view(stmts@));
            }
            let s = self.parse_stmt();
            match s {
                Err(e) => {
                    return Err(e);
                },
                Ok(s) => {
                    proof {
                        crate::ast::lemma_block_view_push(stmts@, s);
                    }
                    stmts.push(s);
                },
            }
        }
    }

    #[verifier::spinoff_prover]
    #[verifier::rlimit(40)]
    fn parse_stmt(&mut self) -> (r: SpriteResult<Stmt>)
        requires
            old(self).ready(),
        ensures
            final(self).leaves_stmt(*old(self), r, stmt(old(self).toks(), old(self).pos as nat, old(self).depth as nat)),
            r is Ok ==> final(self).advanced(*old(self)),
        decreases old(self).tokens@.len() - old(self).pos, 60nat,
    {
        reveal_with_fuel(stmt, 1);
        reveal_with_fuel(stmt_inner, 1);
        self.enter()?;
        let result = self.parse_stmt_inner();
        self.exit();
        result
    }

    /// The parameter names of a declaration, up to (not including) `)`.
    #[verifier::spinoff_prover]
    #[verifier::rlimit(40)]
    fn parse_params(&mut self) -> (r: SpriteResult<Vec<String>>)
        requires
            old(self).ready(),
        ensures
            final(self).tokens@ == old(self).tokens@,
            final(self).depth == old(self).depth,
            old(self).pos <= final(self).pos <= final(self).tokens.len(),
            same(params(old(self).toks(), old(self).pos as nat), (match r {
                Ok(ps) => Ok(strings_view(ps@)),
                Err(e) => Err(e@),
            }, (final(self).pos - old(self).pos) as nat)),
    {
        let ghost t = self.toks();
        let ghost p0 = self.pos as nat;
        let mut ps: Vec<String> = Vec::new();
        if self.check(Sym::RParen) {
            assert(strings_view(ps@) =~= Seq::empty());
            return Ok(ps);
        }
        assert(strings_view(ps@) =~= Seq::empty());
        loop
            invariant
                self.toks() == t,
                self.tokens@ == old(self).tokens@,
                self.depth == old(self).depth,
                p0 == old(self).pos,
                p0 <= self.pos <= self.tokens.len(),
                same(params(t, p0), {
                    let g = params_from(t, self.pos as nat, strings_view(ps@));
                    (g.0, g.1 + (self.pos - p0) as nat)
                }),
            decreases self.tokens@.len() - self.pos,
        {
            let n = self.expect_ident()?;
            let ghost nv = n@;
            let ghost old_ps = ps@;
            ps.push(n);
            assert(strings_view(ps@) =~= strings_view(old_ps).push(nv));
            if !self.matches(Sym::Comma) {
                return Ok(ps);
            }
        }
    }

    #[verifier::spinoff_prover]
    #[verifier::rlimit(100)]
    fn parse_stmt_inner(&mut self) -> (r: SpriteResult<Stmt>)
        requires
            old(self).ready(),
        ensures
            final(self).leaves_stmt(*old(self), r, stmt_inner(old(self).toks(), old(self).pos as nat, old(self).depth as nat)),
            r is Ok ==> final(self).advanced(*old(self)),
        decreases old(self).tokens@.len() - old(self).pos, 59nat,
    {
        reveal_with_fuel(stmt_inner, 1);
        reveal_with_fuel(let_stmt, 1);
        reveal_with_fuel(fn_decl, 1);
        reveal_with_fuel(if_stmt, 1);
        reveal_with_fuel(while_stmt, 1);
        reveal_with_fuel(return_stmt, 1);
        reveal_with_fuel(block, 1);
        reveal_with_fuel(expr, 1);
        let t = self.peek();
        match t {
            Token::Sym(Sym::Let) => {
                self.advance();
                self.parse_let()
            },
            Token::Sym(Sym::Fn) => {
                self.advance();
                self.parse_fn_decl()
            },
            Token::Sym(Sym::If) => {
                self.advance();
                self.parse_if()
            },
            Token::Sym(Sym::While) => {
                self.advance();
                self.parse_while()
            },
            Token::Sym(Sym::Return) => {
                self.advance();
                self.parse_return()
            },
            Token::Sym(Sym::LBrace) => {
                let b = self.parse_block()?;
                Ok(Stmt::Block(b))
            },
            _ => {
                let e = self.parse_expr()?;
                self.matches(Sym::Semicolon);
                Ok(Stmt::Expr(e))
            },
        }
    }

    #[verifier::spinoff_prover]
    #[verifier::rlimit(40)]
    fn parse_let(&mut self) -> (r: SpriteResult<Stmt>)
        requires
            old(self).ready(),
        ensures
            final(self).leaves_stmt(*old(self), r, let_stmt(old(self).toks(), old(self).pos as nat, old(self).depth as nat)),
            r is Ok ==> final(self).advanced(*old(self)),
        decreases old(self).tokens@.len() - old(self).pos, 65nat,
    {
        reveal_with_fuel(let_stmt, 1);
        reveal_with_fuel(expr, 1);
        let name = self.expect_ident()?;
        self.expect(Sym::Eq, "'=' after let name")?;
        let e = self.parse_expr()?;
        self.matches(Sym::Semicolon);
        Ok(Stmt::Let(name, e))
    }

    #[verifier::spinoff_prover]
    #[verifier::rlimit(40)]
    fn parse_fn_decl(&mut self) -> (r: SpriteResult<Stmt>)
        requires
            old(self).ready(),
        ensures
            final(self).leaves_stmt(*old(self), r, fn_decl(old(self).toks(), old(self).pos as nat, old(self).depth as nat)),
            r is Ok ==> final(self).advanced(*old(self)),
        decreases old(self).tokens@.len() - old(self).pos, 65nat,
    {
        reveal_with_fuel(fn_decl, 1);
        reveal_with_fuel(block, 1);
        let name = self.expect_ident()?;
        self.expect(Sym::LParen, "'(' after function name")?;
        let ps = self.parse_params()?;
        self.expect(Sym::RParen, "')' after parameters")?;
        let body = self.parse_block()?;
        Ok(Stmt::FnDecl(name, ps, Rc::new(body)))
    }

    #[verifier::spinoff_prover]
    #[verifier::rlimit(100)]
    fn parse_if(&mut self) -> (r: SpriteResult<Stmt>)
        requires
            old(self).ready(),
        ensures
            final(self).leaves_stmt(*old(self), r, if_stmt(old(self).toks(), old(self).pos as nat, old(self).depth as nat)),
            r is Ok ==> final(self).advanced(*old(self)),
        decreases old(self).tokens@.len() - old(self).pos, 65nat,
    {
        reveal_with_fuel(if_stmt, 1);
        reveal_with_fuel(expr, 1);
        reveal_with_fuel(if_branches, 1);
        let cond = self.parse_expr()?;
        self.parse_if_branches(cond)
    }

    #[verifier::spinoff_prover]
    #[verifier::rlimit(100)]
    fn parse_if_branches(&mut self, cond: Expr) -> (r: SpriteResult<Stmt>)
        requires
            old(self).ready(),
        ensures
            final(self).leaves_stmt(*old(self), r, if_branches(old(self).toks(), old(self).pos as nat, old(self).depth as nat, cond@)),
            r is Ok ==> final(self).advanced(*old(self)),
        decreases old(self).tokens@.len() - old(self).pos, 64nat,
    {
        reveal_with_fuel(if_branches, 1);
        reveal_with_fuel(block, 1);
        reveal_with_fuel(else_branch, 1);
        let then_block = self.parse_block()?;
        let else_block = self.parse_else()?;
        Ok(Stmt::If(cond, then_block, else_block))
    }

    #[verifier::spinoff_prover]
    #[verifier::rlimit(40)]
    fn parse_else(&mut self) -> (r: SpriteResult<Option<Block>>)
        requires
            old(self).ready(),
        ensures
            ({
                let g = else_branch(old(self).toks(), old(self).pos as nat, old(self).depth as nat);
                &&& g.0 == match r {
                    Ok(Some(b)) => Ok(Some(block_view(b@))),
                    Ok(None) => Ok(None),
                    Err(e) => Err(e@),
                }
                &&& final(self).moved(*old(self), g.1, g.2, r is Ok)
            }),
        decreases old(self).tokens@.len() - old(self).pos, 62nat,
    {
        reveal_with_fuel(else_branch, 1);
        reveal_with_fuel(stmt, 1);
        reveal_with_fuel(block, 1);
        if !self.matches(Sym::Else) {
            return Ok(None);
        }
        if self.check(Sym::If) {
            let s = self.parse_stmt()?;
            let mut v: Vec<Stmt> = Vec::new();
            proof {
                crate::ast::lemma_block_view_push(v@, s);
            }
            v.push(s);
            assert(block_view(v@) =~= seq![s@]);
            Ok(Some(v))
        } else {
            let b = self.parse_block()?;
            Ok(Some(b))
        }
    }

    #[verifier::spinoff_prover]
    #[verifier::rlimit(40)]
    fn parse_while(&mut self) -> (r: SpriteResult<Stmt>)
        requires
            old(self).ready(),
        ensures
            final(self).leaves_stmt(*old(self), r, while_stmt(old(self).toks(), old(self).pos as nat, old(self).depth as nat)),
            r is Ok ==> final(self).advanced(*old(self)),
        decreases old(self).tokens@.len() - old(self).pos, 65nat,
    {
        reveal_with_fuel(while_stmt, 1);
        reveal_with_fuel(expr, 1);
        reveal_with_fuel(while_body, 1);
        let cond = self.parse_expr()?;
        self.parse_while_body(cond)
    }

    #[verifier::spinoff_prover]
    #[verifier::rlimit(40)]
    fn parse_while_body(&mut self, cond: Expr) -> (r: SpriteResult<Stmt>)
        requires
            old(self).ready(),
        ensures
            final(self).leaves_stmt(*old(self), r, while_body(old(self).toks(), old(self).pos as nat, old(self).depth as nat, cond@)),
            r is Ok ==> final(self).advanced(*old(self)),
        decreases old(self).tokens@.len() - old(self).pos, 64nat,
    {
        reveal_with_fuel(while_body, 1);
        reveal_with_fuel(block, 1);
        let body = self.parse_block()?;
        Ok(Stmt::While(cond, body))
    }

    #[verifier::spinoff_prover]
    #[verifier::rlimit(40)]
    fn parse_return(&mut self) -> (r: SpriteResult<Stmt>)
        requires
            old(self).ready(),
        ensures
            final(self).leaves_stmt(*old(self), r, return_stmt(old(self).toks(), old(self).pos as nat, old(self).depth as nat)),
        decreases old(self).tokens@.len() - old(self).pos, 65nat,
    {
        reveal_with_fuel(return_stmt, 1);
        reveal_with_fuel(expr, 1);
        let e = if self.check(Sym::Semicolon) || self.check(Sym::RBrace) || self.check_eof() {
            None
        } else {
            Some(self.parse_expr()?)
        };
        self.matches(Sym::Semicolon);
        Ok(Stmt::Return(e))
    }

    #[verifier::spinoff_prover]
    #[verifier::rlimit(40)]
    fn parse_block(&mut self) -> (r: SpriteResult<Block>)
        requires
            old(self).ready(),
        ensures
            final(self).leaves_block(*old(self), r, block(old(self).toks(), old(self).pos as nat, old(self).depth as nat)),
            r is Ok ==> final(self).advanced(*old(self)),
        decreases old(self).tokens@.len() - old(self).pos, 58nat,
    {
        reveal_with_fuel(block, 1);
        reveal_with_fuel(block_items, 1);
        self.enter()?;
        self.expect(Sym::LBrace, "'{'")?;
        let stmts = self.parse_block_items()?;
        self.expect(Sym::RBrace, "'}'")?;
        self.exit();
        Ok(stmts)
    }

    /// Statements up to a `}` or the end of the tokens.
    #[verifier::rlimit(60)]
    #[verifier::spinoff_prover]
    fn parse_block_items(&mut self) -> (r: SpriteResult<Block>)
        requires
            old(self).ready(),
        ensures
            final(self).leaves_block(*old(self), r,
                block_items(old(self).toks(), old(self).pos as nat, old(self).depth as nat, Seq::empty())),
        decreases old(self).tokens@.len() - old(self).pos, 61nat,
    {
        reveal_with_fuel(block_items, 1);
        reveal_with_fuel(stmt, 1);
        let ghost t = self.toks();
        let ghost p0 = self.pos as nat;
        let ghost d0 = self.depth as nat;
        let mut stmts: Vec<Stmt> = Vec::new();
        loop
            invariant
                self.toks() == t,
                self.tokens@ == old(self).tokens@,
                p0 == old(self).pos,
                d0 == old(self).depth,
                p0 <= self.pos <= self.tokens.len(),
                self.depth == d0,
                self.depth < usize::MAX,
                same(block_items(t, p0, d0, Seq::empty()), {
                    let g = block_items(t, self.pos as nat, d0, block_view(stmts@));
                    (g.0, g.1 + (self.pos - p0) as nat, g.2)
                }),
            decreases self.tokens@.len() - self.pos,
        {
            reveal_with_fuel(block_items, 1);
            reveal_with_fuel(stmt, 1);
            if self.check(Sym::RBrace) || self.check_eof() {
                return Ok(stmts);
            }
            let s = self.parse_stmt()?;
            proof {
                crate::ast::lemma_block_view_push(stmts@, s);
            }
            stmts.push(s);
        }
    }

    #[verifier::spinoff_prover]
    #[verifier::rlimit(40)]
    fn parse_expr(&mut self) -> (r: SpriteResult<Expr>)
        requires
            old(self).ready(),
        ensures
            final(self).leaves_expr(*old(self), r, expr(old(self).toks(), old(self).pos as nat, old(self).depth as nat)),
            r is Ok ==> final(self).advanced(*old(self)),
        decreases old(self).tokens@.len() - old(self).pos, 50nat,
    {
        reveal_with_fuel(expr, 1);
        reveal_with_fuel(assignment, 1);
        self.enter()?;
        let result = self.parse_assignment();
        self.exit();
        result
    }

    #[verifier::spinoff_prover]
    #[verifier::rlimit(40)]
    fn parse_assignment(&mut self) -> (r: SpriteResult<Expr>)
        requires
            old(self).ready(),
        ensures
            final(self).leaves_expr(*old(self), r, assignment(old(self).toks(), old(self).pos as nat, old(self).depth as nat)),
            r is Ok ==> final(self).advanced(*old(self)),
        decreases old(self).tokens@.len() - old(self).pos, 49nat,
    {
        reveal_with_fuel(assignment, 1);
        reveal_with_fuel(logic, 1);
        let target = self.parse_logic(LogicOp::Or)?;
        if self.matches(Sym::Eq) {
            let value = self.parse_assignment()?;
            match target {
                Expr::Ident(name) => {
                    return Ok(Expr::Assign(name, Box::new(value)));
                },
                _ => {
                    return Err(SpriteError::Parse(lit("invalid assignment target")));
                },
            }
        }
        Ok(target)
    }

    /// `logic_or` (`op` is `Or`) and `logic_and` (`op` is `And`).
    #[verifier::spinoff_prover]
    #[verifier::rlimit(40)]
    fn parse_logic(&mut self, op: LogicOp) -> (r: SpriteResult<Expr>)
        requires
            old(self).ready(),
        ensures
            final(self).leaves_expr(*old(self), r, logic(old(self).toks(), old(self).pos as nat, old(self).depth as nat, op)),
            r is Ok ==> final(self).advanced(*old(self)),
        decreases old(self).tokens@.len() - old(self).pos, crate::grammar::logic_rank(op),
    {
        reveal_with_fuel(logic, 1);
        reveal_with_fuel(logic_operand, 1);
        reveal_with_fuel(logic_tail, 1);
        let ghost t = self.toks();
        let ghost p0 = self.pos as nat;
        let ghost d0 = self.depth as nat;
        let mut e = self.parse_logic_operand(op)?;
        let sym = match op {
            LogicOp::Or => Sym::Or,
            LogicOp::And => Sym::And,
        };
        loop
            invariant
                self.toks() == t,
                self.tokens@ == old(self).tokens@,
                p0 == old(self).pos,
                d0 == old(self).depth,
                p0 < self.pos <= self.tokens.len(),
                self.depth == d0,
                self.depth < usize::MAX,
                sym == logic_sym(op),
                same(logic(t, p0, d0, op), {
                    let g = logic_tail(t, self.pos as nat, d0, op, e@);
                    (g.0, g.1 + (self.pos - p0) as nat, g.2)
                }),
            decreases self.tokens@.len() - self.pos,
        {
            reveal_with_fuel(logic, 1);
            reveal_with_fuel(logic_operand, 1);
            reveal_with_fuel(logic_tail, 1);
            if !self.matches(sym) {
                return Ok(e);
            }
            let rhs = self.parse_logic_operand(op)?;
            e = Expr::Logical(Box::new(e), op, Box::new(rhs));
        }
    }

    #[verifier::spinoff_prover]
    #[verifier::rlimit(40)]
    fn parse_logic_operand(&mut self, op: LogicOp) -> (r: SpriteResult<Expr>)
        requires
            old(self).ready(),
        ensures
            final(self).leaves_expr(*old(self), r, logic_operand(old(self).toks(), old(self).pos as nat, old(self).depth as nat, op)),
            r is Ok ==> final(self).advanced(*old(self)),
        decreases old(self).tokens@.len() - old(self).pos, (crate::grammar::logic_rank(op) - 2) as nat,
    {
        reveal_with_fuel(logic_operand, 1);
        reveal_with_fuel(logic, 1);
        reveal_with_fuel(binary, 1);
        match op {
            LogicOp::Or => self.parse_logic(LogicOp::And),
            LogicOp::And => self.parse_binary(3),
        }
    }

    /// The binary levels: 3 `equality`, 2 `comparison`, 1 `term`, 0 `factor`.
    #[verifier::spinoff_prover]
    #[verifier::rlimit(40)]
    fn parse_binary(&mut self, level: u8) -> (r: SpriteResult<Expr>)
        requires
            old(self).ready(),
            level <= 3,
        ensures
            final(self).leaves_expr(*old(self), r, binary(old(self).toks(), old(self).pos as nat, old(self).depth as nat, level as nat)),
            r is Ok ==> final(self).advanced(*old(self)),
        decreases old(self).tokens@.len() - old(self).pos, crate::grammar::binary_rank(level as nat),
    {
        reveal_with_fuel(binary, 1);
        reveal_with_fuel(binary_operand, 1);
        reveal_with_fuel(binary_tail, 1);
        let ghost t = self.toks();
        let ghost p0 = self.pos as nat;
        let ghost d0 = self.depth as nat;
        let mut e = self.parse_binary_operand(level)?;
        loop
            invariant
                self.toks() == t,
                self.tokens@ == old(self).tokens@,
                p0 == old(self).pos,
                d0 == old(self).depth,
                p0 < self.pos <= self.tokens.len(),
                self.depth == d0,
                self.depth < usize::MAX,
                level <= 3,
                same(binary(t, p0, d0, level as nat), {
                    let g = binary_tail(t, self.pos as nat, d0, level as nat, e@);
                    (g.0, g.1 + (self.pos - p0) as nat, g.2)
                }),
            decreases self.tokens@.len() - self.pos,
        {
            reveal_with_fuel(binary, 1);
            reveal_with_fuel(binary_operand, 1);
            reveal_with_fuel(binary_tail, 1);
            let op = match self.binary_op(level) {
                Some(op) => op,
                None => {
                    return Ok(e);
                },
            };
            self.advance();
            let rhs = self.parse_binary_operand(level)?;
            e = Expr::Binary(Box::new(e), op, Box::new(rhs));
        }
    }

    fn binary_op(&self, level: u8) -> (r: Option<BinOp>)
        ensures
            r == binary_op_at(self.toks(), self.pos as nat, level as nat),
    {
        let t = self.peek();
        match t {
            Token::Sym(k) => {
                if level == 3 {
                    if k == Sym::EqEq { Some(BinOp::Eq) } else if k == Sym::NotEq { Some(BinOp::NotEq) } else { None }
                } else if level == 2 {
                    if k == Sym::Lt { Some(BinOp::Lt) } else if k == Sym::Gt { Some(BinOp::Gt) }
                    else if k == Sym::LtEq { Some(BinOp::LtEq) } else if k == Sym::GtEq { Some(BinOp::GtEq) } else { None }
                } else if level == 1 {
                    if k == Sym::Plus { Some(BinOp::Add) } else if k == Sym::Minus { Some(BinOp::Sub) } else { None }
                } else {
                    if k == Sym::Star { Some(BinOp::Mul) } else if k == Sym::Slash { Some(BinOp::Div) }
                    else if k == Sym::Percent { Some(BinOp::Mod) } else { None }
                }
            },
            _ => None,
        }
    }

    #[verifier::spinoff_prover]
    #[verifier::rlimit(40)]
    fn parse_binary_operand(&mut self, level: u8) -> (r: SpriteResult<Expr>)
        requires
            old(self).ready(),
            level <= 3,
        ensures
            final(self).leaves_expr(*old(self), r, binary_operand(old(self).toks(), old(self).pos as nat, old(self).depth as nat, level as nat)),
            r is Ok ==> final(self).advanced(*old(self)),
        decreases old(self).tokens@.len() - old(self).pos, (crate::grammar::binary_rank(level as nat) - 2) as nat,
    {
        reveal_with_fuel(binary_operand, 1);
        reveal_with_fuel(binary, 1);
        reveal_with_fuel(unary, 1);
        if level == 0 {
            self.parse_unary()
        } else {
            self.parse_binary(level - 1)
        }
    }

    #[verifier::spinoff_prover]
    #[verifier::rlimit(40)]
    fn parse_unary(&mut self) -> (r: SpriteResult<Expr>)
        requires
            old(self).ready(),
        ensures
            final(self).leaves_expr(*old(self), r, unary(old(self).toks(), old(self).pos as nat, old(self).depth as nat)),
            r is Ok ==> final(self).advanced(*old(self)),
        decreases old(self).tokens@.len() - old(self).pos, 15nat,
    {
        reveal_with_fuel(unary, 1);
        reveal_with_fuel(call, 1);
        self.enter()?;
        let result = if self.check(Sym::Minus) || self.check(Sym::Not) {
            let op = if self.check(Sym::Minus) { UnaryOp::Neg } else { UnaryOp::Not };
            self.advance();
            let rhs = self.parse_unary()?;
            Ok(Expr::Unary(op, Box::new(rhs)))
        } else {
            self.parse_call()
        };
        self.exit();
        result
    }

    #[verifier::spinoff_prover]
    #[verifier::rlimit(100)]
    fn parse_call(&mut self) -> (r: SpriteResult<Expr>)
        requires
            old(self).ready(),
        ensures
            final(self).leaves_expr(*old(self), r, call(old(self).toks(), old(self).pos as nat, old(self).depth as nat)),
            r is Ok ==> final(self).advanced(*old(self)),
        decreases old(self).tokens@.len() - old(self).pos, 14nat,
    {
        reveal_with_fuel(call, 1);
        reveal_with_fuel(primary, 1);
        reveal_with_fuel(call_tail, 1);
        let ghost t = self.toks();
        let ghost p0 = self.pos as nat;
        let ghost d0 = self.depth as nat;
        let mut e = self.parse_primary()?;
        loop
            invariant
                self.toks() == t,
                self.tokens@ == old(self).tokens@,
                p0 == old(self).pos,
                d0 == old(self).depth,
                p0 < self.pos <= self.tokens.len(),
                self.depth == d0,
                self.depth < usize::MAX,
                same(call(t, p0, d0), {
                    let g = call_tail(t, self.pos as nat, d0, e@);
                    (g.0, g.1 + (self.pos - p0) as nat, g.2)
                }),
            decreases self.tokens@.len() - self.pos,
        {
            reveal_with_fuel(call, 1);
            reveal_with_fuel(primary, 1);
            reveal_with_fuel(call_tail, 1);
            if !self.check(Sym::LParen) {
                return Ok(e);
            }
            proof {
                lemma_call_tail_step(t, self.pos as nat, d0, e@);
            }
            self.advance();
            let xs = if self.check(Sym::RParen) {
                let v: Vec<Expr> = Vec::new();
                assert(exprs_view(v@) =~= Seq::empty());
                v
            } else {
                self.parse_args()?
            };
            self.expect(Sym::RParen, "')' after arguments")?;
            e = Expr::Call(Box::new(e), xs);
        }
    }

    /// `args := expression ("," expression)*`
    #[verifier::spinoff_prover]
    #[verifier::rlimit(100)]
    fn parse_args(&mut self) -> (r: SpriteResult<Vec<Expr>>)
        requires
            old(self).ready(),
        ensures
            final(self).leaves_exprs(*old(self), r, args(old(self).toks(), old(self).pos as nat, old(self).depth as nat, Seq::empty())),
            r is Ok ==> final(self).advanced(*old(self)),
        decreases old(self).tokens@.len() - old(self).pos, 51nat,
    {
        reveal_with_fuel(args, 1);
        reveal_with_fuel(expr, 1);
        let ghost t = self.toks();
        let ghost p0 = self.pos as nat;
        let ghost d0 = self.depth as nat;
        let mut xs: Vec<Expr> = Vec::new();
        assert(exprs_view(xs@) =~= Seq::empty());
        loop
            invariant
                self.toks() == t,
                self.tokens@ == old(self).tokens@,
                p0 == old(self).pos,
                d0 == old(self).depth,
                p0 <= self.pos <= self.tokens.len(),
                xs@.len() > 0 ==> p0 < self.pos,
                self.depth == d0,
                self.depth < usize::MAX,
                same(args(t, p0, d0, Seq::empty()), {
                    let g = args(t, self.pos as nat, d0, exprs_view(xs@));
                    (g.0, g.1 + (self.pos - p0) as nat, g.2)
                }),
            decreases self.tokens@.len() - self.pos,
        {
            reveal_with_fuel(args, 1);
            reveal_with_fuel(expr, 1);
            let x = self.parse_expr()?;
            proof {
                crate::ast::lemma_exprs_view_push(xs@, x);
            }
            xs.push(x);
            if !self.matches(Sym::Comma) {
                return Ok(xs);
            }
        }
    }

    #[verifier::spinoff_prover]
    #[verifier::rlimit(40)]
    fn parse_primary(&mut self) -> (r: SpriteResult<Expr>)
        requires
            old(self).ready(),
        ensures
            final(self).leaves_expr(*old(self), r, primary(old(self).toks(), old(self).pos as nat, old(self).depth as nat)),
            r is Ok ==> final(self).advanced(*old(self)),
        decreases old(self).tokens@.len() - old(self).pos, 12nat,
    {
        reveal_with_fuel(primary, 1);
        reveal_with_fuel(primary_inner, 1);
        self.enter()?;
        let result = self.parse_primary_inner();
        self.exit();
        result
    }

    #[verifier::rlimit(50)]
    #[verifier::spinoff_prover]
    fn parse_primary_inner(&mut self) -> (r: SpriteResult<Expr>)
        requires
            old(self).ready(),
        ensures
            final(self).leaves_expr(*old(self), r, primary_inner(old(self).toks(), old(self).pos as nat, old(self).depth as nat)),
            r is Ok ==> final(self).advanced(*old(self)),
        decreases old(self).tokens@.len() - old(self).pos, 11nat,
    {
        reveal_with_fuel(primary_inner, 1);
        reveal_with_fuel(expr, 1);
        let t = self.advance();
        match t {
            Token::Number(b) => Ok(Expr::Number(b)),
            Token::Str(s) => Ok(Expr::Str(s)),
            Token::Ident(n) => Ok(Expr::Ident(n)),
            Token::Sym(Sym::True) => Ok(Expr::Bool(true)),
            Token::Sym(Sym::False) => Ok(Expr::Bool(false)),
            Token::Sym(Sym::Nil) => Ok(Expr::Nil),
            Token::Sym(Sym::LParen) => {
                let e = self.parse_expr()?;
                self.expect(Sym::RParen, "')' after expression")?;
                Ok(e)
            },
            other => {
                let mut m = lit("unexpected token ");
                let d = describe_token(&other);
                append_str(&mut m, d.as_str());
                Err(SpriteError::Parse(m))
            },
        }
    }
}


/// The statements of a token sequence.
pub fn parse(tokens: Vec<Token>) -> (r: SpriteResult<Block>)
    ensures
        block_result(r) == program(tokens_view(tokens@)),
{
    let mut p = Parser::new(tokens);
    p.parse_program()
}

} // verus!
