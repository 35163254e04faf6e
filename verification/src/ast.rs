//! The syntax tree the parser produces and the interpreter walks, with its
//! mathematical view (strings as `Seq<char>`, lists as `Seq`).
use std::rc::Rc;
use vstd::prelude::*;

verus! {

#[derive(PartialEq, Eq, Structural, Clone, Copy, Debug)]
pub enum BinOp {
    Add,
    Sub,
    Mul,
    Div,
    Mod,
    Eq,
    NotEq,
    Lt,
    Gt,
    LtEq,
    GtEq,
}

#[derive(PartialEq, Eq, Structural, Clone, Copy, Debug)]
pub enum UnaryOp {
    Neg,
    Not,
}

#[derive(PartialEq, Eq, Structural, Clone, Copy, Debug)]
pub enum LogicOp {
    And,
    Or,
}

pub enum Expr {
    /// A number literal, held as its binary64 bit pattern.
    Number(u64),
    Str(String),
    Bool(bool),
    Nil,
    Ident(String),
    Unary(UnaryOp, Box<Expr>),
    Binary(Box<Expr>, BinOp, Box<Expr>),
    Logical(Box<Expr>, LogicOp, Box<Expr>),
    Assign(String, Box<Expr>),
    Call(Box<Expr>, Vec<Expr>),
}

pub enum Stmt {
    Let(String, Expr),
    Expr(Expr),
    If(Expr, Block, Option<Block>),
    While(Expr, Block),
    /// A function declaration; the body is shared with the function values
    /// that executing the declaration creates.
    FnDecl(String, Vec<String>, Rc<Block>),
    Return(Option<Expr>),
    Block(Block),
}

pub type Block = Vec<Stmt>;

pub enum ExprV {
    Number(u64),
    Str(Seq<char>),
    Bool(bool),
    Nil,
    Ident(Seq<char>),
    Unary(UnaryOp, Box<ExprV>),
    Binary(Box<ExprV>, BinOp, Box<ExprV>),
    Logical(Box<ExprV>, LogicOp, Box<ExprV>),
    Assign(Seq<char>, Box<ExprV>),
    Call(Box<ExprV>, Seq<ExprV>),
}

pub enum StmtV {
    Let(Seq<char>, ExprV),
    Expr(ExprV),
    If(ExprV, Seq<StmtV>, Option<Seq<StmtV>>),
    While(ExprV, Seq<StmtV>),
    FnDecl(Seq<char>, Seq<Seq<char>>, Seq<StmtV>),
    Return(Option<ExprV>),
    Block(Seq<StmtV>),
}

pub open spec fn strings_view(v: Seq<String>) -> Seq<Seq<char>> {
    Seq::new(v.len(), |i: int| v[i]@)
}

pub open spec fn exprs_view(v: Seq<Expr>) -> Seq<ExprV>
    decreases v,
{
    if v.len() == 0 {
        Seq::empty()
    } else {
        exprs_view(v.drop_last()).push(expr_view(v.last()))
    }
}

pub open spec fn expr_view(e: Expr) -> ExprV
    decreases e,
{
    match e {
        Expr::Number(b) => ExprV::Number(b),
        Expr::Str(s) => ExprV::Str(s@),
        Expr::Bool(b) => ExprV::Bool(b),
        Expr::Nil => ExprV::Nil,
        Expr::Ident(s) => ExprV::Ident(s@),
        Expr::Unary(op, a) => ExprV::Unary(op, Box::new(expr_view(*a))),
        Expr::Binary(a, op, b) => ExprV::Binary(Box::new(expr_view(*a)), op, Box::new(expr_view(*b))),
        Expr::Logical(a, op, b) => ExprV::Logical(Box::new(expr_view(*a)), op, Box::new(expr_view(*b))),
        Expr::Assign(s, a) => ExprV::Assign(s@, Box::new(expr_view(*a))),
        Expr::Call(c, args) => ExprV::Call(Box::new(expr_view(*c)), exprs_view(args@)),
    }
}

pub open spec fn block_view(v: Seq<Stmt>) -> Seq<StmtV>
    decreases v,
{
    if v.len() == 0 {
        Seq::empty()
    } else {
        block_view(v.drop_last()).push(stmt_view(v.last()))
    }
}

pub open spec fn stmt_view(s: Stmt) -> StmtV
    decreases s,
{
    match s {
        Stmt::Let(n, e) => StmtV::Let(n@, expr_view(e)),
        Stmt::Expr(e) => StmtV::Expr(expr_view(e)),
        Stmt::If(c, t, el) => StmtV::If(
            expr_view(c),
            block_view(t@),
            match el {
                Some(b) => Some(block_view(b@)),
                None => None,
            },
        ),
        Stmt::While(c, b) => StmtV::While(expr_view(c), block_view(b@)),
        Stmt::FnDecl(n, ps, b) => StmtV::FnDecl(n@, strings_view(ps@), block_view((*b)@)),
        Stmt::Return(e) => StmtV::Return(
            match e {
                Some(x) => Some(expr_view(x)),
                None => None,
            },
        ),
        Stmt::Block(b) => StmtV::Block(block_view(b@)),
    }
}

impl View for Expr {
    type V = ExprV;

    open spec fn view(&self) -> ExprV {
        expr_view(*self)
    }
}

impl View for Stmt {
    type V = StmtV;

    open spec fn view(&self) -> StmtV {
        stmt_view(*self)
    }
}


pub proof fn lemma_block_view_push(v: Seq<Stmt>, s: Stmt)
    ensures
        block_view(v.push(s)) == block_view(v).push(stmt_view(s)),
{
    assert(v.push(s).drop_last() =~= v);
}

pub proof fn lemma_exprs_view_push(v: Seq<Expr>, e: Expr)
    ensures
        exprs_view(v.push(e)) == exprs_view(v).push(expr_view(e)),
{
    assert(v.push(e).drop_last() =~= v);
}


pub proof fn lemma_exprs_view_index(v: Seq<Expr>)
    ensures
        exprs_view(v).len() == v.len(),
        forall|i: int| 0 <= i < v.len() ==> #[trigger] exprs_view(v)[i] == expr_view(v[i]),
    decreases v.len(),
{
    if v.len() > 0 {
        lemma_exprs_view_index(v.drop_last());
        assert forall|i: int| 0 <= i < v.len() implies #[trigger] exprs_view(v)[i] == expr_view(v[i]) by {
            if i < v.len() - 1 {
                assert(v.drop_last()[i] == v[i]);
            }
        }
    }
}

pub proof fn lemma_block_view_index(v: Seq<Stmt>)
    ensures
        block_view(v).len() == v.len(),
        forall|i: int| 0 <= i < v.len() ==> #[trigger] block_view(v)[i] == stmt_view(v[i]),
    decreases v.len(),
{
    if v.len() > 0 {
        lemma_block_view_index(v.drop_last());
        assert forall|i: int| 0 <= i < v.len() implies #[trigger] block_view(v)[i] == stmt_view(v[i]) by {
            if i < v.len() - 1 {
                assert(v.drop_last()[i] == v[i]);
            }
        }
    }
}

} // verus!
