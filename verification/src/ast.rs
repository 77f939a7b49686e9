//! The abstract syntax of the supported JavaScript subset, as handed to the
//! transpiler core by the external parser's adapter. Numeric literals are
//! restricted to the exact-integer fragment of the value model.

use vstd::prelude::*;
use crate::value::BinOp;

verus! {

/// The three declaration forms, with their scoping rules: `var` hoists to
/// the enclosing function scope, `let`/`const` are block-scoped with a
/// use-before-declaration check.
#[derive(Clone, Copy, PartialEq, Eq, Structural, Debug)]
pub enum DeclKind {
    Var,
    Let,
    Const,
}

/// An expression of the supported subset.
pub enum Expr {
    Undefined,
    Null,
    Bool(bool),
    Num(i64),
    Str(String),
    Ident(String),
    Bin(BinOp, Box<Expr>, Box<Expr>),
    Assign(String, Box<Expr>),
    Member(Box<Expr>, String),
    Call(Box<Expr>, Vec<Expr>),
    Func(Vec<String>, Vec<Stmt>),
}

/// A statement of the supported subset.
pub enum Stmt {
    Decl(DeclKind, String, Option<Expr>),
    ExprStmt(Expr),
    If(Expr, Vec<Stmt>, Vec<Stmt>),
    While(Expr, Vec<Stmt>),
    DoWhile(Vec<Stmt>, Expr),
    For(Option<Box<Stmt>>, Option<Expr>, Option<Expr>, Vec<Stmt>),
    Break(Option<String>),
    Continue(Option<String>),
    Labeled(String, Box<Stmt>),
    FuncDecl(String, Vec<String>, Vec<Stmt>),
    Return(Option<Expr>),
    Throw(Expr),
    Try(Vec<Stmt>, String, Vec<Stmt>, Vec<Stmt>),
    Block(Vec<Stmt>),
}

/// One parsed module: its statements in source order.
pub struct Module {
    pub body: Vec<Stmt>,
}

/// A structural measure for recursion over expressions.
pub open spec fn expr_height(e: Expr) -> nat
    decreases e,
{
    match e {
        Expr::Bin(_, a, b) => 1 + vstd::math::max(expr_height(*a) as int, expr_height(*b) as int)
            as nat,
        Expr::Assign(_, a) => 1 + expr_height(*a),
        Expr::Member(a, _) => 1 + expr_height(*a),
        Expr::Call(f, args) => 1 + vstd::math::max(
            expr_height(*f) as int,
            exprs_height(args@) as int,
        ) as nat,
        Expr::Func(_, body) => 1 + stmts_height(body@),
        _ => 0,
    }
}

pub open spec fn exprs_height(es: Seq<Expr>) -> nat
    decreases es,
{
    if es.len() == 0 {
        0
    } else {
        1 + vstd::math::max(expr_height(es[0]) as int, exprs_height(es.skip(1)) as int) as nat
    }
}

/// A structural measure for recursion over statements.
pub open spec fn stmt_height(s: Stmt) -> nat
    decreases s,
{
    match s {
        Stmt::Decl(_, _, Some(e)) => 1 + expr_height(e),
        Stmt::Decl(_, _, None) => 1,
        Stmt::ExprStmt(e) => 1 + expr_height(e),
        Stmt::If(c, t, f) => 1 + vstd::math::max(
            expr_height(c) as int,
            vstd::math::max(stmts_height(t@) as int, stmts_height(f@) as int),
        ) as nat,
        Stmt::While(c, b) => 1 + vstd::math::max(expr_height(c) as int, stmts_height(b@) as int)
            as nat,
        Stmt::DoWhile(b, c) => 1 + vstd::math::max(stmts_height(b@) as int, expr_height(c) as int)
            as nat,
        Stmt::For(init, test, update, b) => 1 + vstd::math::max(
            match init {
                Some(s0) => stmt_height(*s0) as int,
                None => 0,
            },
            vstd::math::max(
                match test {
                    Some(e) => expr_height(e) as int,
                    None => 0,
                },
                vstd::math::max(
                    match update {
                        Some(e) => expr_height(e) as int,
                        None => 0,
                    },
                    stmts_height(b@) as int,
                ),
            ),
        ) as nat,
        Stmt::Break(_) => 1,
        Stmt::Continue(_) => 1,
        Stmt::Labeled(_, b) => 1 + stmt_height(*b),
        Stmt::FuncDecl(_, _, b) => 1 + stmts_height(b@),
        Stmt::Return(Some(e)) => 1 + expr_height(e),
        Stmt::Return(None) => 1,
        Stmt::Throw(e) => 1 + expr_height(e),
        Stmt::Try(t, _, c, f) => 1 + vstd::math::max(
            stmts_height(t@) as int,
            vstd::math::max(stmts_height(c@) as int, stmts_height(f@) as int),
        ) as nat,
        Stmt::Block(b) => 1 + stmts_height(b@),
    }
}

pub open spec fn stmts_height(ss: Seq<Stmt>) -> nat
    decreases ss,
{
    if ss.len() == 0 {
        0
    } else {
        1 + vstd::math::max(stmt_height(ss[0]) as int, stmts_height(ss.skip(1)) as int) as nat
    }
}

proof fn lemma_stmts_height_index(ss: Seq<Stmt>, i: int)
    requires
        0 <= i < ss.len(),
    ensures
        stmt_height(ss[i]) < stmts_height(ss),
    decreases ss.len(),
{
    if i > 0 {
        lemma_stmts_height_index(ss.skip(1), i - 1);
        assert(ss.skip(1)[i - 1] == ss[i]);
    }
}

/// Every element of a statement list sits below the list in the measure.
pub proof fn lemma_stmts_height(ss: Seq<Stmt>)
    ensures
        forall|i: int| 0 <= i < ss.len() ==> stmt_height(#[trigger] ss[i]) < stmts_height(ss),
{
    assert forall|i: int| 0 <= i < ss.len() implies stmt_height(#[trigger] ss[i]) < stmts_height(
        ss,
    ) by {
        lemma_stmts_height_index(ss, i);
    }
}

proof fn lemma_exprs_height_index(es: Seq<Expr>, i: int)
    requires
        0 <= i < es.len(),
    ensures
        expr_height(es[i]) < exprs_height(es),
    decreases es.len(),
{
    if i > 0 {
        lemma_exprs_height_index(es.skip(1), i - 1);
        assert(es.skip(1)[i - 1] == es[i]);
    }
}

/// Every element of an argument list sits below the list in the measure.
pub proof fn lemma_exprs_height(es: Seq<Expr>)
    ensures
        forall|i: int| 0 <= i < es.len() ==> expr_height(#[trigger] es[i]) < exprs_height(es),
{
    assert forall|i: int| 0 <= i < es.len() implies expr_height(#[trigger] es[i]) < exprs_height(
        es,
    ) by {
        lemma_exprs_height_index(es, i);
    }
}

} // verus!
