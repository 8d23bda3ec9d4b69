use vstd::prelude::*;
use crate::token::TokenKind;

verus! {

broadcast use vstd::std_specs::vec::group_vec_axioms, vstd::seq::group_seq_axioms;

/// A name.
#[derive(Debug, PartialEq)]
pub struct Ident {
    pub name: String,
}

/// An expression. A number keeps the digits it was written with.
#[derive(Debug, PartialEq)]
pub enum Expr {
    BinOp { op: TokenKind, left: Box<Expr>, right: Box<Expr> },
    UnaryOp { op: TokenKind, node: Box<Expr> },
    Ident(Ident),
    Number(String),
    String(String),
    Boolean(bool),
    FuncDecl(FuncDecl),
    FuncCall(FuncCall),
}

/// A function declaration: its name, its parameters and its body.
#[derive(Debug, PartialEq)]
pub struct FuncDecl {
    pub ident: Ident,
    pub args: Vec<Ident>,
    pub body: Vec<Stmt>,
}

/// A call: the function's name and its arguments.
#[derive(Debug, PartialEq)]
pub struct FuncCall {
    pub ident: Ident,
    pub args: Vec<Expr>,
}

/// A statement. The `elseif` conditions and bodies of an `If` pair up by index.
#[derive(Debug, PartialEq)]
pub enum Stmt {
    Assign { ident_list: Vec<Ident>, expr_list: Vec<Expr> },
    If {
        cond: Expr,
        if_body: Vec<Stmt>,
        elseif_conds: Vec<Expr>,
        elseif_bodies: Vec<Vec<Stmt>>,
        else_body: Vec<Stmt>,
    },
    While { cond: Expr, body: Vec<Stmt> },
    FuncDecl(FuncDecl),
}

/// The mathematical form of an expression: names and texts as character sequences.
pub ghost enum SExpr {
    BinOp { op: TokenKind, left: Box<SExpr>, right: Box<SExpr> },
    UnaryOp { op: TokenKind, node: Box<SExpr> },
    Ident(Seq<char>),
    Number(Seq<char>),
    Str(Seq<char>),
    Boolean(bool),
    FuncDecl { name: Seq<char>, params: Seq<Seq<char>>, body: Seq<SStmt> },
    FuncCall { name: Seq<char>, args: Seq<SExpr> },
}

/// The mathematical form of a statement.
pub ghost enum SStmt {
    Assign { targets: Seq<Seq<char>>, values: Seq<SExpr> },
    If {
        cond: SExpr,
        then_body: Seq<SStmt>,
        elseif_conds: Seq<SExpr>,
        elseif_bodies: Seq<Seq<SStmt>>,
        else_body: Seq<SStmt>,
    },
    While { cond: SExpr, body: Seq<SStmt> },
    FuncDecl { name: Seq<char>, params: Seq<Seq<char>>, body: Seq<SStmt> },
}

pub open spec fn names_view(ids: Seq<Ident>) -> Seq<Seq<char>> {
    ids.map_values(|i: Ident| i.name@)
}

pub open spec fn expr_view(e: Expr) -> SExpr
    decreases e,
{
    match e {
        Expr::BinOp { op, left, right } => SExpr::BinOp {
            op,
            left: Box::new(expr_view(*left)),
            right: Box::new(expr_view(*right)),
        },
        Expr::UnaryOp { op, node } => SExpr::UnaryOp { op, node: Box::new(expr_view(*node)) },
        Expr::Ident(i) => SExpr::Ident(i.name@),
        Expr::Number(n) => SExpr::Number(n@),
        Expr::String(s) => SExpr::Str(s@),
        Expr::Boolean(b) => SExpr::Boolean(b),
        Expr::FuncDecl(f) => SExpr::FuncDecl {
            name: f.ident.name@,
            params: names_view(f.args@),
            body: stmts_view(f.body@),
        },
        Expr::FuncCall(c) => SExpr::FuncCall { name: c.ident.name@, args: exprs_view(c.args@) },
    }
}

pub open spec fn exprs_view(es: Seq<Expr>) -> Seq<SExpr>
    decreases es,
{
    if es.len() == 0 {
        Seq::empty()
    } else {
        exprs_view(es.subrange(0, es.len() - 1)).push(expr_view(es[es.len() - 1]))
    }
}

pub open spec fn stmt_view(s: Stmt) -> SStmt
    decreases s,
{
    match s {
        Stmt::Assign { ident_list, expr_list } => SStmt::Assign {
            targets: names_view(ident_list@),
            values: exprs_view(expr_list@),
        },
        Stmt::If { cond, if_body, elseif_conds, elseif_bodies, else_body } => SStmt::If {
            cond: expr_view(cond),
            then_body: stmts_view(if_body@),
            elseif_conds: exprs_view(elseif_conds@),
            elseif_bodies: bodies_view(elseif_bodies@),
            else_body: stmts_view(else_body@),
        },
        Stmt::While { cond, body } => SStmt::While { cond: expr_view(cond), body: stmts_view(body@) },
        Stmt::FuncDecl(f) => SStmt::FuncDecl {
            name: f.ident.name@,
            params: names_view(f.args@),
            body: stmts_view(f.body@),
        },
    }
}

pub open spec fn stmts_view(ss: Seq<Stmt>) -> Seq<SStmt>
    decreases ss,
{
    if ss.len() == 0 {
        Seq::empty()
    } else {
        stmts_view(ss.subrange(0, ss.len() - 1)).push(stmt_view(ss[ss.len() - 1]))
    }
}

pub open spec fn bodies_view(bs: Seq<Vec<Stmt>>) -> Seq<Seq<SStmt>>
    decreases bs,
{
    if bs.len() == 0 {
        Seq::empty()
    } else {
        bodies_view(bs.subrange(0, bs.len() - 1)).push(stmts_view(bs[bs.len() - 1]@))
    }
}

} // verus!
