use vstd::prelude::*;
use crate::expr::{expr_sites, expr_view, Expr, ExprView};
use crate::scanner::Token;

verus! {

/// A statement.
#[derive(Debug, PartialEq)]
pub enum Stmt {
    Block(Vec<Stmt>),
    Class(Token, Option<Expr>, Vec<Stmt>),
    Expression(Expr),
    Function(Token, Vec<Token>, Vec<Stmt>),
    If(Expr, Box<Stmt>, Option<Box<Stmt>>),
    Print(Expr),
    Return(Token, Expr),
    Var(Token, Option<Expr>),
    While(Expr, Box<Stmt>),
}


/// A statement as the contracts see it: the same tree, with lists as sequences.
#[verifier::ext_equal]
pub ghost enum StmtView {
    Block(Seq<StmtView>),
    Class(Token, Option<ExprView>, Seq<StmtView>),
    Expression(ExprView),
    Function(Token, Seq<Token>, Seq<StmtView>),
    If(ExprView, Box<StmtView>, Option<Box<StmtView>>),
    Print(ExprView),
    Return(Token, ExprView),
    Var(Token, Option<ExprView>),
    While(ExprView, Box<StmtView>),
}

/// The views of the first `count` statements of a sequence.
pub open spec fn stmt_views(stmts: Seq<Stmt>, count: nat) -> Seq<StmtView>
    decreases stmts, count,
{
    if count == 0 || count > stmts.len() {
        Seq::empty()
    } else {
        stmt_views(stmts, (count - 1) as nat).push(stmt_view(stmts[count - 1]))
    }
}

/// The view of a statement.
pub open spec fn stmt_view(stmt: Stmt) -> StmtView
    decreases stmt,
{
    match stmt {
        Stmt::Block(statements) => StmtView::Block(stmt_views(statements@, statements@.len())),
        Stmt::Class(name, superclass, methods) => StmtView::Class(
            name,
            match superclass {
                Some(parent) => Some(expr_view(parent)),
                None => None,
            },
            stmt_views(methods@, methods@.len()),
        ),
        Stmt::Expression(expr) => StmtView::Expression(expr_view(expr)),
        Stmt::Function(name, params, body) => StmtView::Function(
            name,
            params@,
            stmt_views(body@, body@.len()),
        ),
        Stmt::If(condition, then_branch, else_branch) => StmtView::If(
            expr_view(condition),
            Box::new(stmt_view(*then_branch)),
            match else_branch {
                Some(branch) => Some(Box::new(stmt_view(*branch))),
                None => None,
            },
        ),
        Stmt::Print(expr) => StmtView::Print(expr_view(expr)),
        Stmt::Return(keyword, value) => StmtView::Return(keyword, expr_view(value)),
        Stmt::Var(name, initializer) => StmtView::Var(
            name,
            match initializer {
                Some(expr) => Some(expr_view(expr)),
                None => None,
            },
        ),
        Stmt::While(condition, body) => StmtView::While(
            expr_view(condition),
            Box::new(stmt_view(*body)),
        ),
    }
}

impl View for Stmt {
    type V = StmtView;

    open spec fn view(&self) -> StmtView {
        stmt_view(*self)
    }
}

/// The numbers of the sites of a statement, in the order of the tree.
pub open spec fn stmt_sites(stmt: StmtView) -> Seq<usize>
    decreases stmt,
{
    match stmt {
        StmtView::Block(statements) => stmts_sites(statements, statements.len()),
        StmtView::Class(_, superclass, methods) => (match superclass {
            Some(parent) => expr_sites(parent),
            None => Seq::empty(),
        }) + stmts_sites(methods, methods.len()),
        StmtView::Expression(expr) => expr_sites(expr),
        StmtView::Function(_, _, body) => stmts_sites(body, body.len()),
        StmtView::If(condition, then_branch, else_branch) => expr_sites(condition) + stmt_sites(
            *then_branch,
        ) + (match else_branch {
            Some(branch) => stmt_sites(*branch),
            None => Seq::empty(),
        }),
        StmtView::Print(expr) => expr_sites(expr),
        StmtView::Return(_, value) => expr_sites(value),
        StmtView::Var(_, initializer) => match initializer {
            Some(expr) => expr_sites(expr),
            None => Seq::empty(),
        },
        StmtView::While(condition, body) => expr_sites(condition) + stmt_sites(*body),
    }
}

/// The numbers of the sites of the first `count` statements of a sequence.
pub open spec fn stmts_sites(stmts: Seq<StmtView>, count: nat) -> Seq<usize>
    decreases stmts, count,
{
    if count == 0 || count > stmts.len() {
        Seq::empty()
    } else {
        stmts_sites(stmts, (count - 1) as nat) + stmt_sites(stmts[count - 1])
    }
}

} // verus!
