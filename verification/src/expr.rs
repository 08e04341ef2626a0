use vstd::prelude::*;
use crate::scanner::{Literal, Token};
use crate::text::{join, join_with, texts};

verus! {

/// An expression. The variants that name a binding (`Assign`, `Super`, `This`,
/// `Variable`) carry first the identifier of the site: two occurrences of the
/// same name are two sites, told apart by it.
#[derive(Debug, PartialEq)]
pub enum Expr {
    Assign(usize, Token, Box<Expr>),
    Binary(Box<Expr>, Token, Box<Expr>),
    Call(Box<Expr>, Token, Vec<Expr>),
    Get(Box<Expr>, Token),
    SetField(Box<Expr>, Token, Box<Expr>),
    Super(usize, Token, Token),
    This(usize, Token),
    Grouping(Box<Expr>),
    Literal(Literal),
    Logical(Box<Expr>, Token, Box<Expr>),
    Unary(Token, Box<Expr>),
    Variable(usize, Token),
}

/// Joins the items with single spaces.
pub fn vec_to_string(args: &[String]) -> (s: String)
    ensures
        s@ == join(texts(args@), " "@),
{
    join_with(args, " ")
}


/// An expression as the contracts see it: the same tree, with the arguments
/// of a call as a sequence.
#[verifier::ext_equal]
pub ghost enum ExprView {
    Assign(usize, Token, Box<ExprView>),
    Binary(Box<ExprView>, Token, Box<ExprView>),
    Call(Box<ExprView>, Token, Seq<ExprView>),
    Get(Box<ExprView>, Token),
    SetField(Box<ExprView>, Token, Box<ExprView>),
    Super(usize, Token, Token),
    This(usize, Token),
    Grouping(Box<ExprView>),
    Literal(Literal),
    Logical(Box<ExprView>, Token, Box<ExprView>),
    Unary(Token, Box<ExprView>),
    Variable(usize, Token),
}

/// The views of the first `count` expressions of a sequence.
pub open spec fn expr_views(exprs: Seq<Expr>, count: nat) -> Seq<ExprView>
    decreases exprs, count,
{
    if count == 0 || count > exprs.len() {
        Seq::empty()
    } else {
        expr_views(exprs, (count - 1) as nat).push(expr_view(exprs[count - 1]))
    }
}

/// The view of an expression.
pub open spec fn expr_view(expr: Expr) -> ExprView
    decreases expr,
{
    match expr {
        Expr::Assign(site, name, value) => ExprView::Assign(
            site,
            name,
            Box::new(expr_view(*value)),
        ),
        Expr::Binary(left, op, right) => ExprView::Binary(
            Box::new(expr_view(*left)),
            op,
            Box::new(expr_view(*right)),
        ),
        Expr::Call(callee, paren, arguments) => ExprView::Call(
            Box::new(expr_view(*callee)),
            paren,
            expr_views(arguments@, arguments@.len()),
        ),
        Expr::Get(object, name) => ExprView::Get(Box::new(expr_view(*object)), name),
        Expr::SetField(object, name, value) => ExprView::SetField(
            Box::new(expr_view(*object)),
            name,
            Box::new(expr_view(*value)),
        ),
        Expr::Super(site, keyword, method) => ExprView::Super(site, keyword, method),
        Expr::This(site, keyword) => ExprView::This(site, keyword),
        Expr::Grouping(inner) => ExprView::Grouping(Box::new(expr_view(*inner))),
        Expr::Literal(value) => ExprView::Literal(value),
        Expr::Logical(left, op, right) => ExprView::Logical(
            Box::new(expr_view(*left)),
            op,
            Box::new(expr_view(*right)),
        ),
        Expr::Unary(op, right) => ExprView::Unary(op, Box::new(expr_view(*right))),
        Expr::Variable(site, name) => ExprView::Variable(site, name),
    }
}

impl View for Expr {
    type V = ExprView;

    open spec fn view(&self) -> ExprView {
        expr_view(*self)
    }
}

/// The numbers of the sites of an expression, in the order of the tree.
pub open spec fn expr_sites(expr: ExprView) -> Seq<usize>
    decreases expr,
{
    match expr {
        ExprView::Assign(site, _, value) => seq![site] + expr_sites(*value),
        ExprView::Binary(left, _, right) => expr_sites(*left) + expr_sites(*right),
        ExprView::Call(callee, _, arguments) => expr_sites(*callee) + exprs_sites(
            arguments,
            arguments.len(),
        ),
        ExprView::Get(object, _) => expr_sites(*object),
        ExprView::SetField(object, _, value) => expr_sites(*object) + expr_sites(*value),
        ExprView::Super(site, _, _) => seq![site],
        ExprView::This(site, _) => seq![site],
        ExprView::Grouping(inner) => expr_sites(*inner),
        ExprView::Literal(_) => Seq::empty(),
        ExprView::Logical(left, _, right) => expr_sites(*left) + expr_sites(*right),
        ExprView::Unary(_, right) => expr_sites(*right),
        ExprView::Variable(site, _) => seq![site],
    }
}

/// The numbers of the sites of the first `count` expressions of a sequence.
pub open spec fn exprs_sites(exprs: Seq<ExprView>, count: nat) -> Seq<usize>
    decreases exprs, count,
{
    if count == 0 || count > exprs.len() {
        Seq::empty()
    } else {
        exprs_sites(exprs, (count - 1) as nat) + expr_sites(exprs[count - 1])
    }
}

/// Whether the numbers of `sites` lie from `low` up to, not including, `high`,
/// and no number occurs twice.
pub open spec fn fresh(sites: Seq<usize>, low: int, high: int) -> bool {
    &&& low <= high
    &&& forall|i: int| 0 <= i < sites.len() ==> low <= #[trigger] sites[i] < high
    &&& forall|i: int, j: int|
        0 <= i < sites.len() && 0 <= j < sites.len() && i != j ==> #[trigger] sites[i]
            != #[trigger] sites[j]
}

/// Sites numbered in one range followed or preceded by sites numbered in the
/// next range are numbered in both ranges together, and none twice.
pub proof fn lemma_fresh_together(
    first: Seq<usize>,
    second: Seq<usize>,
    low: int,
    middle: int,
    high: int,
)
    requires
        fresh(first, low, middle),
        fresh(second, middle, high),
    ensures
        fresh(first + second, low, high),
        fresh(second + first, low, high),
{
    let a = first + second;
    assert forall|i: int, j: int| 0 <= i < a.len() && 0 <= j < a.len() && i != j implies a[i]
        != a[j] by {
        if i < first.len() && j < first.len() {
            assert(a[i] == first[i] && a[j] == first[j]);
        } else if i >= first.len() && j >= first.len() {
            assert(a[i] == second[i - first.len()] && a[j] == second[j - first.len()]);
        } else if i < first.len() {
            assert(a[i] == first[i] && a[j] == second[j - first.len()]);
        } else {
            assert(a[j] == first[j] && a[i] == second[i - first.len()]);
        }
    }
    let b = second + first;
    assert forall|i: int, j: int| 0 <= i < b.len() && 0 <= j < b.len() && i != j implies b[i]
        != b[j] by {
        if i < second.len() && j < second.len() {
            assert(b[i] == second[i] && b[j] == second[j]);
        } else if i >= second.len() && j >= second.len() {
            assert(b[i] == first[i - second.len()] && b[j] == first[j - second.len()]);
        } else if i < second.len() {
            assert(b[i] == second[i] && b[j] == first[j - second.len()]);
        } else {
            assert(b[j] == second[j] && b[i] == first[i - second.len()]);
        }
    }
}

/// Sites numbered in a range are numbered in any range that holds it.
pub proof fn lemma_fresh_within(sites: Seq<usize>, low: int, high: int, lower: int, higher: int)
    requires
        fresh(sites, low, high),
        lower <= low,
        high <= higher,
    ensures
        fresh(sites, lower, higher),
{
}

} // verus!
