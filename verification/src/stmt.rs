use vstd::prelude::*;
use crate::expr::Expr;
use crate::expr::ExprView;

verus! {

/// A statement.
#[derive(PartialEq, Debug)]
pub enum Stmt {
    Expression(Expr),
    Let { name: String, value: Option<Expr> },
    Block(Vec<Stmt>),
    If { condition: Expr, then_branch: Vec<Stmt>, else_branch: Option<Vec<Stmt>> },
    While { condition: Expr, body: Vec<Stmt> },
    Fun { name: String, parameters: Vec<String>, body: Vec<Stmt> },
    Return(Option<Expr>),
}

/// The mathematical value of a statement.
pub enum StmtView {
    Expression(ExprView),
    Let { name: Seq<char>, value: Option<ExprView> },
    Block(Seq<StmtView>),
    If { condition: ExprView, then_branch: Seq<StmtView>, else_branch: Option<Seq<StmtView>> },
    While { condition: ExprView, body: Seq<StmtView> },
    Fun { name: Seq<char>, parameters: Seq<Seq<char>>, body: Seq<StmtView> },
    Return(Option<ExprView>),
}

/// The views of a list of names.
pub open spec fn names_view(ns: Seq<String>) -> Seq<Seq<char>> {
    ns.map_values(|n: String| n@)
}

impl Stmt {
    /// The views of a list of statements.
    pub open spec fn view_list(v: &Vec<Stmt>) -> Seq<StmtView>
        decreases v,
    {
        Seq::new(
            v@.len(),
            |i: int|
                if 0 <= i < v@.len() {
                    v@[i].view_stmt()
                } else {
                    StmtView::Block(Seq::empty())
                },
        )
    }

    /// The mathematical value of this statement.
    pub open spec fn view_stmt(&self) -> StmtView
        decreases self,
    {
        match self {
            Stmt::Expression(e) => StmtView::Expression(e.view_expr()),
            Stmt::Let { name, value } => StmtView::Let {
                name: name@,
                value: match value {
                    Some(e) => Some(e.view_expr()),
                    None => None,
                },
            },
            Stmt::Block(b) => StmtView::Block(Stmt::view_list(b)),
            Stmt::If { condition, then_branch, else_branch } => StmtView::If {
                condition: condition.view_expr(),
                then_branch: Stmt::view_list(then_branch),
                else_branch: match else_branch {
                    Some(b) => Some(Stmt::view_list(b)),
                    None => None,
                },
            },
            Stmt::While { condition, body } => StmtView::While {
                condition: condition.view_expr(),
                body: Stmt::view_list(body),
            },
            Stmt::Fun { name, parameters, body } => StmtView::Fun {
                name: name@,
                parameters: names_view(parameters@),
                body: Stmt::view_list(body),
            },
            Stmt::Return(value) => StmtView::Return(
                match value {
                    Some(e) => Some(e.view_expr()),
                    None => None,
                },
            ),
        }
    }
}

/// Appending a statement to a list appends its view to the list's view.
pub proof fn lemma_view_list_push(before: &Vec<Stmt>, after: &Vec<Stmt>, s: &Stmt)
    requires
        after@ == before@.push(*s),
    ensures
        Stmt::view_list(after) == Stmt::view_list(before).push(s.view_stmt()),
{
    assert(Stmt::view_list(after) =~= Stmt::view_list(before).push(s.view_stmt()));
}

/// An empty list of statements has an empty view.
pub proof fn lemma_view_list_empty(v: &Vec<Stmt>)
    requires
        v@.len() == 0,
    ensures
        Stmt::view_list(v) == Seq::<StmtView>::empty(),
{
    assert(Stmt::view_list(v) =~= Seq::<StmtView>::empty());
}

} // verus!
