use vstd::prelude::*;

verus! {

/// An expression. A number is kept as the text of its literal: digits,
/// optionally followed by a dot and more digits.
#[allow(inconsistent_fields)]
#[derive(PartialEq, Debug)]
pub enum Expr {
    Nil,
    Assignment { name: String, value: Box<Expr> },
    Binary { left: Box<Expr>, operator: BinaryOp, right: Box<Expr> },
    Unary { operator: UnaryOp, right: Box<Expr> },
    Call { callee: Box<Expr>, arguments: Vec<Expr> },
    Number(String),
    Grouping(Box<Expr>),
    String(String),
    Bool(bool),
    Identifier(String),
}

/// Binary operators; `And` and `Or` short-circuit.
#[derive(PartialEq, Eq, Debug, Clone, Copy, Structural)]
pub enum BinaryOp {
    Add,
    Subtract,
    Multiply,
    Divide,
    Equal,
    NotEqual,
    Greater,
    GreaterEqual,
    Less,
    LessEqual,
    And,
    Or,
}

#[derive(PartialEq, Eq, Debug, Clone, Copy, Structural)]
pub enum UnaryOp {
    Negate,
    Not,
}

/// The mathematical value of an expression.
#[allow(inconsistent_fields)]
pub enum ExprView {
    Nil,
    Assignment { name: Seq<char>, value: Box<ExprView> },
    Binary { left: Box<ExprView>, operator: BinaryOp, right: Box<ExprView> },
    Unary { operator: UnaryOp, right: Box<ExprView> },
    Call { callee: Box<ExprView>, arguments: Seq<ExprView> },
    Number(Seq<char>),
    Grouping(Box<ExprView>),
    String(Seq<char>),
    Bool(bool),
    Identifier(Seq<char>),
}

impl Expr {
    /// The mathematical value of this expression.
    pub open spec fn view_expr(&self) -> ExprView
        decreases self,
    {
        match self {
            Expr::Nil => ExprView::Nil,
            Expr::Assignment { name, value } => ExprView::Assignment {
                name: name@,
                value: Box::new(value.view_expr()),
            },
            Expr::Binary { left, operator, right } => ExprView::Binary {
                left: Box::new(left.view_expr()),
                operator: *operator,
                right: Box::new(right.view_expr()),
            },
            Expr::Unary { operator, right } => ExprView::Unary {
                operator: *operator,
                right: Box::new(right.view_expr()),
            },
            Expr::Call { callee, arguments } => ExprView::Call {
                callee: Box::new(callee.view_expr()),
                arguments: Seq::new(
                    arguments@.len(),
                    |i: int|
                        if 0 <= i < arguments@.len() {
                            arguments@[i].view_expr()
                        } else {
                            ExprView::Nil
                        },
                ),
            },
            Expr::Number(s) => ExprView::Number(s@),
            Expr::Grouping(e) => ExprView::Grouping(Box::new(e.view_expr())),
            Expr::String(s) => ExprView::String(s@),
            Expr::Bool(b) => ExprView::Bool(*b),
            Expr::Identifier(s) => ExprView::Identifier(s@),
        }
    }
}

/// A call's view is the view of its callee and the views of its arguments.
pub proof fn lemma_call_view(e: &Expr)
    ensures
        match e {
            Expr::Call { callee, arguments } => e.view_expr() == ExprView::Call {
                callee: Box::new(callee.view_expr()),
                arguments: exprs_view(arguments@),
            },
            _ => true,
        },
{
    match e {
        Expr::Call { callee, arguments } => {
            assert(e.view_expr()->Call_arguments =~= exprs_view(arguments@));
        },
        _ => {},
    }
}

/// The views of a sequence of expressions.
pub open spec fn exprs_view(es: Seq<Expr>) -> Seq<ExprView> {
    es.map_values(|e: Expr| e.view_expr())
}

} // verus!
