use vstd::prelude::*;
use crate::expr::BinaryOp;
use crate::expr::Expr;
use crate::expr::ExprView;
use crate::expr::UnaryOp;
use crate::expr::exprs_view;
use crate::expr::lemma_call_view;
use crate::lexer_token::Token;
use crate::lexer_token::TokenType;
use crate::lexer_token::TokenView;
use crate::lexer_token::tokens_view;
use crate::precedence::Precedence;
use crate::precedence::precedence_rank;
use crate::stmt::Stmt;
use crate::stmt::StmtView;
use crate::stmt::names_view;
use crate::stmt::lemma_view_list_empty;
use crate::stmt::lemma_view_list_push;

verus! {

/// Why a token sequence is not a program.
#[derive(PartialEq, Eq, Debug, Clone, Copy, Structural)]
pub enum ParseError {
    /// A token of the given kind was required; the line of the token found.
    Expected { expected: TokenType, line: usize },
    /// The token found cannot start an expression.
    ExpectedExpression { line: usize },
    /// A name was required (after `let` or `fun`, or as a parameter).
    ExpectedIdentifier { line: usize },
    /// The left side of `=` is not a variable name.
    InvalidAssignmentTarget { line: usize },
}

// ---------------------------------------------------------------------------
// The grammar, as a function of the token sequence and a position in it.
// ---------------------------------------------------------------------------

/// The tokens left from `pos` on: the measure that every parsing step lowers.
pub open spec fn rest(t: Seq<TokenView>, pos: int) -> int {
    if pos < t.len() {
        t.len() - pos
    } else {
        0
    }
}

pub open spec fn line_at(t: Seq<TokenView>, pos: int) -> usize {
    t[pos].line as usize
}

/// The position after the token at `pos`; `Eof` is never passed.
pub open spec fn advanced(t: Seq<TokenView>, pos: int) -> int {
    if t[pos].token != TokenType::Eof {
        pos + 1
    } else {
        pos
    }
}

/// The token at `pos` must be of kind `k`; the position after it.
pub open spec fn expect_at(t: Seq<TokenView>, pos: int, k: TokenType) -> Result<int, ParseError> {
    if t[pos].token == k {
        Ok(advanced(t, pos))
    } else {
        Err(ParseError::Expected { expected: k, line: line_at(t, pos) })
    }
}

pub open spec fn unary_op_of(k: TokenType) -> Option<UnaryOp> {
    if k == TokenType::Bang {
        Some(UnaryOp::Not)
    } else if k == TokenType::Minus {
        Some(UnaryOp::Negate)
    } else {
        None
    }
}

pub open spec fn binary_op_of(k: TokenType) -> Option<BinaryOp> {
    if k == TokenType::Plus {
        Some(BinaryOp::Add)
    } else if k == TokenType::Minus {
        Some(BinaryOp::Subtract)
    } else if k == TokenType::Star {
        Some(BinaryOp::Multiply)
    } else if k == TokenType::Slash {
        Some(BinaryOp::Divide)
    } else if k == TokenType::EqualEqual {
        Some(BinaryOp::Equal)
    } else if k == TokenType::BangEqual {
        Some(BinaryOp::NotEqual)
    } else if k == TokenType::Greater {
        Some(BinaryOp::Greater)
    } else if k == TokenType::GreaterEqual {
        Some(BinaryOp::GreaterEqual)
    } else if k == TokenType::Less {
        Some(BinaryOp::Less)
    } else if k == TokenType::LessEqual {
        Some(BinaryOp::LessEqual)
    } else if k == TokenType::And {
        Some(BinaryOp::And)
    } else if k == TokenType::Or {
        Some(BinaryOp::Or)
    } else {
        None
    }
}

/// How tightly a token binds when it follows an operand.
pub open spec fn infix_prec(k: TokenType) -> Precedence {
    if k == TokenType::Plus || k == TokenType::Minus {
        Precedence::Term
    } else if k == TokenType::Star || k == TokenType::Slash {
        Precedence::Factor
    } else if k == TokenType::BangEqual || k == TokenType::EqualEqual {
        Precedence::Equality
    } else if k == TokenType::Less || k == TokenType::Greater || k == TokenType::LessEqual || k
        == TokenType::GreaterEqual {
        Precedence::Comparison
    } else if k == TokenType::Or {
        Precedence::Or
    } else if k == TokenType::And {
        Precedence::And
    } else if k == TokenType::Equal {
        Precedence::Assignment
    } else if k == TokenType::LeftParen {
        Precedence::Call
    } else {
        Precedence::Lowest
    }
}

/// The error returned where a step of the grammar would not move forward;
/// it never happens, since every step consumes a token.
pub open spec fn stalled(t: Seq<TokenView>, pos: int) -> ParseError {
    ParseError::ExpectedExpression { line: line_at(t, pos) }
}

/// A prefix expression (literal, name, unary operator or group) at `pos`.
pub open spec fn spec_parse_expr(t: Seq<TokenView>, pos: int) -> Result<(ExprView, int), ParseError>
    decreases rest(t, pos), 0nat,
{
    if pos < 0 || pos >= t.len() {
        Err(stalled(t, pos))
    } else {
        let k = t[pos].token;
        if k == TokenType::Number {
            Ok((ExprView::Number(t[pos].lexeme), advanced(t, pos)))
        } else if k == TokenType::Minus || k == TokenType::Bang {
            match spec_parse_prec(t, pos + 1, Precedence::Unary) {
                Ok((r, p)) => Ok(
                    (ExprView::Unary { operator: unary_op_of(k).unwrap(), right: Box::new(r) }, p),
                ),
                Err(e) => Err(e),
            }
        } else if k == TokenType::LeftParen {
            match spec_parse_prec(t, pos + 1, Precedence::Lowest) {
                Ok((g, p)) => match expect_at(t, p, TokenType::RightParen) {
                    Ok(p2) => Ok((ExprView::Grouping(Box::new(g)), p2)),
                    Err(e) => Err(e),
                },
                Err(e) => Err(e),
            }
        } else if k == TokenType::String {
            Ok((ExprView::String(t[pos].lexeme), advanced(t, pos)))
        } else if k == TokenType::Identifier {
            Ok((ExprView::Identifier(t[pos].lexeme), advanced(t, pos)))
        } else if k == TokenType::True {
            Ok((ExprView::Bool(true), advanced(t, pos)))
        } else if k == TokenType::False {
            Ok((ExprView::Bool(false), advanced(t, pos)))
        } else if k == TokenType::Nil {
            Ok((ExprView::Nil, advanced(t, pos)))
        } else {
            Err(ParseError::ExpectedExpression { line: line_at(t, pos) })
        }
    }
}

/// An expression whose operators all bind tighter than `min`.
pub open spec fn spec_parse_prec(t: Seq<TokenView>, pos: int, min: Precedence) -> Result<
    (ExprView, int),
    ParseError,
>
    decreases rest(t, pos), 2nat,
{
    if pos < 0 || pos >= t.len() {
        Err(stalled(t, pos))
    } else {
        match spec_parse_expr(t, pos) {
            Ok((left, p)) => if pos < p {
                spec_parse_infix(t, p, left, min)
            } else {
                Err(stalled(t, pos))
            },
            Err(e) => Err(e),
        }
    }
}

/// Extends `left` with the operators from `pos` on that bind tighter than
/// `min`: calls, assignments (right-associative) and binary operators
/// (left-associative).
pub open spec fn spec_parse_infix(t: Seq<TokenView>, pos: int, left: ExprView, min: Precedence) -> Result<
    (ExprView, int),
    ParseError,
>
    decreases rest(t, pos), 1nat,
{
    if pos < 0 || pos >= t.len() {
        Err(stalled(t, pos))
    } else {
        let k = t[pos].token;
        let prec = infix_prec(k);
        if precedence_rank(prec) > precedence_rank(min) {
            if k == TokenType::LeftParen {
                match spec_parse_call(t, pos, left) {
                    Ok((call, p)) => if pos < p {
                        spec_parse_infix(t, p, call, min)
                    } else {
                        Err(stalled(t, pos))
                    },
                    Err(e) => Err(e),
                }
            } else if k == TokenType::Equal {
                match left {
                    ExprView::Identifier(name) => match spec_parse_prec(t, pos + 1, min) {
                        Ok((value, p)) => if pos < p {
                            spec_parse_infix(
                                t,
                                p,
                                ExprView::Assignment { name: name, value: Box::new(value) },
                                min,
                            )
                        } else {
                            Err(stalled(t, pos))
                        },
                        Err(e) => Err(e),
                    },
                    _ => Err(ParseError::InvalidAssignmentTarget { line: line_at(t, pos) }),
                }
            } else {
                match spec_parse_prec(t, pos + 1, prec) {
                    Ok((right, p)) => if pos < p {
                        spec_parse_infix(
                            t,
                            p,
                            ExprView::Binary {
                                left: Box::new(left),
                                operator: binary_op_of(k).unwrap(),
                                right: Box::new(right),
                            },
                            min,
                        )
                    } else {
                        Err(stalled(t, pos))
                    },
                    Err(e) => Err(e),
                }
            }
        } else {
            Ok((left, pos))
        }
    }
}

/// A call of `callee` whose `(` is at `pos`.
pub open spec fn spec_parse_call(t: Seq<TokenView>, pos: int, callee: ExprView) -> Result<
    (ExprView, int),
    ParseError,
>
    decreases rest(t, pos), 0nat,
{
    if pos < 0 || pos >= t.len() {
        Err(stalled(t, pos))
    } else {
        match spec_parse_args(t, pos + 1, Seq::empty()) {
            Ok((args, p)) => Ok((ExprView::Call { callee: Box::new(callee), arguments: args }, p)),
            Err(e) => Err(e),
        }
    }
}

/// The remaining arguments of a call, after the ones in `args`, up to and
/// including the `)`. An argument is any expression, an assignment too.
pub open spec fn spec_parse_args(t: Seq<TokenView>, pos: int, args: Seq<ExprView>) -> Result<
    (Seq<ExprView>, int),
    ParseError,
>
    decreases rest(t, pos), 3nat,
{
    if pos < 0 || pos >= t.len() {
        Err(stalled(t, pos))
    } else if t[pos].token == TokenType::RightParen {
        Ok((args, advanced(t, pos)))
    } else {
        match spec_parse_prec(t, pos, Precedence::Lowest) {
            Ok((arg, p)) => if pos < p {
                if t[p].token == TokenType::Comma {
                    spec_parse_args(t, advanced(t, p), args.push(arg))
                } else if t[p].token == TokenType::RightParen {
                    Ok((args.push(arg), advanced(t, p)))
                } else {
                    Err(ParseError::Expected { expected: TokenType::RightParen, line: line_at(t, p) })
                }
            } else {
                Err(stalled(t, pos))
            },
            Err(e) => Err(e),
        }
    }
}

/// A statement at `pos`.
pub open spec fn spec_parse_stmt(t: Seq<TokenView>, pos: int) -> Result<(StmtView, int), ParseError>
    decreases rest(t, pos), 4nat,
{
    if pos < 0 || pos >= t.len() {
        Err(stalled(t, pos))
    } else {
        let k = t[pos].token;
        if k == TokenType::Let {
            let p = advanced(t, pos);
            if t[p].token != TokenType::Identifier {
                Err(ParseError::ExpectedIdentifier { line: line_at(t, p) })
            } else {
                let name = t[p].lexeme;
                let p2 = advanced(t, p);
                if pos < p2 && t[p2].token == TokenType::Equal {
                    match spec_parse_prec(t, advanced(t, p2), Precedence::Lowest) {
                        Ok((v, p3)) => match expect_at(t, p3, TokenType::Semicolon) {
                            Ok(p4) => Ok((StmtView::Let { name: name, value: Some(v) }, p4)),
                            Err(e) => Err(e),
                        },
                        Err(e) => Err(e),
                    }
                } else {
                    match expect_at(t, p2, TokenType::Semicolon) {
                        Ok(p4) => Ok((StmtView::Let { name: name, value: None }, p4)),
                        Err(e) => Err(e),
                    }
                }
            }
        } else if k == TokenType::If {
            match expect_at(t, advanced(t, pos), TokenType::LeftParen) {
                Ok(p) => if pos < p {
                    match spec_parse_prec(t, p, Precedence::Lowest) {
                        Ok((condition, p2)) => match expect_at(t, p2, TokenType::RightParen) {
                            Ok(p3) => if pos < p3 {
                                match spec_parse_block(t, p3) {
                                    Ok((then_branch, p4)) => if pos < p4 && t[p4].token
                                        == TokenType::Else {
                                        match spec_parse_block(t, advanced(t, p4)) {
                                            Ok((else_branch, p5)) => Ok(
                                                (
                                                    StmtView::If {
                                                        condition: condition,
                                                        then_branch: then_branch,
                                                        else_branch: Some(else_branch),
                                                    },
                                                    p5,
                                                ),
                                            ),
                                            Err(e) => Err(e),
                                        }
                                    } else {
                                        Ok(
                                            (
                                                StmtView::If {
                                                    condition: condition,
                                                    then_branch: then_branch,
                                                    else_branch: None,
                                                },
                                                p4,
                                            ),
                                        )
                                    },
                                    Err(e) => Err(e),
                                }
                            } else {
                                Err(stalled(t, pos))
                            },
                            Err(e) => Err(e),
                        },
                        Err(e) => Err(e),
                    }
                } else {
                    Err(stalled(t, pos))
                },
                Err(e) => Err(e),
            }
        } else if k == TokenType::While {
            match expect_at(t, advanced(t, pos), TokenType::LeftParen) {
                Ok(p) => if pos < p {
                    match spec_parse_prec(t, p, Precedence::Lowest) {
                        Ok((condition, p2)) => match expect_at(t, p2, TokenType::RightParen) {
                            Ok(p3) => if pos < p3 {
                                match spec_parse_block(t, p3) {
                                    Ok((body, p4)) => Ok(
                                        (StmtView::While { condition: condition, body: body }, p4),
                                    ),
                                    Err(e) => Err(e),
                                }
                            } else {
                                Err(stalled(t, pos))
                            },
                            Err(e) => Err(e),
                        },
                        Err(e) => Err(e),
                    }
                } else {
                    Err(stalled(t, pos))
                },
                Err(e) => Err(e),
            }
        } else if k == TokenType::Fun {
            let p = advanced(t, pos);
            if t[p].token != TokenType::Identifier {
                Err(ParseError::ExpectedIdentifier { line: line_at(t, p) })
            } else {
                let name = t[p].lexeme;
                match expect_at(t, advanced(t, p), TokenType::LeftParen) {
                    Ok(p2) => if pos < p2 {
                        match spec_parse_params(t, p2, Seq::empty()) {
                            Ok((parameters, p3)) => if pos < p3 {
                                match spec_parse_block(t, p3) {
                                    Ok((body, p4)) => Ok(
                                        (
                                            StmtView::Fun {
                                                name: name,
                                                parameters: parameters,
                                                body: body,
                                            },
                                            p4,
                                        ),
                                    ),
                                    Err(e) => Err(e),
                                }
                            } else {
                                Err(stalled(t, pos))
                            },
                            Err(e) => Err(e),
                        }
                    } else {
                        Err(stalled(t, pos))
                    },
                    Err(e) => Err(e),
                }
            }
        } else if k == TokenType::Return {
            let p = advanced(t, pos);
            if pos < p && t[p].token != TokenType::Semicolon {
                match spec_parse_prec(t, p, Precedence::Lowest) {
                    Ok((v, p2)) => match expect_at(t, p2, TokenType::Semicolon) {
                        Ok(p3) => Ok((StmtView::Return(Some(v)), p3)),
                        Err(e) => Err(e),
                    },
                    Err(e) => Err(e),
                }
            } else {
                match expect_at(t, p, TokenType::Semicolon) {
                    Ok(p3) => Ok((StmtView::Return(None), p3)),
                    Err(e) => Err(e),
                }
            }
        } else {
            match spec_parse_prec(t, pos, Precedence::Lowest) {
                Ok((e, p)) => match expect_at(t, p, TokenType::Semicolon) {
                    Ok(p2) => Ok((StmtView::Expression(e), p2)),
                    Err(err) => Err(err),
                },
                Err(err) => Err(err),
            }
        }
    }
}

/// The remaining parameter names of a function, after those in `params`,
/// up to and including the `)`.
pub open spec fn spec_parse_params(t: Seq<TokenView>, pos: int, params: Seq<Seq<char>>) -> Result<
    (Seq<Seq<char>>, int),
    ParseError,
>
    decreases rest(t, pos), 0nat,
{
    if pos < 0 || pos >= t.len() {
        Err(stalled(t, pos))
    } else if t[pos].token == TokenType::RightParen {
        Ok((params, advanced(t, pos)))
    } else if t[pos].token != TokenType::Identifier {
        Err(ParseError::ExpectedIdentifier { line: line_at(t, pos) })
    } else {
        let p = advanced(t, pos);
        if t[p].token != TokenType::RightParen {
            match expect_at(t, p, TokenType::Comma) {
                Ok(p2) => if pos < p2 {
                    spec_parse_params(t, p2, params.push(t[pos].lexeme))
                } else {
                    Err(stalled(t, pos))
                },
                Err(e) => Err(e),
            }
        } else if pos < p {
            spec_parse_params(t, p, params.push(t[pos].lexeme))
        } else {
            Err(stalled(t, pos))
        }
    }
}

/// A block `{ ... }` whose `{` is at `pos`.
pub open spec fn spec_parse_block(t: Seq<TokenView>, pos: int) -> Result<(Seq<StmtView>, int), ParseError>
    decreases rest(t, pos), 0nat,
{
    if pos < 0 || pos >= t.len() {
        Err(stalled(t, pos))
    } else {
        match expect_at(t, pos, TokenType::LeftBrace) {
            Ok(p) => if pos < p {
                spec_parse_block_items(t, p, Seq::empty())
            } else {
                Err(stalled(t, pos))
            },
            Err(e) => Err(e),
        }
    }
}

/// The remaining statements of a block, after those in `stmts`, up to and
/// including the `}`.
pub open spec fn spec_parse_block_items(t: Seq<TokenView>, pos: int, stmts: Seq<StmtView>) -> Result<
    (Seq<StmtView>, int),
    ParseError,
>
    decreases rest(t, pos), 5nat,
{
    if pos < 0 || pos >= t.len() {
        Err(stalled(t, pos))
    } else if t[pos].token == TokenType::RightBrace {
        Ok((stmts, advanced(t, pos)))
    } else {
        match spec_parse_stmt(t, pos) {
            Ok((s, p)) => if pos < p {
                spec_parse_block_items(t, p, stmts.push(s))
            } else {
                Err(stalled(t, pos))
            },
            Err(e) => Err(e),
        }
    }
}

/// The statements from `pos` up to `Eof`, after those in `stmts`.
pub open spec fn spec_parse_program(t: Seq<TokenView>, pos: int, stmts: Seq<StmtView>) -> Result<
    Seq<StmtView>,
    ParseError,
>
    decreases rest(t, pos), 5nat,
{
    if pos < 0 || pos >= t.len() {
        Err(stalled(t, pos))
    } else if t[pos].token == TokenType::Eof {
        Ok(stmts)
    } else {
        match spec_parse_stmt(t, pos) {
            Ok((s, p)) => if pos < p {
                spec_parse_program(t, p, stmts.push(s))
            } else {
                Err(stalled(t, pos))
            },
            Err(e) => Err(e),
        }
    }
}

/// The program that a whole token sequence spells.
pub open spec fn parse_tokens(t: Seq<TokenView>) -> Result<Seq<StmtView>, ParseError> {
    spec_parse_program(t, 0, Seq::empty())
}

/// A token sequence that a parser can be made of: it ends with `Eof`.
pub open spec fn ends_with_eof(t: Seq<TokenView>) -> bool {
    t.len() > 0 && t.last().token == TokenType::Eof
}


// ---------------------------------------------------------------------------
// Laws of the grammar.
// ---------------------------------------------------------------------------

/// The expression that a literal or a name stands for on its own.
pub open spec fn atom(tv: TokenView) -> Option<ExprView> {
    let k = tv.token;
    if k == TokenType::Number {
        Some(ExprView::Number(tv.lexeme))
    } else if k == TokenType::String {
        Some(ExprView::String(tv.lexeme))
    } else if k == TokenType::Identifier {
        Some(ExprView::Identifier(tv.lexeme))
    } else if k == TokenType::True {
        Some(ExprView::Bool(true))
    } else if k == TokenType::False {
        Some(ExprView::Bool(false))
    } else if k == TokenType::Nil {
        Some(ExprView::Nil)
    } else {
        None
    }
}

/// The binary expression `left op right`.
pub open spec fn binary(left: ExprView, op: BinaryOp, right: ExprView) -> ExprView {
    ExprView::Binary { left: Box::new(left), operator: op, right: Box::new(right) }
}

/// Precedence climbing on `a op1 b op2 c`, where the three operands are
/// literals or names and the two operators binary ones (`and` and `or`
/// among them): the operators group to the left unless `op2` binds tighter
/// than `op1`. So operators of one level associate to the left, `*` and `/`
/// bind tighter than `+` and `-`, comparisons tighter than `and`, and `and`
/// tighter than `or`.
pub proof fn lemma_operator_grouping(t: Seq<TokenView>, pos: int)
    requires
        0 <= pos,
        pos + 5 < t.len(),
        atom(t[pos]) is Some,
        atom(t[pos + 2]) is Some,
        atom(t[pos + 4]) is Some,
        binary_op_of(t[pos + 1].token) is Some,
        binary_op_of(t[pos + 3].token) is Some,
        infix_prec(t[pos + 5].token) == Precedence::Lowest,
    ensures
        ({
            let a = atom(t[pos]).unwrap();
            let b = atom(t[pos + 2]).unwrap();
            let c = atom(t[pos + 4]).unwrap();
            let op1 = binary_op_of(t[pos + 1].token).unwrap();
            let op2 = binary_op_of(t[pos + 3].token).unwrap();
            let r1 = precedence_rank(infix_prec(t[pos + 1].token));
            let r2 = precedence_rank(infix_prec(t[pos + 3].token));
            spec_parse_prec(t, pos, Precedence::Lowest) == Ok::<(ExprView, int), ParseError>((
                if r1 >= r2 {
                    binary(binary(a, op1, b), op2, c)
                } else {
                    binary(a, op1, binary(b, op2, c))
                },
                pos + 5,
            ))
        }),
{
    let a = atom(t[pos]).unwrap();
    let b = atom(t[pos + 2]).unwrap();
    let c = atom(t[pos + 4]).unwrap();
    let k1 = t[pos + 1].token;
    let k2 = t[pos + 3].token;
    let op1 = binary_op_of(k1).unwrap();
    let op2 = binary_op_of(k2).unwrap();
    let p1 = infix_prec(k1);
    let p2 = infix_prec(k2);
    assert(spec_parse_expr(t, pos) == Ok::<(ExprView, int), ParseError>((a, pos + 1)));
    assert(spec_parse_expr(t, pos + 2) == Ok::<(ExprView, int), ParseError>((b, pos + 3)));
    assert(spec_parse_expr(t, pos + 4) == Ok::<(ExprView, int), ParseError>((c, pos + 5)));
    assert(spec_parse_infix(t, pos + 5, c, p2) == Ok::<(ExprView, int), ParseError>((c, pos + 5)));
    assert(spec_parse_prec(t, pos + 4, p2) == Ok::<(ExprView, int), ParseError>((c, pos + 5)));
    if precedence_rank(p1) >= precedence_rank(p2) {
        let ab = binary(a, op1, b);
        let whole = binary(ab, op2, c);
        assert(spec_parse_infix(t, pos + 3, b, p1) == Ok::<(ExprView, int), ParseError>((b, pos + 3)));
        assert(spec_parse_prec(t, pos + 2, p1) == Ok::<(ExprView, int), ParseError>((b, pos + 3)));
        assert(spec_parse_infix(t, pos + 5, whole, Precedence::Lowest) == Ok::<(ExprView, int), ParseError>((whole, pos + 5)));
        assert(spec_parse_infix(t, pos + 3, ab, Precedence::Lowest) == Ok::<(ExprView, int), ParseError>((whole, pos + 5)));
        assert(spec_parse_infix(t, pos + 1, a, Precedence::Lowest) == Ok::<(ExprView, int), ParseError>((whole, pos + 5)));
    } else {
        let bc = binary(b, op2, c);
        let whole = binary(a, op1, bc);
        assert(spec_parse_infix(t, pos + 5, bc, p1) == Ok::<(ExprView, int), ParseError>((bc, pos + 5)));
        assert(spec_parse_infix(t, pos + 3, b, p1) == Ok::<(ExprView, int), ParseError>((bc, pos + 5)));
        assert(spec_parse_prec(t, pos + 2, p1) == Ok::<(ExprView, int), ParseError>((bc, pos + 5)));
        assert(spec_parse_infix(t, pos + 5, whole, Precedence::Lowest) == Ok::<(ExprView, int), ParseError>((whole, pos + 5)));
        assert(spec_parse_infix(t, pos + 1, a, Precedence::Lowest) == Ok::<(ExprView, int), ParseError>((whole, pos + 5)));
    }
}

/// The binding strength of the infix operators, weakest first: assignment,
/// `or`, `and`, equality, comparison, `+` and `-`, `*` and `/`, then the
/// call's `(`; tokens that are no operator end an expression.
pub proof fn lemma_precedence_levels()
    ensures
        precedence_rank(infix_prec(TokenType::Semicolon)) == 0,
        precedence_rank(infix_prec(TokenType::RightParen)) == 0,
        precedence_rank(infix_prec(TokenType::Comma)) == 0,
        precedence_rank(infix_prec(TokenType::Eof)) == 0,
        0 < precedence_rank(infix_prec(TokenType::Equal)),
        precedence_rank(infix_prec(TokenType::Equal)) < precedence_rank(infix_prec(TokenType::Or)),
        precedence_rank(infix_prec(TokenType::Or)) < precedence_rank(infix_prec(TokenType::And)),
        precedence_rank(infix_prec(TokenType::And)) < precedence_rank(infix_prec(TokenType::EqualEqual)),
        precedence_rank(infix_prec(TokenType::EqualEqual)) == precedence_rank(infix_prec(TokenType::BangEqual)),
        precedence_rank(infix_prec(TokenType::EqualEqual)) < precedence_rank(infix_prec(TokenType::Less)),
        precedence_rank(infix_prec(TokenType::Less)) == precedence_rank(infix_prec(TokenType::Greater)),
        precedence_rank(infix_prec(TokenType::Less)) == precedence_rank(infix_prec(TokenType::LessEqual)),
        precedence_rank(infix_prec(TokenType::Less)) == precedence_rank(infix_prec(TokenType::GreaterEqual)),
        precedence_rank(infix_prec(TokenType::Less)) < precedence_rank(infix_prec(TokenType::Plus)),
        precedence_rank(infix_prec(TokenType::Plus)) == precedence_rank(infix_prec(TokenType::Minus)),
        precedence_rank(infix_prec(TokenType::Plus)) < precedence_rank(infix_prec(TokenType::Star)),
        precedence_rank(infix_prec(TokenType::Star)) == precedence_rank(infix_prec(TokenType::Slash)),
        precedence_rank(infix_prec(TokenType::Star)) < precedence_rank(infix_prec(TokenType::LeftParen)),
{
}

/// An equality, comparison or arithmetic operator.
pub open spec fn is_tight_operator(k: TokenType) -> bool {
    k == TokenType::EqualEqual || k == TokenType::BangEqual || k == TokenType::Less || k == TokenType::Greater
        || k == TokenType::LessEqual || k == TokenType::GreaterEqual || k == TokenType::Plus || k
        == TokenType::Minus || k == TokenType::Star || k == TokenType::Slash
}

/// `and` and `or` join whole comparisons: `a op1 b L c op2 d`, with `L` one
/// of `and`, `or` and the two other operators comparisons, equalities or
/// arithmetic, parses as `(a op1 b) L (c op2 d)`.
pub proof fn lemma_logic_joins_comparisons(t: Seq<TokenView>, pos: int)
    requires
        0 <= pos,
        pos + 7 < t.len(),
        atom(t[pos]) is Some,
        atom(t[pos + 2]) is Some,
        atom(t[pos + 4]) is Some,
        atom(t[pos + 6]) is Some,
        is_tight_operator(t[pos + 1].token),
        t[pos + 3].token == TokenType::And || t[pos + 3].token == TokenType::Or,
        is_tight_operator(t[pos + 5].token),
        infix_prec(t[pos + 7].token) == Precedence::Lowest,
    ensures
        spec_parse_prec(t, pos, Precedence::Lowest) == Ok::<(ExprView, int), ParseError>((
            binary(
                binary(atom(t[pos]).unwrap(), binary_op_of(t[pos + 1].token).unwrap(), atom(t[pos + 2]).unwrap()),
                if t[pos + 3].token == TokenType::And {
                    BinaryOp::And
                } else {
                    BinaryOp::Or
                },
                binary(atom(t[pos + 4]).unwrap(), binary_op_of(t[pos + 5].token).unwrap(), atom(t[pos + 6]).unwrap()),
            ),
            pos + 7,
        )),
{
    let a = atom(t[pos]).unwrap();
    let b = atom(t[pos + 2]).unwrap();
    let c = atom(t[pos + 4]).unwrap();
    let d = atom(t[pos + 6]).unwrap();
    let q1 = infix_prec(t[pos + 1].token);
    let ql = infix_prec(t[pos + 3].token);
    let q2 = infix_prec(t[pos + 5].token);
    let ab = binary(a, binary_op_of(t[pos + 1].token).unwrap(), b);
    let cd = binary(c, binary_op_of(t[pos + 5].token).unwrap(), d);
    let lop = binary_op_of(t[pos + 3].token).unwrap();
    let whole = binary(ab, lop, cd);
    assert(spec_parse_expr(t, pos) == Ok::<(ExprView, int), ParseError>((a, pos + 1)));
    assert(spec_parse_expr(t, pos + 2) == Ok::<(ExprView, int), ParseError>((b, pos + 3)));
    assert(spec_parse_expr(t, pos + 4) == Ok::<(ExprView, int), ParseError>((c, pos + 5)));
    assert(spec_parse_expr(t, pos + 6) == Ok::<(ExprView, int), ParseError>((d, pos + 7)));
    assert(spec_parse_infix(t, pos + 7, d, q2) == Ok::<(ExprView, int), ParseError>((d, pos + 7)));
    assert(spec_parse_prec(t, pos + 6, q2) == Ok::<(ExprView, int), ParseError>((d, pos + 7)));
    assert(spec_parse_infix(t, pos + 7, cd, ql) == Ok::<(ExprView, int), ParseError>((cd, pos + 7)));
    assert(spec_parse_infix(t, pos + 5, c, ql) == Ok::<(ExprView, int), ParseError>((cd, pos + 7)));
    assert(spec_parse_prec(t, pos + 4, ql) == Ok::<(ExprView, int), ParseError>((cd, pos + 7)));
    assert(spec_parse_infix(t, pos + 3, b, q1) == Ok::<(ExprView, int), ParseError>((b, pos + 3)));
    assert(spec_parse_prec(t, pos + 2, q1) == Ok::<(ExprView, int), ParseError>((b, pos + 3)));
    assert(spec_parse_infix(t, pos + 7, whole, Precedence::Lowest) == Ok::<(ExprView, int), ParseError>((whole, pos + 7)));
    assert(spec_parse_infix(t, pos + 3, ab, Precedence::Lowest) == Ok::<(ExprView, int), ParseError>((whole, pos + 7)));
    assert(spec_parse_infix(t, pos + 1, a, Precedence::Lowest) == Ok::<(ExprView, int), ParseError>((whole, pos + 7)));
}

/// Declarations: `let x;` declares `x` with no value, `let x = a;` with the
/// value `a`, and each ends after its semicolon.
pub proof fn lemma_let_statements(t: Seq<TokenView>, pos: int)
    requires
        0 <= pos,
        pos + 2 < t.len(),
        t[pos].token == TokenType::Let,
        t[pos + 1].token == TokenType::Identifier,
    ensures
        t[pos + 2].token == TokenType::Semicolon ==> spec_parse_stmt(t, pos) == Ok::<(StmtView, int), ParseError>(
            (StmtView::Let { name: t[pos + 1].lexeme, value: None }, pos + 3),
        ),
        (t[pos + 2].token == TokenType::Equal && pos + 5 < t.len() && atom(t[pos + 3]) is Some && t[pos + 4].token
            == TokenType::Semicolon) ==> spec_parse_stmt(t, pos) == Ok::<(StmtView, int), ParseError>(
            (StmtView::Let { name: t[pos + 1].lexeme, value: Some(atom(t[pos + 3]).unwrap()) }, pos + 5),
        ),
{
    if t[pos + 2].token == TokenType::Equal && pos + 5 < t.len() && atom(t[pos + 3]) is Some && t[pos + 4].token
        == TokenType::Semicolon {
        let a = atom(t[pos + 3]).unwrap();
        assert(spec_parse_expr(t, pos + 3) == Ok::<(ExprView, int), ParseError>((a, pos + 4)));
        assert(spec_parse_infix(t, pos + 4, a, Precedence::Lowest) == Ok::<(ExprView, int), ParseError>((a, pos + 4)));
        assert(spec_parse_prec(t, pos + 3, Precedence::Lowest) == Ok::<(ExprView, int), ParseError>((a, pos + 4)));
    }
}

/// Returns: `return;` returns no value, `return a;` the value `a`.
pub proof fn lemma_return_statements(t: Seq<TokenView>, pos: int)
    requires
        0 <= pos,
        pos + 1 < t.len(),
        t[pos].token == TokenType::Return,
    ensures
        t[pos + 1].token == TokenType::Semicolon ==> spec_parse_stmt(t, pos) == Ok::<(StmtView, int), ParseError>(
            (StmtView::Return(None), pos + 2),
        ),
        (pos + 3 < t.len() && atom(t[pos + 1]) is Some && t[pos + 2].token == TokenType::Semicolon) ==> spec_parse_stmt(
            t,
            pos,
        ) == Ok::<(StmtView, int), ParseError>((StmtView::Return(Some(atom(t[pos + 1]).unwrap())), pos + 3)),
{
    if pos + 3 < t.len() && atom(t[pos + 1]) is Some && t[pos + 2].token == TokenType::Semicolon {
        let a = atom(t[pos + 1]).unwrap();
        assert(spec_parse_expr(t, pos + 1) == Ok::<(ExprView, int), ParseError>((a, pos + 2)));
        assert(spec_parse_infix(t, pos + 2, a, Precedence::Lowest) == Ok::<(ExprView, int), ParseError>((a, pos + 2)));
        assert(spec_parse_prec(t, pos + 1, Precedence::Lowest) == Ok::<(ExprView, int), ParseError>((a, pos + 2)));
    }
}

/// Assignment is right-associative: `x = y = c` assigns `c` to `y` and the
/// result to `x`.
pub proof fn lemma_assignment_groups_right(t: Seq<TokenView>, pos: int)
    requires
        0 <= pos,
        pos + 5 < t.len(),
        t[pos].token == TokenType::Identifier,
        t[pos + 1].token == TokenType::Equal,
        t[pos + 2].token == TokenType::Identifier,
        t[pos + 3].token == TokenType::Equal,
        atom(t[pos + 4]) is Some,
        infix_prec(t[pos + 5].token) == Precedence::Lowest,
    ensures
        spec_parse_prec(t, pos, Precedence::Lowest) == Ok::<(ExprView, int), ParseError>((
            ExprView::Assignment {
                name: t[pos].lexeme,
                value: Box::new(
                    ExprView::Assignment { name: t[pos + 2].lexeme, value: Box::new(atom(t[pos + 4]).unwrap()) },
                ),
            },
            pos + 5,
        )),
{
    let c = atom(t[pos + 4]).unwrap();
    let inner = ExprView::Assignment { name: t[pos + 2].lexeme, value: Box::new(c) };
    let whole = ExprView::Assignment { name: t[pos].lexeme, value: Box::new(inner) };
    assert(spec_parse_expr(t, pos + 4) == Ok::<(ExprView, int), ParseError>((c, pos + 5)));
    assert(spec_parse_infix(t, pos + 5, c, Precedence::Lowest) == Ok::<(ExprView, int), ParseError>((c, pos + 5)));
    assert(spec_parse_prec(t, pos + 4, Precedence::Lowest) == Ok::<(ExprView, int), ParseError>((c, pos + 5)));
    assert(spec_parse_infix(t, pos + 5, inner, Precedence::Lowest) == Ok::<(ExprView, int), ParseError>((inner, pos + 5)));
    assert(spec_parse_expr(t, pos + 2) == Ok::<(ExprView, int), ParseError>((ExprView::Identifier(t[pos + 2].lexeme), pos + 3)));
    assert(spec_parse_infix(t, pos + 3, ExprView::Identifier(t[pos + 2].lexeme), Precedence::Lowest) == Ok::<(ExprView, int), ParseError>((inner, pos + 5)));
    assert(spec_parse_prec(t, pos + 2, Precedence::Lowest) == Ok::<(ExprView, int), ParseError>((inner, pos + 5)));
    assert(spec_parse_infix(t, pos + 5, whole, Precedence::Lowest) == Ok::<(ExprView, int), ParseError>((whole, pos + 5)));
    assert(spec_parse_expr(t, pos) == Ok::<(ExprView, int), ParseError>((ExprView::Identifier(t[pos].lexeme), pos + 1)));
    assert(spec_parse_infix(t, pos + 1, ExprView::Identifier(t[pos].lexeme), Precedence::Lowest) == Ok::<(ExprView, int), ParseError>((whole, pos + 5)));
}

/// Only a name can be assigned to: in `a op b = c`, with `op` a binary
/// operator, the target is `a op b`, which is refused.
pub proof fn lemma_assignment_needs_a_name(t: Seq<TokenView>, pos: int)
    requires
        0 <= pos,
        pos + 3 < t.len(),
        atom(t[pos]) is Some,
        binary_op_of(t[pos + 1].token) is Some,
        atom(t[pos + 2]) is Some,
        t[pos + 3].token == TokenType::Equal,
    ensures
        spec_parse_prec(t, pos, Precedence::Lowest) == Err::<(ExprView, int), ParseError>(
            ParseError::InvalidAssignmentTarget { line: line_at(t, pos + 3) },
        ),
{
    let a = atom(t[pos]).unwrap();
    let b = atom(t[pos + 2]).unwrap();
    let p1 = infix_prec(t[pos + 1].token);
    let ab = binary(a, binary_op_of(t[pos + 1].token).unwrap(), b);
    assert(spec_parse_expr(t, pos) == Ok::<(ExprView, int), ParseError>((a, pos + 1)));
    assert(spec_parse_expr(t, pos + 2) == Ok::<(ExprView, int), ParseError>((b, pos + 3)));
    assert(spec_parse_infix(t, pos + 3, b, p1) == Ok::<(ExprView, int), ParseError>((b, pos + 3)));
    assert(spec_parse_prec(t, pos + 2, p1) == Ok::<(ExprView, int), ParseError>((b, pos + 3)));
    assert(spec_parse_infix(t, pos + 3, ab, Precedence::Lowest) == Err::<(ExprView, int), ParseError>(
        ParseError::InvalidAssignmentTarget { line: line_at(t, pos + 3) },
    ));
}

/// `r` is what the grammar `s` gives, and `end` the position after it.
pub open spec fn expr_outcome(r: Result<Expr, ParseError>, end: int, s: Result<(ExprView, int), ParseError>) -> bool {
    match s {
        Ok((e, p)) => r matches Ok(x) && x.view_expr() == e && end == p,
        Err(err) => r == Err::<Expr, ParseError>(err),
    }
}

pub open spec fn stmt_outcome(r: Result<Stmt, ParseError>, end: int, s: Result<(StmtView, int), ParseError>) -> bool {
    match s {
        Ok((st, p)) => r matches Ok(x) && x.view_stmt() == st && end == p,
        Err(err) => r == Err::<Stmt, ParseError>(err),
    }
}

pub open spec fn block_outcome(
    r: Result<Vec<Stmt>, ParseError>,
    end: int,
    s: Result<(Seq<StmtView>, int), ParseError>,
) -> bool {
    match s {
        Ok((b, p)) => r matches Ok(x) && Stmt::view_list(&x) == b && end == p,
        Err(err) => r == Err::<Vec<Stmt>, ParseError>(err),
    }
}

// ---------------------------------------------------------------------------
// The parser.
// ---------------------------------------------------------------------------

/// A Pratt parser over a token sequence that ends with `Eof`.
pub struct Parser {
    tokens: Vec<Token>,
    current: usize,
}

impl Parser {
    /// The tokens being parsed.
    pub closed spec fn tokens_seq(&self) -> Seq<TokenView> {
        tokens_view(self.tokens@)
    }

    /// The position of the next token.
    pub closed spec fn position(&self) -> int {
        self.current as int
    }

    /// The parser's invariant: the tokens end with `Eof`, and the position is
    /// inside them.
    pub closed spec fn wf(&self) -> bool {
        &&& ends_with_eof(tokens_view(self.tokens@))
        &&& self.current < self.tokens@.len()
    }

    /// A parser at the first of `tokens`. It can parse only where the tokens
    /// end with `Eof`: without it, parsing would run past the last token.
    pub fn new(tokens: Vec<Token>) -> (p: Self)
        ensures
            p.wf() == ends_with_eof(tokens_view(tokens@)),
            p.tokens_seq() == tokens_view(tokens@),
            p.position() == 0,
    {
        Parser { tokens, current: 0 }
    }

    /// Moves past the current token, unless it is `Eof`.
    fn advance(&mut self)
        requires
            old(self).wf(),
        ensures
            final(self).wf(),
            final(self).tokens_seq() == old(self).tokens_seq(),
            final(self).current == advanced(old(self).tokens_seq(), old(self).position()),
    {
        let ghost t = self.tokens_seq();
        assert(t.len() == self.tokens@.len());
        assert(t[self.current as int] == self.tokens@[self.current as int]@);
        assert(t.last() == t[t.len() - 1]);
        if (self.tokens[self.current]).token != TokenType::Eof {
            assert(self.current + 1 < self.tokens@.len());
            assert(self.tokens@.len() == self.tokens.len());
            self.current += 1;
        }
    }

    fn peek(&self) -> (t: &Token)
        requires
            self.wf(),
        ensures
            t@ == self.tokens_seq()[self.current as int],
    {
        &self.tokens[self.current]
    }

    /// Requires a token of kind `expected` and moves past it.
    fn expect_token(&mut self, expected: TokenType) -> (r: Result<(), ParseError>)
        requires
            old(self).wf(),
        ensures
            final(self).wf(),
            final(self).tokens_seq() == old(self).tokens_seq(),
            match expect_at(old(self).tokens_seq(), old(self).position(), expected) {
                Ok(p) => r is Ok && final(self).current == p,
                Err(e) => r == Err::<(), ParseError>(e),
            },
    {
        if self.peek().token != expected {
            return Err(ParseError::Expected { expected, line: self.peek().line });
        }
        self.advance();
        Ok(())
    }

    fn get_unary_op(&self, token_type: &TokenType) -> (op: UnaryOp)
        requires
            unary_op_of(*token_type) is Some,
        ensures
            op == unary_op_of(*token_type).unwrap(),
    {
        match token_type {
            TokenType::Bang => UnaryOp::Not,
            _ => UnaryOp::Negate,
        }
    }

    fn get_binary_op(&self, token_type: &TokenType) -> (op: BinaryOp)
        requires
            binary_op_of(*token_type) is Some,
        ensures
            op == binary_op_of(*token_type).unwrap(),
    {
        match token_type {
            TokenType::Plus => BinaryOp::Add,
            TokenType::Minus => BinaryOp::Subtract,
            TokenType::Star => BinaryOp::Multiply,
            TokenType::Slash => BinaryOp::Divide,
            TokenType::EqualEqual => BinaryOp::Equal,
            TokenType::BangEqual => BinaryOp::NotEqual,
            TokenType::Greater => BinaryOp::Greater,
            TokenType::GreaterEqual => BinaryOp::GreaterEqual,
            TokenType::Less => BinaryOp::Less,
            TokenType::LessEqual => BinaryOp::LessEqual,
            TokenType::And => BinaryOp::And,
            _ => BinaryOp::Or,
        }
    }

    fn get_infix_prec(&self, token_type: &TokenType) -> (p: Precedence)
        ensures
            p == infix_prec(*token_type),
    {
        match token_type {
            TokenType::Plus | TokenType::Minus => Precedence::Term,
            TokenType::Star | TokenType::Slash => Precedence::Factor,
            TokenType::BangEqual | TokenType::EqualEqual => Precedence::Equality,
            TokenType::Less | TokenType::Greater | TokenType::LessEqual
            | TokenType::GreaterEqual => Precedence::Comparison,
            TokenType::Or => Precedence::Or,
            TokenType::And => Precedence::And,
            TokenType::Equal => Precedence::Assignment,
            TokenType::LeftParen => Precedence::Call,
            _ => Precedence::Lowest,
        }
    }

    /// A prefix expression: a literal, a name, a unary operator or a group.
    fn parse_expr(&mut self) -> (r: Result<Expr, ParseError>)
        requires
            old(self).wf(),
        ensures
            final(self).wf(),
            final(self).tokens_seq() == old(self).tokens_seq(),
            r is Ok ==> old(self).position() < final(self).position(),
            expr_outcome(r, final(self).position(), spec_parse_expr(old(self).tokens_seq(), old(self).position())),
        decreases rest(old(self).tokens_seq(), old(self).position()), 0nat,
    {
        let ghost t = self.tokens_seq();
        let k = self.peek().token;
        if k == TokenType::Number {
            let num = self.peek().lexeme.clone();
            self.advance();
            Ok(Expr::Number(num))
        } else if k == TokenType::Minus || k == TokenType::Bang {
            let operator = self.get_unary_op(&k);
            self.advance();
            match self.try_parse_prec(Precedence::Unary) {
                Ok(right) => Ok(Expr::Unary { operator: operator, right: Box::new(right) }),
                Err(e) => Err(e),
            }
        } else if k == TokenType::LeftParen {
            self.advance();
            match self.try_parse_prec(Precedence::Lowest) {
                Ok(group) => match self.expect_token(TokenType::RightParen) {
                    Ok(()) => Ok(Expr::Grouping(Box::new(group))),
                    Err(e) => Err(e),
                },
                Err(e) => Err(e),
            }
        } else if k == TokenType::String {
            let val = self.peek().lexeme.clone();
            self.advance();
            Ok(Expr::String(val))
        } else if k == TokenType::Identifier {
            let var = self.peek().lexeme.clone();
            self.advance();
            Ok(Expr::Identifier(var))
        } else if k == TokenType::True {
            self.advance();
            Ok(Expr::Bool(true))
        } else if k == TokenType::False {
            self.advance();
            Ok(Expr::Bool(false))
        } else if k == TokenType::Nil {
            self.advance();
            Ok(Expr::Nil)
        } else {
            Err(ParseError::ExpectedExpression { line: self.peek().line })
        }
    }

    /// An expression whose operators all bind tighter than `min_prec`.
    pub fn try_parse_prec(&mut self, min_prec: Precedence) -> (r: Result<Expr, ParseError>)
        requires
            old(self).wf(),
        ensures
            final(self).wf(),
            final(self).tokens_seq() == old(self).tokens_seq(),
            r is Ok ==> old(self).position() < final(self).position(),
            expr_outcome(r, final(self).position(), spec_parse_prec(old(self).tokens_seq(), old(self).position(), min_prec)),
        decreases rest(old(self).tokens_seq(), old(self).position()), 2nat,
    {
        let ghost t = self.tokens_seq();
        let ghost pos0 = self.current as int;
        let mut left = match self.parse_expr() {
            Ok(e) => e,
            Err(e) => return Err(e),
        };
        let mut precedence = self.get_infix_prec(&self.peek().token);
        while precedence.rank() > min_prec.rank()
            invariant
                self.wf(),
                t == self.tokens_seq(),
                t == old(self).tokens_seq(),
                pos0 == old(self).current,
                pos0 < self.current,
                precedence == infix_prec(t[self.current as int].token),
                spec_parse_prec(t, pos0, min_prec) == spec_parse_infix(t, self.current as int, left.view_expr(), min_prec),
            decreases rest(t, self.current as int),
        {
            let ghost cur = self.current as int;
            let ghost left_view = left.view_expr();
            let k = self.peek().token;
            if k == TokenType::LeftParen {
                match self.parse_call(left) {
                    Ok(e) => {
                        left = e;
                    },
                    Err(e) => return Err(e),
                }
            } else if k == TokenType::Equal {
                match left {
                    Expr::Identifier(name) => {
                        self.advance();
                        match self.try_parse_prec(min_prec) {
                            Ok(value) => {
                                left = Expr::Assignment { name: name, value: Box::new(value) };
                            },
                            Err(e) => return Err(e),
                        }
                    },
                    _ => {
                        return Err(ParseError::InvalidAssignmentTarget { line: self.peek().line });
                    },
                }
            } else {
                let operator = self.get_binary_op(&k);
                self.advance();
                match self.try_parse_prec(precedence) {
                    Ok(right) => {
                        left = Expr::Binary { left: Box::new(left), operator: operator, right: Box::new(right) };
                    },
                    Err(e) => return Err(e),
                }
            }
            precedence = self.get_infix_prec(&self.peek().token);
        }
        Ok(left)
    }

    /// A call of `left`, whose `(` is the current token.
    fn parse_call(&mut self, left: Expr) -> (r: Result<Expr, ParseError>)
        requires
            old(self).wf(),
            old(self).tokens_seq()[old(self).position()].token == TokenType::LeftParen,
        ensures
            final(self).wf(),
            final(self).tokens_seq() == old(self).tokens_seq(),
            r is Ok ==> old(self).position() < final(self).position(),
            expr_outcome(r, final(self).position(), spec_parse_call(old(self).tokens_seq(), old(self).position(), left.view_expr())),
        decreases rest(old(self).tokens_seq(), old(self).position()), 0nat,
    {
        let ghost t = self.tokens_seq();
        let ghost pos0 = self.current as int;
        self.advance();
        let mut arguments: Vec<Expr> = Vec::new();
        assert(exprs_view(arguments@) =~= Seq::<ExprView>::empty());
        loop
            invariant
                self.wf(),
                t == self.tokens_seq(),
                t == old(self).tokens_seq(),
                pos0 == old(self).current,
                pos0 < self.current,
                spec_parse_call(t, pos0, left.view_expr()) == (match spec_parse_args(t, self.current as int, exprs_view(arguments@)) {
                    Ok((args, p)) => Ok((ExprView::Call { callee: Box::new(left.view_expr()), arguments: args }, p)),
                    Err(e) => Err(e),
                }),
            decreases rest(t, self.current as int),
        {
            if self.peek().token == TokenType::RightParen {
                self.advance();
                let call = Expr::Call { callee: Box::new(left), arguments: arguments };
                proof {
                    lemma_call_view(&call);
                }
                return Ok(call);
            }
            let arg = match self.try_parse_prec(Precedence::Lowest) {
                Ok(a) => a,
                Err(e) => return Err(e),
            };
            let ghost before = arguments@;
            let ghost arg_view = arg.view_expr();
            arguments.push(arg);
            assert(exprs_view(arguments@) =~= exprs_view(before).push(arg_view));
            if self.peek().token == TokenType::Comma {
                self.advance();
            } else if self.peek().token == TokenType::RightParen {
                self.advance();
                let call = Expr::Call { callee: Box::new(left), arguments: arguments };
                proof {
                    lemma_call_view(&call);
                }
                return Ok(call);
            } else {
                return Err(ParseError::Expected { expected: TokenType::RightParen, line: self.peek().line });
            }
        }
    }

    /// A statement.
    fn parse_stmt(&mut self) -> (r: Result<Stmt, ParseError>)
        requires
            old(self).wf(),
        ensures
            final(self).wf(),
            final(self).tokens_seq() == old(self).tokens_seq(),
            r is Ok ==> old(self).position() < final(self).position(),
            stmt_outcome(r, final(self).position(), spec_parse_stmt(old(self).tokens_seq(), old(self).position())),
        decreases rest(old(self).tokens_seq(), old(self).position()), 4nat,
    {
        let ghost t = self.tokens_seq();
        let k = self.peek().token;
        if k == TokenType::Let {
            self.advance();
            if self.peek().token != TokenType::Identifier {
                return Err(ParseError::ExpectedIdentifier { line: self.peek().line });
            }
            let name = self.peek().lexeme.clone();
            let mut val: Option<Expr> = None;
            self.advance();
            if self.peek().token == TokenType::Equal {
                self.advance();
                match self.try_parse_prec(Precedence::Lowest) {
                    Ok(v) => {
                        val = Some(v);
                    },
                    Err(e) => return Err(e),
                }
            }
            match self.expect_token(TokenType::Semicolon) {
                Ok(()) => Ok(Stmt::Let { name: name, value: val }),
                Err(e) => Err(e),
            }
        } else if k == TokenType::If {
            self.advance();
            match self.expect_token(TokenType::LeftParen) {
                Ok(()) => {},
                Err(e) => return Err(e),
            }
            let condition = match self.try_parse_prec(Precedence::Lowest) {
                Ok(c) => c,
                Err(e) => return Err(e),
            };
            match self.expect_token(TokenType::RightParen) {
                Ok(()) => {},
                Err(e) => return Err(e),
            }
            let then = match self.parse_block() {
                Ok(b) => b,
                Err(e) => return Err(e),
            };
            let mut else_body: Option<Vec<Stmt>> = None;
            if self.peek().token == TokenType::Else {
                self.advance();
                match self.parse_block() {
                    Ok(b) => {
                        else_body = Some(b);
                    },
                    Err(e) => return Err(e),
                }
            }
            Ok(Stmt::If { condition: condition, then_branch: then, else_branch: else_body })
        } else if k == TokenType::While {
            self.advance();
            match self.expect_token(TokenType::LeftParen) {
                Ok(()) => {},
                Err(e) => return Err(e),
            }
            let condition = match self.try_parse_prec(Precedence::Lowest) {
                Ok(c) => c,
                Err(e) => return Err(e),
            };
            match self.expect_token(TokenType::RightParen) {
                Ok(()) => {},
                Err(e) => return Err(e),
            }
            match self.parse_block() {
                Ok(body) => Ok(Stmt::While { condition: condition, body: body }),
                Err(e) => Err(e),
            }
        } else if k == TokenType::Fun {
            self.advance();
            if self.peek().token != TokenType::Identifier {
                return Err(ParseError::ExpectedIdentifier { line: self.peek().line });
            }
            let name = self.peek().lexeme.clone();
            self.advance();
            match self.expect_token(TokenType::LeftParen) {
                Ok(()) => {},
                Err(e) => return Err(e),
            }
            let arguments = match self.parse_params() {
                Ok(a) => a,
                Err(e) => return Err(e),
            };
            match self.parse_block() {
                Ok(body) => Ok(Stmt::Fun { name: name, parameters: arguments, body: body }),
                Err(e) => Err(e),
            }
        } else if k == TokenType::Return {
            self.advance();
            let mut val: Option<Expr> = None;
            if self.peek().token != TokenType::Semicolon {
                match self.try_parse_prec(Precedence::Lowest) {
                    Ok(v) => {
                        val = Some(v);
                    },
                    Err(e) => return Err(e),
                }
            }
            match self.expect_token(TokenType::Semicolon) {
                Ok(()) => Ok(Stmt::Return(val)),
                Err(e) => Err(e),
            }
        } else {
            let expr = match self.try_parse_prec(Precedence::Lowest) {
                Ok(e) => e,
                Err(e) => return Err(e),
            };
            match self.expect_token(TokenType::Semicolon) {
                Ok(()) => Ok(Stmt::Expression(expr)),
                Err(e) => Err(e),
            }
        }
    }

    /// The parameter names of a function, after its `(`, up to and including
    /// the `)`.
    fn parse_params(&mut self) -> (r: Result<Vec<String>, ParseError>)
        requires
            old(self).wf(),
        ensures
            final(self).wf(),
            final(self).tokens_seq() == old(self).tokens_seq(),
            r is Ok ==> old(self).position() < final(self).position(),
            match spec_parse_params(old(self).tokens_seq(), old(self).position(), Seq::empty()) {
                Ok((ps, p)) => r matches Ok(x) && names_view(x@) == ps && final(self).position() == p,
                Err(e) => r == Err::<Vec<String>, ParseError>(e),
            },
    {
        let ghost t = self.tokens_seq();
        let ghost pos0 = self.position();
        let mut arguments: Vec<String> = Vec::new();
        assert(names_view(arguments@) =~= Seq::<Seq<char>>::empty());
        loop
            invariant
                self.wf(),
                t == self.tokens_seq(),
                t == old(self).tokens_seq(),
                pos0 == old(self).position(),
                pos0 <= self.position(),
                spec_parse_params(t, pos0, Seq::empty()) == spec_parse_params(t, self.position(), names_view(arguments@)),
            decreases rest(t, self.position()),
        {
            if self.peek().token == TokenType::RightParen {
                self.advance();
                return Ok(arguments);
            }
            if self.peek().token != TokenType::Identifier {
                return Err(ParseError::ExpectedIdentifier { line: self.peek().line });
            }
            let arg: String = self.peek().lexeme.clone();
            let ghost before = arguments@;
            arguments.push(arg);
            assert(names_view(arguments@) =~= names_view(before).push(t[self.position()].lexeme));
            self.advance();
            if self.peek().token != TokenType::RightParen {
                match self.expect_token(TokenType::Comma) {
                    Ok(()) => {},
                    Err(e) => return Err(e),
                }
            }
        }
    }

    /// A block: `{`, statements, `}`.
    fn parse_block(&mut self) -> (r: Result<Vec<Stmt>, ParseError>)
        requires
            old(self).wf(),
        ensures
            final(self).wf(),
            final(self).tokens_seq() == old(self).tokens_seq(),
            r is Ok ==> old(self).position() < final(self).position(),
            block_outcome(r, final(self).position(), spec_parse_block(old(self).tokens_seq(), old(self).position())),
        decreases rest(old(self).tokens_seq(), old(self).position()), 0nat,
    {
        let ghost t = self.tokens_seq();
        let ghost pos0 = self.position();
        let mut stmts: Vec<Stmt> = Vec::new();
        proof {
            lemma_view_list_empty(&stmts);
        }
        match self.expect_token(TokenType::LeftBrace) {
            Ok(()) => {},
            Err(e) => return Err(e),
        }
        loop
            invariant
                self.wf(),
                t == self.tokens_seq(),
                t == old(self).tokens_seq(),
                pos0 == old(self).position(),
                pos0 < self.position(),
                spec_parse_block(t, pos0) == spec_parse_block_items(t, self.position(), Stmt::view_list(&stmts)),
            decreases rest(t, self.position()),
        {
            if self.peek().token == TokenType::RightBrace {
                self.advance();
                return Ok(stmts);
            }
            let statement = match self.parse_stmt() {
                Ok(st) => st,
                Err(e) => return Err(e),
            };
            let ghost before = stmts;
            stmts.push(statement);
            proof {
                lemma_view_list_push(&before, &stmts, &statement);
            }
        }
    }

    /// The statements from the current position up to `Eof`.
    pub fn try_parse_prog(&mut self) -> (r: Result<Vec<Stmt>, ParseError>)
        requires
            old(self).wf(),
        ensures
            final(self).wf(),
            final(self).tokens_seq() == old(self).tokens_seq(),
            match spec_parse_program(old(self).tokens_seq(), old(self).position(), Seq::empty()) {
                Ok(ss) => r matches Ok(x) && Stmt::view_list(&x) == ss,
                Err(e) => r == Err::<Vec<Stmt>, ParseError>(e),
            },
    {
        let ghost t = self.tokens_seq();
        let ghost pos0 = self.position();
        let mut statements: Vec<Stmt> = Vec::new();
        proof {
            lemma_view_list_empty(&statements);
        }
        while self.peek().token != TokenType::Eof
            invariant
                self.wf(),
                t == self.tokens_seq(),
                t == old(self).tokens_seq(),
                pos0 == old(self).position(),
                pos0 <= self.position(),
                spec_parse_program(t, pos0, Seq::empty()) == spec_parse_program(t, self.position(), Stmt::view_list(&statements)),
            decreases rest(t, self.position()),
        {
            let statement = match self.parse_stmt() {
                Ok(st) => st,
                Err(e) => return Err(e),
            };
            let ghost before = statements;
            statements.push(statement);
            proof {
                lemma_view_list_push(&before, &statements, &statement);
            }
        }
        Ok(statements)
    }

    /// The statements from the current position up to `Eof`; the tokens must
    /// spell a program.
    pub fn parse_prog(&mut self) -> (stmts: Vec<Stmt>)
        requires
            old(self).wf(),
            spec_parse_program(old(self).tokens_seq(), old(self).position(), Seq::empty()) is Ok,
        ensures
            final(self).wf(),
            final(self).tokens_seq() == old(self).tokens_seq(),
            spec_parse_program(old(self).tokens_seq(), old(self).position(), Seq::empty()) == Ok::<Seq<StmtView>, ParseError>(Stmt::view_list(&stmts)),
    {
        match self.try_parse_prog() {
            Ok(stmts) => stmts,
            Err(_) => Vec::new(),
        }
    }

    /// An expression whose operators all bind tighter than `min_prec`; the
    /// tokens must spell one.
    pub fn parse_prec(&mut self, min_prec: Precedence) -> (e: Expr)
        requires
            old(self).wf(),
            spec_parse_prec(old(self).tokens_seq(), old(self).position(), min_prec) is Ok,
        ensures
            final(self).wf(),
            final(self).tokens_seq() == old(self).tokens_seq(),
            spec_parse_prec(old(self).tokens_seq(), old(self).position(), min_prec) == Ok::<(ExprView, int), ParseError>((e.view_expr(), final(self).position())),
    {
        match self.try_parse_prec(min_prec) {
            Ok(e) => e,
            Err(_) => Expr::Nil,
        }
    }
}

} // verus!
