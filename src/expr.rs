use vstd::prelude::*;

use crate::ast::{BinaryExpr, BlockExpr, ExprModel, Expression, Op};
use crate::error::{ParseError, Rule};
use crate::lower::{block_end_at, body_at, lemma_not_last, skip_body, symbol_at, syntax_error};
use crate::token::{Keyword, Lexeme, Symbol, Token, well_formed};

verus! {

/// The binary operator that a token stands for, if any.
pub open spec fn binary_op_of(tok: Token) -> Option<Op> {
    match tok {
        Token::Symbol(Symbol::Plus) => Some(Op::Add),
        Token::Symbol(Symbol::Minus) => Some(Op::Subtract),
        Token::Symbol(Symbol::Star) => Some(Op::Multiply),
        Token::Symbol(Symbol::Slash) => Some(Op::Divide),
        Token::Symbol(Symbol::Percent) => Some(Op::Mod),
        Token::Symbol(Symbol::Caret) => Some(Op::Power),
        Token::Symbol(Symbol::Shl) => Some(Op::ShiftLeft),
        Token::Symbol(Symbol::Shr) => Some(Op::ShiftRight),
        Token::Symbol(Symbol::Amp) => Some(Op::BitwiseAnd),
        Token::Symbol(Symbol::Pipe) => Some(Op::BitwiseOr),
        Token::Keyword(Keyword::Xor) => Some(Op::Xor),
        Token::Symbol(Symbol::Bang) => Some(Op::Not),
        Token::Symbol(Symbol::Lt) => Some(Op::LessThan),
        Token::Symbol(Symbol::Gt) => Some(Op::GreaterThan),
        Token::Symbol(Symbol::EqEq) => Some(Op::Equal),
        Token::Symbol(Symbol::Le) => Some(Op::LessThanOrEqual),
        Token::Symbol(Symbol::Ge) => Some(Op::GreaterThanOrEqual),
        Token::Symbol(Symbol::Ne) => Some(Op::NotEqual),
        _ => None,
    }
}

/// Binding strength of an operator, from 1 (loosest) to 10 (tightest).
pub open spec fn precedence(op: Op) -> nat {
    match op {
        Op::Xor => 1,
        Op::BitwiseOr => 2,
        Op::BitwiseAnd => 3,
        Op::Not => 4,
        Op::LessThan | Op::GreaterThan | Op::Equal | Op::LessThanOrEqual
        | Op::GreaterThanOrEqual | Op::NotEqual => 5,
        Op::ShiftLeft | Op::ShiftRight => 6,
        Op::Add | Op::Subtract => 7,
        Op::Mod => 8,
        Op::Multiply | Op::Divide => 9,
        Op::Power => 10,
    }
}

/// Only exponentiation groups to the right.
pub open spec fn right_associative(op: Op) -> bool {
    op == Op::Power
}

/// The least binding strength that the right operand of `op` may hold unparenthesised.
pub open spec fn right_min(op: Op) -> nat {
    if right_associative(op) {
        precedence(op)
    } else {
        precedence(op) + 1
    }
}

pub open spec fn op_at(t: Seq<Lexeme>, p: int) -> Option<Op> {
    if 0 <= p < t.len() {
        binary_op_of(t[p].token)
    } else {
        None
    }
}

/// A primary expression at `t[p]`: an integer or float literal, a parenthesised
/// expression, or a block.
pub open spec fn primary_at(t: Seq<Lexeme>, p: int) -> Result<(ExprModel, int), ParseError>
    decreases t.len() - p, 0int,
{
    if p < 0 || p >= t.len() {
        Err(syntax_error(t, t.len() - 1, Rule::PrimaryExpression))
    } else {
        match t[p].token {
            Token::Integer(v) => Ok((ExprModel::Integer(v as int), p + 1)),
            Token::Float(s) => Ok((ExprModel::Float(s@), p + 1)),
            Token::Symbol(Symbol::LParen) => match expr_at(t, p + 1, 0) {
                Ok((e, q)) => if symbol_at(t, q, Symbol::RParen) {
                    Ok((e, q + 1))
                } else {
                    Err(syntax_error(t, q, Rule::CloseParen))
                },
                Err(e) => Err(e),
            },
            Token::Symbol(Symbol::LBrace) => match block_end_at(t, p + 1, 1) {
                Ok(q) => Ok((ExprModel::Block(0), q)),
                Err(e) => Err(e),
            },
            _ => Err(syntax_error(t, p, Rule::PrimaryExpression)),
        }
    }
}

/// An expression at `t[p]` whose operators all bind at least as strongly as `min`.
pub open spec fn expr_at(t: Seq<Lexeme>, p: int, min: nat) -> Result<(ExprModel, int), ParseError>
    decreases t.len() - p, 1int,
{
    if p < 0 || p >= t.len() {
        Err(syntax_error(t, t.len() - 1, Rule::PrimaryExpression))
    } else {
        match primary_at(t, p) {
            Err(e) => Err(e),
            Ok((lhs, q)) => if q <= p || q > t.len() {
                Err(syntax_error(t, p, Rule::PrimaryExpression))
            } else {
                climb_at(t, lhs, q, min)
            },
        }
    }
}

/// Extends `lhs` with the operators at `t[p..]` that bind at least as strongly as
/// `min`: each takes as its right operand the longest expression of operators that
/// bind more strongly, or as strongly for a right-associative one.
pub open spec fn climb_at(t: Seq<Lexeme>, lhs: ExprModel, p: int, min: nat) -> Result<(ExprModel, int), ParseError>
    decreases t.len() - p, 2int,
{
    match op_at(t, p) {
        Some(op) => if precedence(op) < min {
            Ok((lhs, p))
        } else {
            match expr_at(t, p + 1, right_min(op)) {
                Err(e) => Err(e),
                Ok((rhs, q)) => if q <= p || q > t.len() {
                    Err(syntax_error(t, p, Rule::PrimaryExpression))
                } else {
                    climb_at(t, ExprModel::Binary(Box::new(lhs), op, Box::new(rhs)), q, min)
                },
            }
        },
        None => Ok((lhs, p)),
    }
}

/// A whole token sequence read as one expression.
pub open spec fn expression_of(t: Seq<Lexeme>) -> Result<ExprModel, ParseError> {
    match expr_at(t, 0, 0) {
        Ok((e, q)) => if 0 <= q < t.len() && t[q].token is Eoi {
            Ok(e)
        } else {
            Err(syntax_error(t, q, Rule::EOI))
        },
        Err(e) => Err(e),
    }
}

/// The operator table: binding strength and whether the operator groups to the right.
pub fn binding_power(op: Op) -> (r: (u8, bool))
    ensures
        r.0 as nat == precedence(op),
        r.1 == right_associative(op),
{
    match op {
        Op::Xor => (1, false),
        Op::BitwiseOr => (2, false),
        Op::BitwiseAnd => (3, false),
        Op::Not => (4, false),
        Op::LessThan | Op::GreaterThan | Op::Equal | Op::LessThanOrEqual
        | Op::GreaterThanOrEqual | Op::NotEqual => (5, false),
        Op::ShiftLeft | Op::ShiftRight => (6, false),
        Op::Add | Op::Subtract => (7, false),
        Op::Mod => (8, false),
        Op::Multiply | Op::Divide => (9, false),
        Op::Power => (10, true),
    }
}

fn operator_at(t: &Vec<Lexeme>, p: usize) -> (r: Option<Op>)
    requires
        p < t@.len(),
    ensures
        r == op_at(t@, p as int),
{
    match &t[p].token {
        Token::Symbol(Symbol::Plus) => Some(Op::Add),
        Token::Symbol(Symbol::Minus) => Some(Op::Subtract),
        Token::Symbol(Symbol::Star) => Some(Op::Multiply),
        Token::Symbol(Symbol::Slash) => Some(Op::Divide),
        Token::Symbol(Symbol::Percent) => Some(Op::Mod),
        Token::Symbol(Symbol::Caret) => Some(Op::Power),
        Token::Symbol(Symbol::Shl) => Some(Op::ShiftLeft),
        Token::Symbol(Symbol::Shr) => Some(Op::ShiftRight),
        Token::Symbol(Symbol::Amp) => Some(Op::BitwiseAnd),
        Token::Symbol(Symbol::Pipe) => Some(Op::BitwiseOr),
        Token::Keyword(Keyword::Xor) => Some(Op::Xor),
        Token::Symbol(Symbol::Bang) => Some(Op::Not),
        Token::Symbol(Symbol::Lt) => Some(Op::LessThan),
        Token::Symbol(Symbol::Gt) => Some(Op::GreaterThan),
        Token::Symbol(Symbol::EqEq) => Some(Op::Equal),
        Token::Symbol(Symbol::Le) => Some(Op::LessThanOrEqual),
        Token::Symbol(Symbol::Ge) => Some(Op::GreaterThanOrEqual),
        Token::Symbol(Symbol::Ne) => Some(Op::NotEqual),
        _ => None,
    }
}

pub fn parse_primary(t: &Vec<Lexeme>, p: usize) -> (r: Result<(Expression, usize), ParseError>)
    requires
        well_formed(t@),
        p < t@.len(),
    ensures
        match r {
            Ok((e, q)) => primary_at(t@, p as int) == Ok::<_, ParseError>((e@, q as int)) && p < q < t@.len(),
            Err(e) => primary_at(t@, p as int) == Err::<(ExprModel, int), _>(e),
        },
    decreases t@.len() - p, 0int,
{
    let n = t.len();
    match &t[p].token {
        Token::Integer(v) => {
            proof {
                lemma_not_last(t@, p as int);
            }
            Ok((Expression::Integer(*v), p + 1))
        },
        Token::Float(s) => {
            proof {
                lemma_not_last(t@, p as int);
            }
            Ok((Expression::Float(s.clone()), p + 1))
        },
        Token::Symbol(Symbol::LParen) => {
            proof {
                lemma_not_last(t@, p as int);
            }
            match parse_expr(t, p + 1, 0) {
                Ok((e, q)) => {
                    if matches!(t[q].token, Token::Symbol(Symbol::RParen)) {
                        proof {
                            lemma_not_last(t@, q as int);
                        }
                        Ok((e, q + 1))
                    } else {
                        Err(ParseError::Syntax { position: t[q].position, expected: Rule::CloseParen })
                    }
                },
                Err(e) => Err(e),
            }
        },
        Token::Symbol(Symbol::LBrace) => {
            assert(body_at(t@, p as int) == block_end_at(t@, p + 1, 1));
            match skip_body(t, p) {
                Ok(q) => Ok((Expression::Block(BlockExpr { commands: Vec::new() }), q)),
                Err(e) => Err(e),
            }
        },
        _ => Err(ParseError::Syntax { position: t[p].position, expected: Rule::PrimaryExpression }),
    }
}

/// Precedence climbing: the expression at `t[p]` whose operators bind at least as
/// strongly as `min`, with the position after it.
pub fn parse_expr(t: &Vec<Lexeme>, p: usize, min: u8) -> (r: Result<(Expression, usize), ParseError>)
    requires
        well_formed(t@),
        p < t@.len(),
    ensures
        match r {
            Ok((e, q)) => expr_at(t@, p as int, min as nat) == Ok::<_, ParseError>((e@, q as int)) && p < q < t@.len(),
            Err(e) => expr_at(t@, p as int, min as nat) == Err::<(ExprModel, int), _>(e),
        },
    decreases t@.len() - p, 1int,
{
    match parse_primary(t, p) {
        Err(e) => Err(e),
        Ok((lhs, q)) => climb(t, lhs, q, min),
    }
}

fn climb(t: &Vec<Lexeme>, lhs: Expression, p: usize, min: u8) -> (r: Result<(Expression, usize), ParseError>)
    requires
        well_formed(t@),
        p < t@.len(),
    ensures
        match r {
            Ok((e, q)) => climb_at(t@, lhs@, p as int, min as nat) == Ok::<_, ParseError>((e@, q as int)) && p <= q < t@.len(),
            Err(e) => climb_at(t@, lhs@, p as int, min as nat) == Err::<(ExprModel, int), _>(e),
        },
    decreases t@.len() - p, 2int,
{
    let n = t.len();
    match operator_at(t, p) {
        None => Ok((lhs, p)),
        Some(op) => {
            let (prec, right) = binding_power(op);
            if prec < min {
                return Ok((lhs, p));
            }
            let next: u8 = if right { prec } else { prec + 1 };
            proof {
                lemma_not_last(t@, p as int);
            }
            match parse_expr(t, p + 1, next) {
                Err(e) => Err(e),
                Ok((rhs, q)) => {
                    let e = Expression::Binary(BinaryExpr { lhs: Box::new(lhs), op, rhs: Box::new(rhs) });
                    climb(t, e, q, min)
                },
            }
        },
    }
}

/// Reads a whole token sequence as one expression.
pub fn parse_expression_tokens(t: &Vec<Lexeme>) -> (r: Result<Expression, ParseError>)
    requires
        well_formed(t@),
    ensures
        match r {
            Ok(e) => expression_of(t@) == Ok::<_, ParseError>(e@),
            Err(e) => expression_of(t@) == Err::<ExprModel, _>(e),
        },
{
    match parse_expr(t, 0, 0) {
        Ok((e, q)) => {
            if matches!(t[q].token, Token::Eoi) {
                Ok(e)
            } else {
                Err(ParseError::Syntax { position: t[q].position, expected: Rule::EOI })
            }
        },
        Err(e) => Err(e),
    }
}

/// The token that spells an operator.
pub open spec fn op_token(op: Op) -> Token {
    match op {
        Op::Add => Token::Symbol(Symbol::Plus),
        Op::Subtract => Token::Symbol(Symbol::Minus),
        Op::Multiply => Token::Symbol(Symbol::Star),
        Op::Divide => Token::Symbol(Symbol::Slash),
        Op::Mod => Token::Symbol(Symbol::Percent),
        Op::Power => Token::Symbol(Symbol::Caret),
        Op::ShiftLeft => Token::Symbol(Symbol::Shl),
        Op::ShiftRight => Token::Symbol(Symbol::Shr),
        Op::BitwiseAnd => Token::Symbol(Symbol::Amp),
        Op::BitwiseOr => Token::Symbol(Symbol::Pipe),
        Op::Xor => Token::Keyword(Keyword::Xor),
        Op::Not => Token::Symbol(Symbol::Bang),
        Op::LessThan => Token::Symbol(Symbol::Lt),
        Op::GreaterThan => Token::Symbol(Symbol::Gt),
        Op::Equal => Token::Symbol(Symbol::EqEq),
        Op::LessThanOrEqual => Token::Symbol(Symbol::Le),
        Op::GreaterThanOrEqual => Token::Symbol(Symbol::Ge),
        Op::NotEqual => Token::Symbol(Symbol::Ne),
    }
}

pub open spec fn lexeme(tok: Token) -> Lexeme {
    Lexeme { token: tok, position: 0, end: 0 }
}

/// An expression written out as lexemes, each binary node in parentheses.
pub open spec fn render(e: Expression) -> Seq<Lexeme>
    decreases e,
{
    match e {
        Expression::Integer(v) => seq![lexeme(Token::Integer(v))],
        Expression::Float(s) => seq![lexeme(Token::Float(s))],
        Expression::Binary(b) => seq![lexeme(Token::Symbol(Symbol::LParen))] + render(*b.lhs) + seq![
            lexeme(op_token(b.op)),
        ] + render(*b.rhs) + seq![lexeme(Token::Symbol(Symbol::RParen))],
        Expression::Block(_) => seq![
            lexeme(Token::Symbol(Symbol::LBrace)),
            lexeme(Token::Symbol(Symbol::RBrace)),
        ],
    }
}

/// Every block in the tree is empty, as in every tree that the parser builds.
pub open spec fn blocks_empty(e: Expression) -> bool
    decreases e,
{
    match e {
        Expression::Binary(b) => blocks_empty(*b.lhs) && blocks_empty(*b.rhs),
        Expression::Block(b) => b.commands@.len() == 0,
        _ => true,
    }
}

proof fn lemma_op_token(op: Op)
    ensures
        binary_op_of(op_token(op)) == Some(op),
{
}

proof fn lemma_render_nonempty(e: Expression)
    ensures
        render(e).len() >= 1,
    decreases e,
{
    if let Expression::Binary(b) = e {
        lemma_render_nonempty(*b.lhs);
        lemma_render_nonempty(*b.rhs);
    }
}

/// A rendered expression that stands at `t[p]`, with a lexeme after it, is read
/// back as a primary expression that ends where the rendering ends.
proof fn lemma_primary_render(t: Seq<Lexeme>, p: int, e: Expression)
    requires
        blocks_empty(e),
        0 <= p,
        p + render(e).len() < t.len(),
        t.subrange(p, p + render(e).len()) == render(e),
    ensures
        primary_at(t, p) == Ok::<_, ParseError>((e@, p + render(e).len())),
    decreases e,
{
    let r = render(e);
    assert(t[p] == r[0]);
    match e {
        Expression::Integer(v) => {},
        Expression::Float(s) => {},
        Expression::Block(b) => {
            assert(t[p + 1] == r[1]);
            assert(e@ == ExprModel::Block(0));
        },
        Expression::Binary(b) => {
            let lhs = *b.lhs;
            let rhs = *b.rhs;
            let l1 = render(lhs).len() as int;
            let l2 = render(rhs).len() as int;
            lemma_render_nonempty(lhs);
            lemma_render_nonempty(rhs);
            assert(r.len() == l1 + l2 + 3);
            let q1 = p + 1 + l1;
            let q2 = q1 + 1 + l2;
            assert(t.subrange(p + 1, q1) =~= render(lhs)) by {
                assert forall|k: int| 0 <= k < l1 implies t.subrange(p + 1, q1)[k] == render(lhs)[k] by {
                    assert(t[p + 1 + k] == r[1 + k]);
                }
            }
            assert(t.subrange(q1 + 1, q2) =~= render(rhs)) by {
                assert forall|k: int| 0 <= k < l2 implies t.subrange(q1 + 1, q2)[k] == render(rhs)[k] by {
                    assert(t[q1 + 1 + k] == r[l1 + 2 + k]);
                }
            }
            assert(t[q1] == r[l1 + 1]);
            assert(t[q2] == r[l1 + l2 + 2]);
            lemma_primary_render(t, p + 1, lhs);
            lemma_primary_render(t, q1 + 1, rhs);
            lemma_op_token(b.op);
            assert(op_at(t, q2) is None);
            assert(climb_at(t, rhs@, q2, right_min(b.op)) == Ok::<_, ParseError>((rhs@, q2)));
            assert(expr_at(t, q1 + 1, right_min(b.op)) == Ok::<_, ParseError>((rhs@, q2)));
            let whole = ExprModel::Binary(Box::new(lhs@), b.op, Box::new(rhs@));
            assert(climb_at(t, whole, q2, 0) == Ok::<_, ParseError>((whole, q2)));
            assert(climb_at(t, lhs@, q1, 0) == Ok::<_, ParseError>((whole, q2)));
            assert(expr_at(t, p + 1, 0) == Ok::<_, ParseError>((whole, q2)));
            assert(e@ == whole);
        },
    }
}

/// Reading back an expression written out as lexemes gives the same tree.
pub proof fn lemma_render_reparses(e: Expression)
    requires
        blocks_empty(e),
    ensures
        expression_of(render(e).push(lexeme(Token::Eoi))) == Ok::<_, ParseError>(e@),
{
    let t = render(e).push(lexeme(Token::Eoi));
    let n = render(e).len() as int;
    lemma_render_nonempty(e);
    assert(t.subrange(0, n) =~= render(e));
    lemma_primary_render(t, 0, e);
    assert(op_at(t, n) is None);
    assert(expr_at(t, 0, 0) == Ok::<_, ParseError>((e@, n)));
}

/// Where an operand is due and the input has ended, the error names a primary
/// expression as expected, at the end of the input.
pub proof fn lemma_missing_operand(t: Seq<Lexeme>, p: int, min: nat)
    requires
        0 <= p < t.len(),
        t[p].token is Eoi,
    ensures
        expr_at(t, p, min) == Err::<(ExprModel, int), _>(syntax_error(t, p, Rule::PrimaryExpression)),
{
}

} // verus!
