//! The grammar, as functions from tokens to syntax trees.
//!
//! Each rule is a function of the tokens and the place where the rule
//! begins; it gives the tree, or the error, and how many tokens the rule
//! has taken. In order of precedence, lowest first:
//!
//! ```text
//! program      -> declaration* EOF
//! declaration  -> "let" varDecl | "func" function | statement
//! varDecl      -> ( IDENT ( "=" ternary )? ","? )* ";"
//! function     -> IDENT? "(" params ")" block
//! statement    -> for | if | print | return | while | break | continue
//!               | block | exprStmt
//! assignment   -> or ( ( "=" | "+=" | "-=" | "*=" | "/=" | "%=" ) assignment )?
//! or           -> and ( "or" and )*
//! and          -> ternary ( "and" ternary )*
//! ternary      -> equality ( "?" ternary ":" ternary )?
//! equality     -> comparison ( ( "!=" | "==" ) comparison )*
//! comparison   -> term ( ( "<" | "<=" | ">" | ">=" ) term )*
//! term         -> factor ( ( "+" | "-" ) factor )*
//! factor       -> unary ( ( "*" | "/" | "%" ) unary )*
//! unary        -> ( "!" | "-" | "+" ) unary | call
//! call         -> primary ( "(" arguments ")" )?
//! primary      -> NUMBER | STRING | "true" | "false" | "nil" | IDENT
//!               | "(" expression ")" | "func" "(" params ")" block
//! ```

use vstd::prelude::*;
use crate::error::ErrorView;
use crate::expr::ExprView;
use crate::stmt::StmtView;
use crate::token::TokenView;
use crate::types::{FuncType, LiteralView, TokenType};

verus! {

/// What a rule made of the tokens: a tree or an error, and how many tokens
/// it has taken.
pub struct Parsed<T> {
    pub value: Result<T, ErrorView>,
    pub used: nat,
}

pub open spec fn done<T>(value: T, used: nat) -> Parsed<T> {
    Parsed { value: Ok(value), used }
}

pub open spec fn failed<T>(error: ErrorView, used: nat) -> Parsed<T> {
    Parsed { value: Err(error), used }
}

/// The same result, `by` tokens further on.
pub open spec fn shift<T>(parsed: Parsed<T>, by: nat) -> Parsed<T> {
    Parsed { value: parsed.value, used: parsed.used + by }
}

/// The tokens as the parser reads them: tokens that do not end with the
/// end-of-input token are given one.
pub open spec fn normalized(tokens: Seq<TokenView>) -> Seq<TokenView> {
    if tokens.len() > 0 && tokens.last().token_type == TokenType::Eof {
        tokens
    } else {
        tokens.push(
            TokenView {
                token_type: TokenType::Eof,
                lexeme: Seq::empty(),
                literal: None,
                position: if tokens.len() > 0 {
                    tokens.last().position
                } else {
                    (0, 0)
                },
            },
        )
    }
}

/// How many tokens stand at and behind `pos`.
pub open spec fn remaining(toks: Seq<TokenView>, pos: int) -> nat {
    if pos < toks.len() {
        (toks.len() - pos) as nat
    } else {
        0
    }
}

/// Whether the input is at its end at `pos`.
pub open spec fn at_end(toks: Seq<TokenView>, pos: int) -> bool {
    !(0 <= pos < toks.len()) || toks[pos].token_type == TokenType::Eof
}

/// Whether a token of kind `token_type` stands at `pos`.
pub open spec fn check(toks: Seq<TokenView>, pos: int, token_type: TokenType) -> bool {
    !at_end(toks, pos) && toks[pos].token_type == token_type
}

/// The token in front of `pos`.
pub open spec fn previous(toks: Seq<TokenView>, pos: int) -> TokenView {
    if pos > 0 {
        toks[pos - 1]
    } else {
        toks[0]
    }
}

/// The error that `token` stands where something else was expected.
pub open spec fn error_at(token: TokenView, msg: Seq<char>) -> ErrorView {
    ErrorView::Parse {
        position: token.position,
        lexeme: token.lexeme,
        token_type: token.token_type,
        msg,
    }
}

/// Takes a token of kind `token_type`, or fails with `msg`.
pub open spec fn consume(
    toks: Seq<TokenView>,
    pos: int,
    token_type: TokenType,
    msg: Seq<char>,
) -> Parsed<TokenView> {
    if check(toks, pos, token_type) {
        done(toks[pos], 1)
    } else {
        failed(error_at(toks[pos], msg), 0)
    }
}

/// At least one.
pub open spec fn at_least_one(n: nat) -> nat {
    if n == 0 {
        1
    } else {
        n
    }
}

/// Whether a statement may begin with a token of this kind.
pub open spec fn begins_statement(token_type: TokenType) -> bool {
    token_type == TokenType::Class || token_type == TokenType::Func || token_type
        == TokenType::Let || token_type == TokenType::For || token_type == TokenType::If
        || token_type == TokenType::While || token_type == TokenType::Print || token_type
        == TokenType::Return
}

/// How many tokens are skipped after an error that was found at `pos`: up
/// to and with the next semicolon, or up to the next token that begins a
/// statement; the token at `pos` is skipped in any case.
pub open spec fn sync(toks: Seq<TokenView>, pos: int) -> nat {
    if at_end(toks, pos) {
        0
    } else if toks[pos].token_type == TokenType::Semicolon {
        1
    } else {
        1 + sync_rest(toks, pos + 1)
    }
}

#[verifier::opaque]
pub open spec fn sync_rest(toks: Seq<TokenView>, pos: int) -> nat
    decreases remaining(toks, pos),
{
    if at_end(toks, pos) || begins_statement(toks[pos].token_type) {
        0
    } else if toks[pos].token_type == TokenType::Semicolon {
        1
    } else {
        1 + sync_rest(toks, pos + 1)
    }
}

/// The most parameters a function may have, and the most arguments a call.
pub open spec fn max_arity() -> nat {
    256
}

pub open spec fn is_unary_operator(token_type: TokenType) -> bool {
    token_type == TokenType::Bang || token_type == TokenType::Minus || token_type
        == TokenType::Plus
}

pub open spec fn is_factor_operator(token_type: TokenType) -> bool {
    token_type == TokenType::Star || token_type == TokenType::Slash || token_type
        == TokenType::Mod
}

pub open spec fn is_term_operator(token_type: TokenType) -> bool {
    token_type == TokenType::Plus || token_type == TokenType::Minus
}

pub open spec fn is_comparison_operator(token_type: TokenType) -> bool {
    token_type == TokenType::Greater || token_type == TokenType::GreaterEqual || token_type
        == TokenType::Less || token_type == TokenType::LessEqual
}

pub open spec fn is_equality_operator(token_type: TokenType) -> bool {
    token_type == TokenType::BangEqual || token_type == TokenType::EqualEqual
}

pub open spec fn is_compound_assignment(token_type: TokenType) -> bool {
    token_type == TokenType::PlusEqual || token_type == TokenType::MinusEqual || token_type
        == TokenType::StarEqual || token_type == TokenType::SlashEqual || token_type
        == TokenType::ModEqual
}

/// The message for a token with which no expression can begin.
pub open spec fn no_expression(token: TokenView) -> Seq<char> {
    if token.token_type == TokenType::Star || token.token_type == TokenType::Slash
        || token.token_type == TokenType::Comma || is_comparison_operator(token.token_type)
        || is_equality_operator(token.token_type) {
        "Expect a expression before '"@ + token.lexeme + "'"@
    } else {
        "Expect expression."@
    }
}

#[verifier::opaque]
pub open spec fn g_primary(toks: Seq<TokenView>, pos: int) -> Parsed<ExprView>
    decreases remaining(toks, pos), 6nat,
{
    let token = toks[pos];
    if check(toks, pos, TokenType::False) {
        done(ExprView::Literal { value: LiteralView::Bool(false), token }, 1)
    } else if check(toks, pos, TokenType::True) {
        done(ExprView::Literal { value: LiteralView::Bool(true), token }, 1)
    } else if check(toks, pos, TokenType::Nil) {
        done(ExprView::Literal { value: LiteralView::Nil, token }, 1)
    } else if check(toks, pos, TokenType::Number) || check(toks, pos, TokenType::String) {
        match token.literal {
            Some(value) => done(ExprView::Literal { value, token }, 1),
            None => failed(error_at(token, "Expect a value for the literal."@), 1),
        }
    } else if check(toks, pos, TokenType::Identifier) {
        done(ExprView::Variable { name: token }, 1)
    } else if check(toks, pos, TokenType::LeftParen) {
        let inner = g_expression(toks, pos + 1);
        match inner.value {
            Err(error) => failed(error, 1 + inner.used),
            Ok(expression) => {
                let close = consume(
                    toks,
                    pos + 1 + inner.used,
                    TokenType::RightParen,
                    "Expect ')' after expression."@,
                );
                match close.value {
                    Err(error) => failed(error, 1 + inner.used),
                    Ok(_) => done(
                        ExprView::Grouping { expression: Box::new(expression) },
                        2 + inner.used,
                    ),
                }
            },
        }
    } else if check(toks, pos, TokenType::Func) {
        shift(g_lambda(toks, pos + 1), 1)
    } else {
        failed(error_at(token, no_expression(token)), 0)
    }
}

/// A function without a name, from behind `func` on.
#[verifier::opaque]
pub open spec fn g_lambda(toks: Seq<TokenView>, pos: int) -> Parsed<ExprView>
    decreases remaining(toks, pos), 23nat,
{
    let keyword = previous(toks, pos);
    let open = consume(toks, pos, TokenType::LeftParen, "Expect '(' after func."@);
    match open.value {
        Err(error) => failed(error, 0),
        Ok(_) => {
            let rest = g_params_and_body(toks, pos + 1);
            match rest.value {
                Err(error) => failed(error, 1 + rest.used),
                Ok(parts) => done(
                    ExprView::Lambda { keyword, params: parts.0, body: parts.1 },
                    1 + rest.used,
                ),
            }
        },
    }
}

/// The arguments of a call, from `pos` up to the closing parenthesis, added
/// to those already read.
#[verifier::opaque]
pub open spec fn g_arguments(toks: Seq<TokenView>, pos: int, read: Seq<ExprView>) -> Parsed<
    Seq<ExprView>,
>
    decreases remaining(toks, pos), 22nat,
{
    if check(toks, pos, TokenType::RightParen) {
        done(read, 0)
    } else if read.len() >= max_arity() {
        failed(error_at(toks[pos], "The maximum number of arguments is 256."@), 0)
    } else if at_end(toks, pos) {
        failed(error_at(toks[pos], no_expression(toks[pos])), 0)
    } else {
        let argument = g_expression(toks, pos);
        match argument.value {
            Err(error) => failed(error, argument.used),
            Ok(expression) => {
                let comma: nat = if check(toks, pos + argument.used, TokenType::Comma) {
                    1
                } else {
                    0
                };
                let step = at_least_one(argument.used + comma);
                shift(g_arguments(toks, pos + step, read.push(expression)), step)
            },
        }
    }
}

#[verifier::opaque]
pub open spec fn g_call(toks: Seq<TokenView>, pos: int) -> Parsed<ExprView>
    decreases remaining(toks, pos), 7nat,
{
    let callee = g_primary(toks, pos);
    match callee.value {
        Err(error) => callee,
        Ok(function) => {
            if check(toks, pos + callee.used, TokenType::LeftParen) {
                let arguments = g_arguments(toks, pos + callee.used + 1, Seq::empty());
                match arguments.value {
                    Err(error) => failed(error, callee.used + 1 + arguments.used),
                    Ok(list) => {
                        let close = consume(
                            toks,
                            pos + callee.used + 1 + arguments.used,
                            TokenType::RightParen,
                            "Expect ')' after arguments"@,
                        );
                        match close.value {
                            Err(error) => failed(error, callee.used + 1 + arguments.used),
                            Ok(paren) => done(
                                ExprView::Call {
                                    callee: Box::new(function),
                                    paren,
                                    arguments: list,
                                },
                                callee.used + 2 + arguments.used,
                            ),
                        }
                    },
                }
            } else {
                callee
            }
        },
    }
}

#[verifier::opaque]
pub open spec fn g_unary(toks: Seq<TokenView>, pos: int) -> Parsed<ExprView>
    decreases remaining(toks, pos), 8nat,
{
    if !at_end(toks, pos) && is_unary_operator(toks[pos].token_type) {
        let operand = g_unary(toks, pos + 1);
        match operand.value {
            Err(error) => failed(error, 1 + operand.used),
            Ok(right) => done(
                ExprView::Unary { op: toks[pos], right: Box::new(right) },
                1 + operand.used,
            ),
        }
    } else {
        g_call(toks, pos)
    }
}

#[verifier::opaque]
pub open spec fn g_factor(toks: Seq<TokenView>, pos: int) -> Parsed<ExprView>
    decreases remaining(toks, pos), 9nat,
{
    let first = g_unary(toks, pos);
    match first.value {
        Err(error) => first,
        Ok(left) => shift(g_factor_rest(toks, pos + first.used, left), first.used),
    }
}

#[verifier::opaque]
pub open spec fn g_factor_rest(toks: Seq<TokenView>, pos: int, left: ExprView) -> Parsed<ExprView>
    decreases remaining(toks, pos), 0nat,
{
    if !at_end(toks, pos) && is_factor_operator(toks[pos].token_type) {
        let operand = g_unary(toks, pos + 1);
        match operand.value {
            Err(error) => failed(error, 1 + operand.used),
            Ok(right) => shift(
                g_factor_rest(
                    toks,
                    pos + 1 + operand.used,
                    ExprView::Binary { left: Box::new(left), op: toks[pos], right: Box::new(right) },
                ),
                1 + operand.used,
            ),
        }
    } else {
        done(left, 0)
    }
}

#[verifier::opaque]
pub open spec fn g_term(toks: Seq<TokenView>, pos: int) -> Parsed<ExprView>
    decreases remaining(toks, pos), 10nat,
{
    let first = g_factor(toks, pos);
    match first.value {
        Err(error) => first,
        Ok(left) => shift(g_term_rest(toks, pos + first.used, left), first.used),
    }
}

#[verifier::opaque]
pub open spec fn g_term_rest(toks: Seq<TokenView>, pos: int, left: ExprView) -> Parsed<ExprView>
    decreases remaining(toks, pos), 0nat,
{
    if !at_end(toks, pos) && is_term_operator(toks[pos].token_type) {
        let operand = g_factor(toks, pos + 1);
        match operand.value {
            Err(error) => failed(error, 1 + operand.used),
            Ok(right) => shift(
                g_term_rest(
                    toks,
                    pos + 1 + operand.used,
                    ExprView::Binary { left: Box::new(left), op: toks[pos], right: Box::new(right) },
                ),
                1 + operand.used,
            ),
        }
    } else {
        done(left, 0)
    }
}

#[verifier::opaque]
pub open spec fn g_comparison(toks: Seq<TokenView>, pos: int) -> Parsed<ExprView>
    decreases remaining(toks, pos), 11nat,
{
    let first = g_term(toks, pos);
    match first.value {
        Err(error) => first,
        Ok(left) => shift(g_comparison_rest(toks, pos + first.used, left), first.used),
    }
}

#[verifier::opaque]
pub open spec fn g_comparison_rest(toks: Seq<TokenView>, pos: int, left: ExprView) -> Parsed<
    ExprView,
>
    decreases remaining(toks, pos), 0nat,
{
    if !at_end(toks, pos) && is_comparison_operator(toks[pos].token_type) {
        let operand = g_term(toks, pos + 1);
        match operand.value {
            Err(error) => failed(error, 1 + operand.used),
            Ok(right) => shift(
                g_comparison_rest(
                    toks,
                    pos + 1 + operand.used,
                    ExprView::Binary { left: Box::new(left), op: toks[pos], right: Box::new(right) },
                ),
                1 + operand.used,
            ),
        }
    } else {
        done(left, 0)
    }
}

#[verifier::opaque]
pub open spec fn g_equality(toks: Seq<TokenView>, pos: int) -> Parsed<ExprView>
    decreases remaining(toks, pos), 12nat,
{
    let first = g_comparison(toks, pos);
    match first.value {
        Err(error) => first,
        Ok(left) => shift(g_equality_rest(toks, pos + first.used, left), first.used),
    }
}

#[verifier::opaque]
pub open spec fn g_equality_rest(toks: Seq<TokenView>, pos: int, left: ExprView) -> Parsed<
    ExprView,
>
    decreases remaining(toks, pos), 0nat,
{
    if !at_end(toks, pos) && is_equality_operator(toks[pos].token_type) {
        let operand = g_comparison(toks, pos + 1);
        match operand.value {
            Err(error) => failed(error, 1 + operand.used),
            Ok(right) => shift(
                g_equality_rest(
                    toks,
                    pos + 1 + operand.used,
                    ExprView::Binary { left: Box::new(left), op: toks[pos], right: Box::new(right) },
                ),
                1 + operand.used,
            ),
        }
    } else {
        done(left, 0)
    }
}

/// `condition ? a : b`, where `a` and `b` may be such expressions
/// themselves: the operator groups to the right.
#[verifier::opaque]
pub open spec fn g_ternary(toks: Seq<TokenView>, pos: int) -> Parsed<ExprView>
    decreases remaining(toks, pos), 13nat,
{
    let first = g_equality(toks, pos);
    match first.value {
        Err(error) => first,
        Ok(condition) => {
            if check(toks, pos + first.used, TokenType::QuestionMark) {
                let second = g_ternary(toks, pos + first.used + 1);
                match second.value {
                    Err(error) => failed(error, first.used + 1 + second.used),
                    Ok(true_value) => {
                        let colon = pos + first.used + 1 + second.used;
                        if check(toks, colon, TokenType::Colon) {
                            let third = g_ternary(toks, colon + 1);
                            match third.value {
                                Err(error) => failed(
                                    error,
                                    first.used + 2 + second.used + third.used,
                                ),
                                Ok(false_value) => done(
                                    ExprView::Ternary {
                                        condition: Box::new(condition),
                                        true_value: Box::new(true_value),
                                        false_value: Box::new(false_value),
                                    },
                                    first.used + 2 + second.used + third.used,
                                ),
                            }
                        } else {
                            failed(
                                error_at(toks[colon], "Expected ':' after expression"@),
                                first.used + 1 + second.used,
                            )
                        }
                    },
                }
            } else {
                first
            }
        },
    }
}

#[verifier::opaque]
pub open spec fn g_and(toks: Seq<TokenView>, pos: int) -> Parsed<ExprView>
    decreases remaining(toks, pos), 14nat,
{
    let first = g_ternary(toks, pos);
    match first.value {
        Err(error) => first,
        Ok(left) => shift(g_and_rest(toks, pos + first.used, left), first.used),
    }
}

#[verifier::opaque]
pub open spec fn g_and_rest(toks: Seq<TokenView>, pos: int, left: ExprView) -> Parsed<ExprView>
    decreases remaining(toks, pos), 0nat,
{
    if check(toks, pos, TokenType::And) {
        let operand = g_ternary(toks, pos + 1);
        match operand.value {
            Err(error) => failed(error, 1 + operand.used),
            Ok(right) => shift(
                g_and_rest(
                    toks,
                    pos + 1 + operand.used,
                    ExprView::Logical { left: Box::new(left), op: toks[pos], right: Box::new(right) },
                ),
                1 + operand.used,
            ),
        }
    } else {
        done(left, 0)
    }
}

#[verifier::opaque]
pub open spec fn g_or(toks: Seq<TokenView>, pos: int) -> Parsed<ExprView>
    decreases remaining(toks, pos), 15nat,
{
    let first = g_and(toks, pos);
    match first.value {
        Err(error) => first,
        Ok(left) => shift(g_or_rest(toks, pos + first.used, left), first.used),
    }
}

#[verifier::opaque]
pub open spec fn g_or_rest(toks: Seq<TokenView>, pos: int, left: ExprView) -> Parsed<ExprView>
    decreases remaining(toks, pos), 0nat,
{
    if check(toks, pos, TokenType::Or) {
        let operand = g_and(toks, pos + 1);
        match operand.value {
            Err(error) => failed(error, 1 + operand.used),
            Ok(right) => shift(
                g_or_rest(
                    toks,
                    pos + 1 + operand.used,
                    ExprView::Logical { left: Box::new(left), op: toks[pos], right: Box::new(right) },
                ),
                1 + operand.used,
            ),
        }
    } else {
        done(left, 0)
    }
}

/// An assignment groups to the right, and only a variable can stand on its
/// left.
#[verifier::opaque]
pub open spec fn g_assignment(toks: Seq<TokenView>, pos: int) -> Parsed<ExprView>
    decreases remaining(toks, pos), 16nat,
{
    let first = g_or(toks, pos);
    match first.value {
        Err(error) => first,
        Ok(target) => {
            let at = pos + first.used;
            if !at_end(toks, at) && (is_compound_assignment(toks[at].token_type)
                || toks[at].token_type == TokenType::Equal) {
                let op = toks[at];
                let second = g_assignment(toks, at + 1);
                match second.value {
                    Err(error) => failed(error, first.used + 1 + second.used),
                    Ok(value) => match target {
                        ExprView::Variable { name } => done(
                            if op.token_type == TokenType::Equal {
                                ExprView::Assign { name, value: Box::new(value) }
                            } else {
                                ExprView::OperateAndAssign { name, op, value: Box::new(value) }
                            },
                            first.used + 1 + second.used,
                        ),
                        _ => failed(
                            error_at(op, "Invalid assignment target"@),
                            first.used + 1 + second.used,
                        ),
                    },
                }
            } else {
                first
            }
        },
    }
}

#[verifier::opaque]
pub open spec fn g_expression(toks: Seq<TokenView>, pos: int) -> Parsed<ExprView>
    decreases remaining(toks, pos), 17nat,
{
    g_assignment(toks, pos)
}

#[verifier::opaque]
pub open spec fn g_expression_statement(toks: Seq<TokenView>, pos: int) -> Parsed<StmtView>
    decreases remaining(toks, pos), 18nat,
{
    let first = g_expression(toks, pos);
    match first.value {
        Err(error) => failed(error, first.used),
        Ok(expression) => {
            let end = consume(
                toks,
                pos + first.used,
                TokenType::Semicolon,
                "Expect ';' after value"@,
            );
            match end.value {
                Err(error) => failed(error, first.used),
                Ok(end) => done(StmtView::Expression { expression, end }, first.used + 1),
            }
        },
    }
}

/// `print expression;`, from behind `print` on.
#[verifier::opaque]
pub open spec fn g_print(toks: Seq<TokenView>, pos: int) -> Parsed<StmtView>
    decreases remaining(toks, pos), 22nat,
{
    let first = g_expression(toks, pos);
    match first.value {
        Err(error) => failed(error, first.used),
        Ok(expression) => {
            let end = consume(
                toks,
                pos + first.used,
                TokenType::Semicolon,
                "Expect ';' after value"@,
            );
            match end.value {
                Err(error) => failed(error, first.used),
                Ok(_) => done(
                    StmtView::Print { expression, keyword: previous(toks, pos) },
                    first.used + 1,
                ),
            }
        },
    }
}

/// `return value;`, from behind `return` on.
#[verifier::opaque]
pub open spec fn g_return(toks: Seq<TokenView>, pos: int) -> Parsed<StmtView>
    decreases remaining(toks, pos), 22nat,
{
    let key_word = previous(toks, pos);
    if check(toks, pos, TokenType::Semicolon) {
        done(StmtView::Return { key_word, value: None }, 1)
    } else {
        let first = g_expression(toks, pos);
        match first.value {
            Err(error) => failed(error, first.used),
            Ok(value) => {
                let end = consume(
                    toks,
                    pos + first.used,
                    TokenType::Semicolon,
                    "Expect ';' after return value."@,
                );
                match end.value {
                    Err(error) => failed(error, first.used),
                    Ok(_) => done(
                        StmtView::Return { key_word, value: Some(value) },
                        first.used + 1,
                    ),
                }
            },
        }
    }
}

/// The head of a loop or a branch: `( condition )`, with `msg` the message
/// for a missing opening parenthesis.
#[verifier::opaque]
pub open spec fn g_condition(toks: Seq<TokenView>, pos: int, msg: Seq<char>) -> Parsed<ExprView>
    decreases remaining(toks, pos), 20nat,
{
    let open = consume(toks, pos, TokenType::LeftParen, msg);
    match open.value {
        Err(error) => failed(error, 0),
        Ok(_) => {
            let first = g_expression(toks, pos + 1);
            match first.value {
                Err(error) => failed(error, 1 + first.used),
                Ok(condition) => {
                    let close = consume(
                        toks,
                        pos + 1 + first.used,
                        TokenType::RightParen,
                        "Expect ')' after the condition"@,
                    );
                    match close.value {
                        Err(error) => failed(error, 1 + first.used),
                        Ok(_) => done(condition, 2 + first.used),
                    }
                },
            }
        },
    }
}

/// `while (condition) body`, from behind `while` on.
#[verifier::opaque]
pub open spec fn g_while(toks: Seq<TokenView>, pos: int) -> Parsed<StmtView>
    decreases remaining(toks, pos), 22nat,
{
    let head = g_condition(toks, pos, "Expect '(' after 'while'"@);
    match head.value {
        Err(error) => failed(error, head.used),
        Ok(condition) => {
            let body = g_statement(toks, pos + head.used);
            match body.value {
                Err(error) => failed(error, head.used + body.used),
                Ok(body_statement) => done(
                    StmtView::While {
                        condition,
                        body: Box::new(body_statement),
                        increment: None,
                    },
                    head.used + body.used,
                ),
            }
        },
    }
}

/// `if (condition) then else otherwise`, from behind `if` on.
#[verifier::opaque]
pub open spec fn g_branch(toks: Seq<TokenView>, pos: int) -> Parsed<StmtView>
    decreases remaining(toks, pos), 22nat,
{
    let head = g_condition(toks, pos, "Expect '(' after 'if'"@);
    match head.value {
        Err(error) => failed(error, head.used),
        Ok(condition) => {
            let then = g_statement(toks, pos + head.used);
            match then.value {
                Err(error) => failed(error, head.used + then.used),
                Ok(then_branch) => {
                    let at = pos + head.used + then.used;
                    if check(toks, at, TokenType::Else) {
                        let otherwise = g_statement(toks, at + 1);
                        match otherwise.value {
                            Err(error) => failed(
                                error,
                                head.used + then.used + 1 + otherwise.used,
                            ),
                            Ok(else_branch) => done(
                                StmtView::Branch {
                                    condition,
                                    then_branch: Box::new(then_branch),
                                    else_branch: Some(Box::new(else_branch)),
                                },
                                head.used + then.used + 1 + otherwise.used,
                            ),
                        }
                    } else {
                        done(
                            StmtView::Branch {
                                condition,
                                then_branch: Box::new(then_branch),
                                else_branch: None,
                            },
                            head.used + then.used,
                        )
                    }
                },
            }
        },
    }
}

/// The first part of the head of a `for` loop, with the semicolon that
/// ends it: a `let`, an expression, or nothing.
#[verifier::opaque]
pub open spec fn g_for_initializer(toks: Seq<TokenView>, pos: int) -> Parsed<Option<StmtView>>
    decreases remaining(toks, pos), 20nat,
{
    if check(toks, pos, TokenType::Let) {
        let vars = g_var_declaration(toks, pos + 1);
        match vars.value {
            Err(error) => failed(error, 1 + vars.used),
            Ok(statement) => done(Some(statement), 1 + vars.used),
        }
    } else if check(toks, pos, TokenType::Semicolon) {
        done(None, 1)
    } else {
        let first = g_expression_statement(toks, pos);
        match first.value {
            Err(error) => failed(error, first.used),
            Ok(statement) => done(Some(statement), first.used),
        }
    }
}

/// An expression that may be left out in front of a token of kind `end`.
#[verifier::opaque]
pub open spec fn g_optional(toks: Seq<TokenView>, pos: int, end: TokenType) -> Parsed<
    Option<ExprView>,
>
    decreases remaining(toks, pos), 20nat,
{
    if check(toks, pos, end) {
        done(None, 0)
    } else {
        let first = g_expression(toks, pos);
        match first.value {
            Err(error) => failed(error, first.used),
            Ok(expression) => done(Some(expression), first.used),
        }
    }
}

/// The loop that a `for` statement stands for. The increment is kept on
/// the loop, so that it runs after the body and after every `continue`; a
/// condition that is left out is `true`; the initializer, if there is one,
/// stands with the loop in a block of their own.
pub open spec fn for_loop(
    initializer: Option<StmtView>,
    condition: Option<ExprView>,
    semicolon: TokenView,
    increment: Option<ExprView>,
    paren: TokenView,
    body: StmtView,
) -> StmtView {
    let looping = StmtView::While {
        condition: match condition {
            Some(condition) => condition,
            None => ExprView::Literal { value: LiteralView::Bool(true), token: semicolon },
        },
        body: Box::new(body),
        increment: match increment {
            Some(expression) => Some(Box::new(StmtView::Expression { expression, end: paren })),
            None => None,
        },
    };
    match initializer {
        Some(initializer) => StmtView::Block { statements: seq![initializer, looping] },
        None => looping,
    }
}

/// `for (initializer; condition; increment) body`, from behind `for` on.
#[verifier::opaque]
pub open spec fn g_for(toks: Seq<TokenView>, pos: int) -> Parsed<StmtView>
    decreases remaining(toks, pos), 22nat,
{
    let open = consume(toks, pos, TokenType::LeftParen, "Expect '(' after 'for'"@);
    match open.value {
        Err(error) => failed(error, 0),
        Ok(_) => {
            let first = g_for_initializer(toks, pos + 1);
            match first.value {
                Err(error) => failed(error, 1 + first.used),
                Ok(initializer) => {
                    let second = g_optional(toks, pos + 1 + first.used, TokenType::Semicolon);
                    match second.value {
                        Err(error) => failed(error, 1 + first.used + second.used),
                        Ok(condition) => {
                            let at = pos + 1 + first.used + second.used;
                            let semicolon = consume(
                                toks,
                                at,
                                TokenType::Semicolon,
                                "Expect ';' after loop condition"@,
                            );
                            match semicolon.value {
                                Err(error) => failed(error, 1 + first.used + second.used),
                                Ok(semicolon) => g_for_tail(
                                    toks,
                                    pos,
                                    2 + first.used + second.used,
                                    initializer,
                                    condition,
                                    semicolon,
                                ),
                            }
                        },
                    }
                },
            }
        },
    }
}

/// What follows the second semicolon of the head of a `for` loop that
/// began at `pos` and has taken `taken` tokens so far.
#[verifier::opaque]
pub open spec fn g_for_tail(
    toks: Seq<TokenView>,
    pos: int,
    taken: nat,
    initializer: Option<StmtView>,
    condition: Option<ExprView>,
    semicolon: TokenView,
) -> Parsed<StmtView>
    decreases remaining(toks, pos), 21nat,
{
    let third = g_optional(toks, pos + taken, TokenType::RightParen);
    match third.value {
        Err(error) => failed(error, taken + third.used),
        Ok(increment) => {
            let close = consume(
                toks,
                pos + taken + third.used,
                TokenType::RightParen,
                "Expect ')' after 'for'"@,
            );
            match close.value {
                Err(error) => failed(error, taken + third.used),
                Ok(paren) => {
                    let body = g_statement(toks, pos + taken + third.used + 1);
                    match body.value {
                        Err(error) => failed(error, taken + third.used + 1 + body.used),
                        Ok(body_statement) => done(
                            for_loop(
                                initializer,
                                condition,
                                semicolon,
                                increment,
                                paren,
                                body_statement,
                            ),
                            taken + third.used + 1 + body.used,
                        ),
                    }
                },
            }
        },
    }
}

/// `break;` or `continue;`, from behind the word on; `word` is the word as
/// it stands in the message for a missing semicolon.
#[verifier::opaque]
pub open spec fn g_jump(toks: Seq<TokenView>, pos: int, word: Seq<char>) -> Parsed<TokenView> {
    let end = consume(toks, pos, TokenType::Semicolon, "Expect ';' after '"@ + word + "'"@);
    match end.value {
        Err(error) => failed(error, 0),
        Ok(_) => done(previous(toks, pos), 1),
    }
}

#[verifier::opaque]
pub open spec fn g_statement(toks: Seq<TokenView>, pos: int) -> Parsed<StmtView>
    decreases remaining(toks, pos), 19nat,
{
    if check(toks, pos, TokenType::For) {
        shift(g_for(toks, pos + 1), 1)
    } else if check(toks, pos, TokenType::If) {
        shift(g_branch(toks, pos + 1), 1)
    } else if check(toks, pos, TokenType::Print) {
        shift(g_print(toks, pos + 1), 1)
    } else if check(toks, pos, TokenType::Return) {
        shift(g_return(toks, pos + 1), 1)
    } else if check(toks, pos, TokenType::While) {
        shift(g_while(toks, pos + 1), 1)
    } else if check(toks, pos, TokenType::Break) {
        let jump = g_jump(toks, pos + 1, "break"@);
        match jump.value {
            Err(error) => failed(error, 1 + jump.used),
            Ok(token) => done(StmtView::Break { token }, 1 + jump.used),
        }
    } else if check(toks, pos, TokenType::Continue) {
        let jump = g_jump(toks, pos + 1, "continue"@);
        match jump.value {
            Err(error) => failed(error, 1 + jump.used),
            Ok(token) => done(StmtView::Continue { token }, 1 + jump.used),
        }
    } else if check(toks, pos, TokenType::LeftBrace) {
        let block = g_block(toks, pos + 1, Seq::empty());
        match block.value {
            Err(error) => failed(error, 1 + block.used),
            Ok(statements) => done(StmtView::Block { statements }, 1 + block.used),
        }
    } else {
        g_expression_statement(toks, pos)
    }
}

/// The statements of a block, from `pos` up to and with the closing brace,
/// added to those already read.
#[verifier::opaque]
pub open spec fn g_block(toks: Seq<TokenView>, pos: int, read: Seq<StmtView>) -> Parsed<
    Seq<StmtView>,
>
    decreases remaining(toks, pos), 21nat,
{
    if check(toks, pos, TokenType::RightBrace) || at_end(toks, pos) {
        let close = consume(toks, pos, TokenType::RightBrace, "Expect '}' after block"@);
        match close.value {
            Err(error) => failed(error, 0),
            Ok(_) => done(read, 1),
        }
    } else {
        let first = g_declaration(toks, pos);
        match first.value {
            Err(error) => failed(error, first.used),
            Ok(statement) => {
                let step = at_least_one(first.used);
                shift(g_block(toks, pos + step, read.push(statement)), step)
            },
        }
    }
}

/// The variables of a `let`, from `pos` up to and with the semicolon, added
/// to those already read.
#[verifier::opaque]
pub open spec fn g_vars(toks: Seq<TokenView>, pos: int, read: Seq<StmtView>) -> Parsed<
    Seq<StmtView>,
>
    decreases remaining(toks, pos), 22nat,
{
    if at_end(toks, pos) || check(toks, pos, TokenType::Semicolon) {
        let end = consume(toks, pos, TokenType::Semicolon, "Expect ';' after value"@);
        match end.value {
            Err(error) => failed(error, 0),
            Ok(_) => done(read, 1),
        }
    } else {
        let name = consume(toks, pos, TokenType::Identifier, "Expect a variable name."@);
        match name.value {
            Err(error) => failed(error, 0),
            Ok(name) => {
                let value = g_initializer(toks, pos + 1);
                match value.value {
                    Err(error) => failed(error, 1 + value.used),
                    Ok(initializer) => {
                        let at = pos + 1 + value.used;
                        let variable = StmtView::Var { name, initializer };
                        if check(toks, at, TokenType::Semicolon) {
                            shift(g_vars(toks, at, read.push(variable)), 1 + value.used)
                        } else {
                            let comma = consume(
                                toks,
                                at,
                                TokenType::Comma,
                                "Expect ',' after value"@,
                            );
                            match comma.value {
                                Err(error) => failed(error, 1 + value.used),
                                Ok(_) => shift(
                                    g_vars(toks, at + 1, read.push(variable)),
                                    2 + value.used,
                                ),
                            }
                        }
                    },
                }
            },
        }
    }
}

/// The value that a variable is declared with: `= value`, or nothing.
#[verifier::opaque]
pub open spec fn g_initializer(toks: Seq<TokenView>, pos: int) -> Parsed<Option<ExprView>>
    decreases remaining(toks, pos), 20nat,
{
    if check(toks, pos, TokenType::Equal) {
        let first = g_ternary(toks, pos + 1);
        match first.value {
            Err(error) => failed(error, 1 + first.used),
            Ok(value) => done(Some(value), 1 + first.used),
        }
    } else {
        done(None, 0)
    }
}

/// The variables of a `let`, from behind the `let` on.
#[verifier::opaque]
pub open spec fn g_var_declaration(toks: Seq<TokenView>, pos: int) -> Parsed<StmtView>
    decreases remaining(toks, pos), 23nat,
{
    let vars = g_vars(toks, pos, Seq::empty());
    match vars.value {
        Err(error) => failed(error, vars.used),
        Ok(vars_read) => done(StmtView::MultiVar { vars: vars_read }, vars.used),
    }
}

/// The parameters of a function, from `pos` up to the closing parenthesis,
/// added to those already read.
#[verifier::opaque]
pub open spec fn g_params(toks: Seq<TokenView>, pos: int, read: Seq<TokenView>) -> Parsed<
    Seq<TokenView>,
>
    decreases remaining(toks, pos),
{
    if check(toks, pos, TokenType::RightParen) {
        done(read, 0)
    } else if read.len() >= max_arity() {
        failed(error_at(toks[pos], "The maximum number of parameters is 256."@), 0)
    } else {
        let name = consume(toks, pos, TokenType::Identifier, "Expect parameter name."@);
        match name.value {
            Err(error) => failed(error, 0),
            Ok(name) => {
                let step: nat = if check(toks, pos + 1, TokenType::Comma) {
                    2
                } else {
                    1
                };
                shift(g_params(toks, pos + step, read.push(name)), step)
            },
        }
    }
}

/// The parameters and the body of a function, from behind the opening
/// parenthesis on.
#[verifier::opaque]
pub open spec fn g_params_and_body(toks: Seq<TokenView>, pos: int) -> Parsed<
    (Seq<TokenView>, Seq<StmtView>),
>
    decreases remaining(toks, pos), 22nat,
{
    let params = g_params(toks, pos, Seq::empty());
    match params.value {
        Err(error) => failed(error, params.used),
        Ok(names) => {
            let close = consume(
                toks,
                pos + params.used,
                TokenType::RightParen,
                "Expect ')' after parameters."@,
            );
            match close.value {
                Err(error) => failed(error, params.used),
                Ok(_) => {
                    let open = consume(
                        toks,
                        pos + params.used + 1,
                        TokenType::LeftBrace,
                        "Expect '{' before function body."@,
                    );
                    match open.value {
                        Err(error) => failed(error, params.used + 1),
                        Ok(_) => {
                            let body = g_block(toks, pos + params.used + 2, Seq::empty());
                            match body.value {
                                Err(error) => failed(error, params.used + 2 + body.used),
                                Ok(statements) => done(
                                    (names, statements),
                                    params.used + 2 + body.used,
                                ),
                            }
                        },
                    }
                },
            }
        },
    }
}

/// A function, from behind `func` on: with a name it is a declaration,
/// without one it is a statement that holds a function value.
#[verifier::opaque]
pub open spec fn g_function(toks: Seq<TokenView>, pos: int, kind: FuncType) -> Parsed<StmtView>
    decreases remaining(toks, pos), 23nat,
{
    if check(toks, pos, TokenType::LeftParen) {
        let rest = g_params_and_body(toks, pos + 1);
        match rest.value {
            Err(error) => failed(error, 1 + rest.used),
            Ok(parts) => done(
                StmtView::Expression {
                    expression: ExprView::Lambda {
                        keyword: previous(toks, pos),
                        params: parts.0,
                        body: parts.1,
                    },
                    end: previous(toks, pos + 1 + rest.used),
                },
                1 + rest.used,
            ),
        }
    } else {
        let name = consume(
            toks,
            pos,
            TokenType::Identifier,
            "Expect "@ + kind.spec_label() + " name."@,
        );
        match name.value {
            Err(error) => failed(error, 0),
            Ok(name) => {
                let open = consume(
                    toks,
                    pos + 1,
                    TokenType::LeftParen,
                    "Expect '(' after "@ + kind.spec_label() + " name."@,
                );
                match open.value {
                    Err(error) => failed(error, 1),
                    Ok(_) => {
                        let rest = g_params_and_body(toks, pos + 2);
                        match rest.value {
                            Err(error) => failed(error, 2 + rest.used),
                            Ok(parts) => done(
                                StmtView::Function {
                                    name,
                                    params: parts.0,
                                    body: parts.1,
                                    function_type: kind,
                                },
                                2 + rest.used,
                            ),
                        }
                    },
                }
            },
        }
    }
}

/// A declaration or a statement. After an error the tokens up to the place
/// where the next statement may begin are taken as well.
#[verifier::opaque]
pub open spec fn g_declaration(toks: Seq<TokenView>, pos: int) -> Parsed<StmtView>
    decreases remaining(toks, pos), 20nat,
{
    let first = if check(toks, pos, TokenType::Let) {
        shift(g_var_declaration(toks, pos + 1), 1)
    } else if check(toks, pos, TokenType::Func) {
        shift(g_function(toks, pos + 1, FuncType::Normal), 1)
    } else {
        g_statement(toks, pos)
    };
    match first.value {
        Err(error) => failed(error, first.used + sync(toks, pos + first.used)),
        Ok(_) => first,
    }
}

/// The statements and the errors of a program.
pub struct Parse {
    pub statements: Seq<StmtView>,
    pub errors: Seq<ErrorView>,
}

/// The statements and the errors of the program from `pos` on, added to
/// those already found.
#[verifier::opaque]
pub open spec fn g_program(toks: Seq<TokenView>, pos: int, found: Parse) -> Parse
    decreases remaining(toks, pos),
{
    if at_end(toks, pos) {
        found
    } else {
        let first = g_declaration(toks, pos);
        let step = at_least_one(first.used);
        match first.value {
            Ok(statement) => g_program(
                toks,
                pos + step,
                Parse { statements: found.statements.push(statement), errors: found.errors },
            ),
            Err(error) => g_program(
                toks,
                pos + step,
                Parse { statements: found.statements, errors: found.errors.push(error) },
            ),
        }
    }
}

} // verus!
