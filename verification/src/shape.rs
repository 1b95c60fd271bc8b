//! The shape of what the grammar makes.
//!
//! A statement is tidy if it has the shape that the grammar gives to
//! every statement, and every `break` and `continue` in it stands in a
//! loop of the function that holds it.

use vstd::prelude::*;
use crate::expr::ExprView;
use crate::grammar::{
    at_end, at_least_one, check, consume, for_loop, g_and, g_and_rest, g_arguments, g_assignment,
    g_block, g_branch, g_call, g_comparison, g_comparison_rest, g_condition, g_declaration,
    g_equality, g_equality_rest, g_expression, g_expression_statement, g_factor, g_factor_rest,
    g_for, g_for_initializer, g_for_tail, g_function, g_initializer, g_lambda, g_optional, g_or,
    g_or_rest, g_params, g_params_and_body, g_primary, g_print, g_program, g_return, g_statement,
    g_term, g_term_rest, g_ternary, g_unary, g_var_declaration, g_vars, g_while,
    is_comparison_operator, is_compound_assignment, is_equality_operator, is_factor_operator,
    is_term_operator, is_unary_operator, max_arity, remaining, Parse,
};
use crate::heights::{plain, tidy_expr, tidy_exprs, tidy_stmt, tidy_stmts};
use crate::stmt::StmtView;
use crate::token::TokenView;
use crate::types::{FuncType, TokenType};

verus! {

/// Whether an expression has the shape that the grammar gives: the
/// functions in it have it, and no call or function in it has more
/// arguments or parameters than the machine can count.
pub open spec fn shaped_expr(expr: ExprView) -> bool
    decreases expr, 0nat,
{
    match expr {
        ExprView::Assign { name, value } => shaped_expr(*value),
        ExprView::Binary { left, op, right } => shaped_expr(*left) && shaped_expr(*right),
        ExprView::Call { callee, paren, arguments } => shaped_expr(*callee) && arguments.len()
            <= usize::MAX && shaped_exprs(arguments, arguments.len() as int),
        ExprView::Grouping { expression } => shaped_expr(*expression),
        ExprView::Logical { left, op, right } => shaped_expr(*left) && shaped_expr(*right),
        ExprView::Ternary { condition, true_value, false_value } => shaped_expr(*condition)
            && shaped_expr(*true_value) && shaped_expr(*false_value),
        ExprView::Unary { op, right } => shaped_expr(*right),
        ExprView::Lambda { keyword, params, body } => params.len() <= usize::MAX && shaped_stmts(
            body,
            body.len() as int,
        ),
        ExprView::OperateAndAssign { name, op, value } => shaped_expr(*value),
        _ => true,
    }
}

pub open spec fn shaped_exprs(exprs: Seq<ExprView>, n: int) -> bool
    decreases exprs, n,
{
    if n <= 0 || n > exprs.len() {
        true
    } else {
        shaped_exprs(exprs, n - 1) && shaped_expr(exprs[n - 1])
    }
}

/// Whether a statement has the shape that the grammar gives: a
/// declaration stands in a list of statements, never alone as a branch or
/// as the body of a loop.
pub open spec fn shaped_stmt(stmt: StmtView) -> bool
    decreases stmt, 0nat,
{
    match stmt {
        StmtView::Expression { expression, end } => shaped_expr(expression),
        StmtView::Print { expression, keyword } => shaped_expr(expression),
        StmtView::Var { name, initializer } => match initializer {
            Some(init) => shaped_expr(init),
            None => true,
        },
        StmtView::MultiVar { vars } => shaped_stmts(vars, vars.len() as int),
        StmtView::Block { statements } => shaped_stmts(statements, statements.len() as int),
        StmtView::Branch { condition, then_branch, else_branch } => {
            &&& shaped_expr(condition)
            &&& plain(*then_branch)
            &&& shaped_stmt(*then_branch)
            &&& match else_branch {
                Some(else_branch) => plain(*else_branch) && shaped_stmt(*else_branch),
                None => true,
            }
        },
        StmtView::While { condition, body, increment } => {
            &&& shaped_expr(condition)
            &&& plain(*body)
            &&& shaped_stmt(*body)
            &&& match increment {
                Some(increment) => *increment is Expression && shaped_stmt(*increment),
                None => true,
            }
        },
        StmtView::Function { name, params, body, function_type } => params.len() <= usize::MAX
            && shaped_stmts(body, body.len() as int),
        StmtView::Return { key_word, value } => match value {
            Some(value) => shaped_expr(value),
            None => true,
        },
        _ => true,
    }
}

pub open spec fn shaped_stmts(stmts: Seq<StmtView>, n: int) -> bool
    decreases stmts, n,
{
    if n <= 0 || n > stmts.len() {
        true
    } else {
        shaped_stmts(stmts, n - 1) && shaped_stmt(stmts[n - 1])
    }
}

/// Whether every `break` and `continue` in the functions of an
/// expression stands in a loop of the function that holds it.
pub open spec fn looped_expr(expr: ExprView) -> bool
    decreases expr, 0nat,
{
    match expr {
        ExprView::Assign { name, value } => looped_expr(*value),
        ExprView::Binary { left, op, right } => looped_expr(*left) && looped_expr(*right),
        ExprView::Call { callee, paren, arguments } => looped_expr(*callee) && looped_exprs(
            arguments,
            arguments.len() as int,
        ),
        ExprView::Grouping { expression } => looped_expr(*expression),
        ExprView::Logical { left, op, right } => looped_expr(*left) && looped_expr(*right),
        ExprView::Ternary { condition, true_value, false_value } => looped_expr(*condition)
            && looped_expr(*true_value) && looped_expr(*false_value),
        ExprView::Unary { op, right } => looped_expr(*right),
        ExprView::Lambda { keyword, params, body } => looped_stmts(body, body.len() as int, false),
        ExprView::OperateAndAssign { name, op, value } => looped_expr(*value),
        _ => true,
    }
}

pub open spec fn looped_exprs(exprs: Seq<ExprView>, n: int) -> bool
    decreases exprs, n,
{
    if n <= 0 || n > exprs.len() {
        true
    } else {
        looped_exprs(exprs, n - 1) && looped_expr(exprs[n - 1])
    }
}

/// Whether every `break` and `continue` in a statement stands in a loop
/// of the function that holds it; `in_loop` tells whether the statement
/// itself stands in one. The increment of a loop stands behind the loop's
/// body, not in it, and the body of a function stands in no loop of the
/// function when it begins.
pub open spec fn looped_stmt(stmt: StmtView, in_loop: bool) -> bool
    decreases stmt, 0nat,
{
    match stmt {
        StmtView::Expression { expression, end } => looped_expr(expression),
        StmtView::Print { expression, keyword } => looped_expr(expression),
        StmtView::Var { name, initializer } => match initializer {
            Some(init) => looped_expr(init),
            None => true,
        },
        StmtView::MultiVar { vars } => looped_stmts(vars, vars.len() as int, in_loop),
        StmtView::Block { statements } => looped_stmts(
            statements,
            statements.len() as int,
            in_loop,
        ),
        StmtView::Branch { condition, then_branch, else_branch } => {
            &&& looped_expr(condition)
            &&& looped_stmt(*then_branch, in_loop)
            &&& match else_branch {
                Some(else_branch) => looped_stmt(*else_branch, in_loop),
                None => true,
            }
        },
        StmtView::While { condition, body, increment } => {
            &&& looped_expr(condition)
            &&& looped_stmt(*body, true)
            &&& match increment {
                Some(increment) => looped_stmt(*increment, false),
                None => true,
            }
        },
        StmtView::Continue { token } => in_loop,
        StmtView::Break { token } => in_loop,
        StmtView::Function { name, params, body, function_type } => looped_stmts(
            body,
            body.len() as int,
            false,
        ),
        StmtView::Return { key_word, value } => match value {
            Some(value) => looped_expr(value),
            None => true,
        },
        StmtView::Class { name, methods, static_methods } => true,
    }
}

pub open spec fn looped_stmts(stmts: Seq<StmtView>, n: int, in_loop: bool) -> bool
    decreases stmts, n,
{
    if n <= 0 || n > stmts.len() {
        true
    } else {
        looped_stmts(stmts, n - 1, in_loop) && looped_stmt(stmts[n - 1], in_loop)
    }
}

/// An expression of the grammar's shape, with every `break` and
/// `continue` in a loop of its function, is tidy.
pub proof fn lemma_tidy_expr(expr: ExprView)
    requires
        shaped_expr(expr),
        looped_expr(expr),
    ensures
        tidy_expr(expr),
    decreases expr, 0nat,
{
    match expr {
        ExprView::Assign { name, value } => {
            lemma_tidy_expr(*value);
        },
        ExprView::Binary { left, op, right } => {
            lemma_tidy_expr(*left);
            lemma_tidy_expr(*right);
        },
        ExprView::Call { callee, paren, arguments } => {
            lemma_tidy_expr(*callee);
            lemma_tidy_exprs(arguments, arguments.len() as int);
        },
        ExprView::Grouping { expression } => {
            lemma_tidy_expr(*expression);
        },
        ExprView::Logical { left, op, right } => {
            lemma_tidy_expr(*left);
            lemma_tidy_expr(*right);
        },
        ExprView::Ternary { condition, true_value, false_value } => {
            lemma_tidy_expr(*condition);
            lemma_tidy_expr(*true_value);
            lemma_tidy_expr(*false_value);
        },
        ExprView::Unary { op, right } => {
            lemma_tidy_expr(*right);
        },
        ExprView::Lambda { keyword, params, body } => {
            lemma_tidy_stmts(body, body.len() as int, false);
        },
        ExprView::OperateAndAssign { name, op, value } => {
            lemma_tidy_expr(*value);
        },
        _ => {},
    }
}

pub proof fn lemma_tidy_exprs(exprs: Seq<ExprView>, n: int)
    requires
        shaped_exprs(exprs, n),
        looped_exprs(exprs, n),
    ensures
        tidy_exprs(exprs, n),
    decreases exprs, n,
{
    if 0 < n <= exprs.len() {
        lemma_tidy_exprs(exprs, n - 1);
        lemma_tidy_expr(exprs[n - 1]);
    }
}

/// A statement of the grammar's shape, with every `break` and `continue`
/// in a loop of its function, is tidy.
pub proof fn lemma_tidy_stmt(stmt: StmtView, in_loop: bool)
    requires
        shaped_stmt(stmt),
        looped_stmt(stmt, in_loop),
    ensures
        tidy_stmt(stmt, in_loop),
    decreases stmt, 0nat,
{
    match stmt {
        StmtView::Expression { expression, end } => {
            lemma_tidy_expr(expression);
        },
        StmtView::Print { expression, keyword } => {
            lemma_tidy_expr(expression);
        },
        StmtView::Var { name, initializer } => {
            match initializer {
                Some(init) => {
                    lemma_tidy_expr(init);
                },
                None => {},
            }
        },
        StmtView::MultiVar { vars } => {
            lemma_tidy_stmts(vars, vars.len() as int, in_loop);
        },
        StmtView::Block { statements } => {
            lemma_tidy_stmts(statements, statements.len() as int, in_loop);
        },
        StmtView::Branch { condition, then_branch, else_branch } => {
            lemma_tidy_expr(condition);
            lemma_tidy_stmt(*then_branch, in_loop);
            match else_branch {
                Some(else_branch) => {
                    lemma_tidy_stmt(*else_branch, in_loop);
                },
                None => {},
            }
        },
        StmtView::While { condition, body, increment } => {
            lemma_tidy_expr(condition);
            lemma_tidy_stmt(*body, true);
            match increment {
                Some(increment) => {
                    lemma_tidy_stmt(*increment, false);
                },
                None => {},
            }
        },
        StmtView::Function { name, params, body, function_type } => {
            lemma_tidy_stmts(body, body.len() as int, false);
        },
        StmtView::Return { key_word, value } => {
            match value {
                Some(value) => {
                    lemma_tidy_expr(value);
                },
                None => {},
            }
        },
        _ => {},
    }
}

pub proof fn lemma_tidy_stmts(stmts: Seq<StmtView>, n: int, in_loop: bool)
    requires
        shaped_stmts(stmts, n),
        looped_stmts(stmts, n, in_loop),
    ensures
        tidy_stmts(stmts, n, in_loop),
    decreases stmts, n,
{
    if 0 < n <= stmts.len() {
        lemma_tidy_stmts(stmts, n - 1, in_loop);
        lemma_tidy_stmt(stmts[n - 1], in_loop);
    }
}

/// One expression more at the end of a list leaves the shape of the
/// others as it was.
proof fn lemma_shaped_exprs_push(exprs: Seq<ExprView>, more: ExprView, n: int)
    requires
        0 <= n <= exprs.len(),
        shaped_exprs(exprs, n),
    ensures
        shaped_exprs(exprs.push(more), n),
    decreases n,
{
    if n > 0 {
        lemma_shaped_exprs_push(exprs, more, n - 1);
    }
}

/// One statement more at the end of a list leaves the shape of the
/// others as it was.
proof fn lemma_shaped_stmts_push(stmts: Seq<StmtView>, more: StmtView, n: int)
    requires
        0 <= n <= stmts.len(),
        shaped_stmts(stmts, n),
    ensures
        shaped_stmts(stmts.push(more), n),
    decreases n,
{
    if n > 0 {
        lemma_shaped_stmts_push(stmts, more, n - 1);
    }
}

/// What the rule makes has the grammar's shape.
#[verifier::spinoff_prover]
proof fn lemma_primary(toks: Seq<TokenView>, pos: int)
    ensures
        g_primary(toks, pos).value matches Ok(expr) ==> shaped_expr(expr),
    decreases remaining(toks, pos), 6nat,
{
    reveal(g_primary);
    if check(toks, pos, TokenType::False) || check(toks, pos, TokenType::True) || check(
        toks,
        pos,
        TokenType::Nil,
    ) || check(toks, pos, TokenType::Number) || check(toks, pos, TokenType::String) || check(
        toks,
        pos,
        TokenType::Identifier,
    ) {
    } else if check(toks, pos, TokenType::LeftParen) {
        lemma_expression(toks, pos + 1);
    } else if check(toks, pos, TokenType::Func) {
        lemma_lambda(toks, pos + 1);
    }
}

/// What the rule makes has the grammar's shape.
#[verifier::spinoff_prover]
proof fn lemma_lambda(toks: Seq<TokenView>, pos: int)
    ensures
        g_lambda(toks, pos).value matches Ok(expr) ==> shaped_expr(expr),
    decreases remaining(toks, pos), 23nat,
{
    reveal(g_lambda);
    if consume(toks, pos, TokenType::LeftParen, "Expect '(' after func."@).value is Ok {
        lemma_params_and_body(toks, pos + 1);
    }
}

/// What the rule makes has the grammar's shape.
#[verifier::spinoff_prover]
proof fn lemma_arguments(toks: Seq<TokenView>, pos: int, read: Seq<ExprView>)
    requires
        shaped_exprs(read, read.len() as int),
        read.len() <= max_arity(),
    ensures
        g_arguments(toks, pos, read).value matches Ok(list) ==> shaped_exprs(list, list.len() as int) && list.len() <= max_arity(),
    decreases remaining(toks, pos), 22nat,
{
    reveal(g_arguments);
    if check(toks, pos, TokenType::RightParen) {
    } else if read.len() >= max_arity() {
    } else if at_end(toks, pos) {
    } else {
        lemma_expression(toks, pos);
        let argument = g_expression(toks, pos);
        match argument.value {
            Ok(expression) => {
                let comma: nat = if check(toks, pos + argument.used, TokenType::Comma) {
                    1
                } else {
                    0
                };
                let step = at_least_one(argument.used + comma);
                lemma_shaped_exprs_push(read, expression, read.len() as int);
                lemma_arguments(toks, pos + step, read.push(expression));
            },
            Err(_) => {},
        }
    }
}

/// What the rule makes has the grammar's shape.
#[verifier::spinoff_prover]
proof fn lemma_call(toks: Seq<TokenView>, pos: int)
    ensures
        g_call(toks, pos).value matches Ok(expr) ==> shaped_expr(expr),
    decreases remaining(toks, pos), 7nat,
{
    reveal(g_call);
    lemma_primary(toks, pos);
    let callee = g_primary(toks, pos);
    if callee.value is Ok && check(toks, pos + callee.used, TokenType::LeftParen) {
        lemma_arguments(toks, pos + callee.used + 1, Seq::empty());
    }
}

/// What the rule makes has the grammar's shape.
#[verifier::spinoff_prover]
proof fn lemma_unary(toks: Seq<TokenView>, pos: int)
    ensures
        g_unary(toks, pos).value matches Ok(expr) ==> shaped_expr(expr),
    decreases remaining(toks, pos), 8nat,
{
    reveal(g_unary);
    if !at_end(toks, pos) && is_unary_operator(toks[pos].token_type) {
        lemma_unary(toks, pos + 1);
    } else {
        lemma_call(toks, pos);
    }
}

/// What the rule makes has the grammar's shape.
#[verifier::spinoff_prover]
proof fn lemma_factor(toks: Seq<TokenView>, pos: int)
    ensures
        g_factor(toks, pos).value matches Ok(expr) ==> shaped_expr(expr),
    decreases remaining(toks, pos), 9nat,
{
    reveal(g_factor);
    lemma_unary(toks, pos);
    let first = g_unary(toks, pos);
    match first.value {
        Ok(left) => {
            lemma_factor_rest(toks, pos + first.used, left);
        },
        Err(_) => {},
    }
}

/// What the rule makes has the grammar's shape.
#[verifier::spinoff_prover]
proof fn lemma_factor_rest(toks: Seq<TokenView>, pos: int, left: ExprView)
    requires
        shaped_expr(left),
    ensures
        g_factor_rest(toks, pos, left).value matches Ok(expr) ==> shaped_expr(expr),
    decreases remaining(toks, pos), 0nat,
{
    reveal(g_factor_rest);
    if !at_end(toks, pos) && is_factor_operator(toks[pos].token_type) {
        lemma_unary(toks, pos + 1);
        let operand = g_unary(toks, pos + 1);
        match operand.value {
            Ok(right) => {
                lemma_factor_rest(toks, pos + 1 + operand.used, ExprView::Binary { left: Box::new(left), op: toks[pos], right: Box::new(right) });
            },
            Err(_) => {},
        }
    }
}

/// What the rule makes has the grammar's shape.
#[verifier::spinoff_prover]
proof fn lemma_term(toks: Seq<TokenView>, pos: int)
    ensures
        g_term(toks, pos).value matches Ok(expr) ==> shaped_expr(expr),
    decreases remaining(toks, pos), 10nat,
{
    reveal(g_term);
    lemma_factor(toks, pos);
    let first = g_factor(toks, pos);
    match first.value {
        Ok(left) => {
            lemma_term_rest(toks, pos + first.used, left);
        },
        Err(_) => {},
    }
}

/// What the rule makes has the grammar's shape.
#[verifier::spinoff_prover]
proof fn lemma_term_rest(toks: Seq<TokenView>, pos: int, left: ExprView)
    requires
        shaped_expr(left),
    ensures
        g_term_rest(toks, pos, left).value matches Ok(expr) ==> shaped_expr(expr),
    decreases remaining(toks, pos), 0nat,
{
    reveal(g_term_rest);
    if !at_end(toks, pos) && is_term_operator(toks[pos].token_type) {
        lemma_factor(toks, pos + 1);
        let operand = g_factor(toks, pos + 1);
        match operand.value {
            Ok(right) => {
                lemma_term_rest(toks, pos + 1 + operand.used, ExprView::Binary { left: Box::new(left), op: toks[pos], right: Box::new(right) });
            },
            Err(_) => {},
        }
    }
}

/// What the rule makes has the grammar's shape.
#[verifier::spinoff_prover]
proof fn lemma_comparison(toks: Seq<TokenView>, pos: int)
    ensures
        g_comparison(toks, pos).value matches Ok(expr) ==> shaped_expr(expr),
    decreases remaining(toks, pos), 11nat,
{
    reveal(g_comparison);
    lemma_term(toks, pos);
    let first = g_term(toks, pos);
    match first.value {
        Ok(left) => {
            lemma_comparison_rest(toks, pos + first.used, left);
        },
        Err(_) => {},
    }
}

/// What the rule makes has the grammar's shape.
#[verifier::spinoff_prover]
proof fn lemma_comparison_rest(toks: Seq<TokenView>, pos: int, left: ExprView)
    requires
        shaped_expr(left),
    ensures
        g_comparison_rest(toks, pos, left).value matches Ok(expr) ==> shaped_expr(expr),
    decreases remaining(toks, pos), 0nat,
{
    reveal(g_comparison_rest);
    if !at_end(toks, pos) && is_comparison_operator(toks[pos].token_type) {
        lemma_term(toks, pos + 1);
        let operand = g_term(toks, pos + 1);
        match operand.value {
            Ok(right) => {
                lemma_comparison_rest(toks, pos + 1 + operand.used, ExprView::Binary { left: Box::new(left), op: toks[pos], right: Box::new(right) });
            },
            Err(_) => {},
        }
    }
}

/// What the rule makes has the grammar's shape.
#[verifier::spinoff_prover]
proof fn lemma_equality(toks: Seq<TokenView>, pos: int)
    ensures
        g_equality(toks, pos).value matches Ok(expr) ==> shaped_expr(expr),
    decreases remaining(toks, pos), 12nat,
{
    reveal(g_equality);
    lemma_comparison(toks, pos);
    let first = g_comparison(toks, pos);
    match first.value {
        Ok(left) => {
            lemma_equality_rest(toks, pos + first.used, left);
        },
        Err(_) => {},
    }
}

/// What the rule makes has the grammar's shape.
#[verifier::spinoff_prover]
proof fn lemma_equality_rest(toks: Seq<TokenView>, pos: int, left: ExprView)
    requires
        shaped_expr(left),
    ensures
        g_equality_rest(toks, pos, left).value matches Ok(expr) ==> shaped_expr(expr),
    decreases remaining(toks, pos), 0nat,
{
    reveal(g_equality_rest);
    if !at_end(toks, pos) && is_equality_operator(toks[pos].token_type) {
        lemma_comparison(toks, pos + 1);
        let operand = g_comparison(toks, pos + 1);
        match operand.value {
            Ok(right) => {
                lemma_equality_rest(toks, pos + 1 + operand.used, ExprView::Binary { left: Box::new(left), op: toks[pos], right: Box::new(right) });
            },
            Err(_) => {},
        }
    }
}

/// What the rule makes has the grammar's shape.
#[verifier::spinoff_prover]
proof fn lemma_ternary(toks: Seq<TokenView>, pos: int)
    ensures
        g_ternary(toks, pos).value matches Ok(expr) ==> shaped_expr(expr),
    decreases remaining(toks, pos), 13nat,
{
    reveal(g_ternary);
    lemma_equality(toks, pos);
    let first = g_equality(toks, pos);
    if first.value is Ok && check(toks, pos + first.used, TokenType::QuestionMark) {
        lemma_ternary(toks, pos + first.used + 1);
        let second = g_ternary(toks, pos + first.used + 1);
        let colon = pos + first.used + 1 + second.used;
        if second.value is Ok && check(toks, colon, TokenType::Colon) {
            lemma_ternary(toks, colon + 1);
        }
    }
}

/// What the rule makes has the grammar's shape.
#[verifier::spinoff_prover]
proof fn lemma_and(toks: Seq<TokenView>, pos: int)
    ensures
        g_and(toks, pos).value matches Ok(expr) ==> shaped_expr(expr),
    decreases remaining(toks, pos), 14nat,
{
    reveal(g_and);
    lemma_ternary(toks, pos);
    let first = g_ternary(toks, pos);
    match first.value {
        Ok(left) => {
            lemma_and_rest(toks, pos + first.used, left);
        },
        Err(_) => {},
    }
}

/// What the rule makes has the grammar's shape.
#[verifier::spinoff_prover]
proof fn lemma_and_rest(toks: Seq<TokenView>, pos: int, left: ExprView)
    requires
        shaped_expr(left),
    ensures
        g_and_rest(toks, pos, left).value matches Ok(expr) ==> shaped_expr(expr),
    decreases remaining(toks, pos), 0nat,
{
    reveal(g_and_rest);
    if check(toks, pos, TokenType::And) {
        lemma_ternary(toks, pos + 1);
        let operand = g_ternary(toks, pos + 1);
        match operand.value {
            Ok(right) => {
                lemma_and_rest(toks, pos + 1 + operand.used, ExprView::Logical { left: Box::new(left), op: toks[pos], right: Box::new(right) });
            },
            Err(_) => {},
        }
    }
}

/// What the rule makes has the grammar's shape.
#[verifier::spinoff_prover]
proof fn lemma_or(toks: Seq<TokenView>, pos: int)
    ensures
        g_or(toks, pos).value matches Ok(expr) ==> shaped_expr(expr),
    decreases remaining(toks, pos), 15nat,
{
    reveal(g_or);
    lemma_and(toks, pos);
    let first = g_and(toks, pos);
    match first.value {
        Ok(left) => {
            lemma_or_rest(toks, pos + first.used, left);
        },
        Err(_) => {},
    }
}

/// What the rule makes has the grammar's shape.
#[verifier::spinoff_prover]
proof fn lemma_or_rest(toks: Seq<TokenView>, pos: int, left: ExprView)
    requires
        shaped_expr(left),
    ensures
        g_or_rest(toks, pos, left).value matches Ok(expr) ==> shaped_expr(expr),
    decreases remaining(toks, pos), 0nat,
{
    reveal(g_or_rest);
    if check(toks, pos, TokenType::Or) {
        lemma_and(toks, pos + 1);
        let operand = g_and(toks, pos + 1);
        match operand.value {
            Ok(right) => {
                lemma_or_rest(toks, pos + 1 + operand.used, ExprView::Logical { left: Box::new(left), op: toks[pos], right: Box::new(right) });
            },
            Err(_) => {},
        }
    }
}

/// What the rule makes has the grammar's shape.
#[verifier::spinoff_prover]
proof fn lemma_assignment(toks: Seq<TokenView>, pos: int)
    ensures
        g_assignment(toks, pos).value matches Ok(expr) ==> shaped_expr(expr),
    decreases remaining(toks, pos), 16nat,
{
    reveal(g_assignment);
    lemma_or(toks, pos);
    let first = g_or(toks, pos);
    let at = pos + first.used;
    if first.value is Ok && !at_end(toks, at) && (is_compound_assignment(toks[at].token_type)
        || toks[at].token_type == TokenType::Equal) {
        lemma_assignment(toks, at + 1);
    }
}

/// What the rule makes has the grammar's shape.
#[verifier::spinoff_prover]
proof fn lemma_expression(toks: Seq<TokenView>, pos: int)
    ensures
        g_expression(toks, pos).value matches Ok(expr) ==> shaped_expr(expr),
    decreases remaining(toks, pos), 17nat,
{
    reveal(g_expression);
    lemma_assignment(toks, pos);
}

/// What the rule makes has the grammar's shape.
#[verifier::spinoff_prover]
proof fn lemma_expression_statement(toks: Seq<TokenView>, pos: int)
    ensures
        g_expression_statement(toks, pos).value matches Ok(stmt) ==> shaped_stmt(stmt) && plain(stmt),
        g_expression_statement(toks, pos).value matches Ok(stmt) ==> stmt is Expression,
    decreases remaining(toks, pos), 18nat,
{
    reveal(g_expression_statement);
    lemma_expression(toks, pos);
}

/// What the rule makes has the grammar's shape.
#[verifier::spinoff_prover]
proof fn lemma_print(toks: Seq<TokenView>, pos: int)
    ensures
        g_print(toks, pos).value matches Ok(stmt) ==> shaped_stmt(stmt) && plain(stmt),
    decreases remaining(toks, pos), 22nat,
{
    reveal(g_print);
    lemma_expression(toks, pos);
}

/// What the rule makes has the grammar's shape.
#[verifier::spinoff_prover]
proof fn lemma_return(toks: Seq<TokenView>, pos: int)
    ensures
        g_return(toks, pos).value matches Ok(stmt) ==> shaped_stmt(stmt) && plain(stmt),
    decreases remaining(toks, pos), 22nat,
{
    reveal(g_return);
    if !check(toks, pos, TokenType::Semicolon) {
        lemma_expression(toks, pos);
    }
}

/// What the rule makes has the grammar's shape.
#[verifier::spinoff_prover]
proof fn lemma_condition(toks: Seq<TokenView>, pos: int, msg: Seq<char>)
    ensures
        g_condition(toks, pos, msg).value matches Ok(expr) ==> shaped_expr(expr),
    decreases remaining(toks, pos), 20nat,
{
    reveal(g_condition);
    if consume(toks, pos, TokenType::LeftParen, msg).value is Ok {
        lemma_expression(toks, pos + 1);
    }
}

/// What the rule makes has the grammar's shape.
#[verifier::spinoff_prover]
proof fn lemma_while(toks: Seq<TokenView>, pos: int)
    ensures
        g_while(toks, pos).value matches Ok(stmt) ==> shaped_stmt(stmt) && plain(stmt),
    decreases remaining(toks, pos), 22nat,
{
    reveal(g_while);
    lemma_condition(toks, pos, "Expect '(' after 'while'"@);
    let head = g_condition(toks, pos, "Expect '(' after 'while'"@);
    if head.value is Ok {
        lemma_statement(toks, pos + head.used);
    }
}

/// What the rule makes has the grammar's shape.
#[verifier::spinoff_prover]
proof fn lemma_branch(toks: Seq<TokenView>, pos: int)
    ensures
        g_branch(toks, pos).value matches Ok(stmt) ==> shaped_stmt(stmt) && plain(stmt),
    decreases remaining(toks, pos), 22nat,
{
    reveal(g_branch);
    lemma_condition(toks, pos, "Expect '(' after 'if'"@);
    let head = g_condition(toks, pos, "Expect '(' after 'if'"@);
    if head.value is Ok {
        lemma_statement(toks, pos + head.used);
        let then = g_statement(toks, pos + head.used);
        let at = pos + head.used + then.used;
        if then.value is Ok && check(toks, at, TokenType::Else) {
            lemma_statement(toks, at + 1);
        }
    }
}

/// What the rule makes has the grammar's shape.
#[verifier::spinoff_prover]
proof fn lemma_for_initializer(toks: Seq<TokenView>, pos: int)
    ensures
        g_for_initializer(toks, pos).value matches Ok(Some(stmt)) ==> shaped_stmt(stmt),
    decreases remaining(toks, pos), 20nat,
{
    reveal(g_for_initializer);
    if check(toks, pos, TokenType::Let) {
        lemma_var_declaration(toks, pos + 1);
    } else if check(toks, pos, TokenType::Semicolon) {
    } else {
        lemma_expression_statement(toks, pos);
    }
}

/// What the rule makes has the grammar's shape.
#[verifier::spinoff_prover]
proof fn lemma_optional(toks: Seq<TokenView>, pos: int, end: TokenType)
    ensures
        g_optional(toks, pos, end).value matches Ok(Some(expr)) ==> shaped_expr(expr),
    decreases remaining(toks, pos), 20nat,
{
    reveal(g_optional);
    if !check(toks, pos, end) {
        lemma_expression(toks, pos);
    }
}

/// What the rule makes has the grammar's shape.
#[verifier::spinoff_prover]
proof fn lemma_for(toks: Seq<TokenView>, pos: int)
    ensures
        g_for(toks, pos).value matches Ok(stmt) ==> shaped_stmt(stmt) && plain(stmt),
    decreases remaining(toks, pos), 22nat,
{
    reveal(g_for);
    if consume(toks, pos, TokenType::LeftParen, "Expect '(' after 'for'"@).value is Ok {
        lemma_for_initializer(toks, pos + 1);
        let first = g_for_initializer(toks, pos + 1);
        match first.value {
            Ok(initializer) => {
                lemma_optional(toks, pos + 1 + first.used, TokenType::Semicolon);
                let second = g_optional(toks, pos + 1 + first.used, TokenType::Semicolon);
                match second.value {
                    Ok(condition) => {
                        let at = pos + 1 + first.used + second.used;
                        let semicolon = consume(
                            toks,
                            at,
                            TokenType::Semicolon,
                            "Expect ';' after loop condition"@,
                        );
                        match semicolon.value {
                            Ok(semicolon) => {
                                lemma_for_tail(
                                    toks,
                                    pos,
                                    2 + first.used + second.used,
                                    initializer,
                                    condition,
                                    semicolon,
                                );
                            },
                            Err(_) => {},
                        }
                    },
                    Err(_) => {},
                }
            },
            Err(_) => {},
        }
    }
}

/// What the rule makes has the grammar's shape.
#[verifier::spinoff_prover]
proof fn lemma_for_tail(toks: Seq<TokenView>, pos: int, taken: nat, initializer: Option<StmtView>, condition: Option<ExprView>, semicolon: TokenView)
    requires
        initializer matches Some(stmt) ==> shaped_stmt(stmt),
        condition matches Some(expr) ==> shaped_expr(expr),
    ensures
        g_for_tail(toks, pos, taken, initializer, condition, semicolon).value matches Ok(stmt) ==> shaped_stmt(stmt) && plain(stmt),
    decreases remaining(toks, pos), 21nat,
{
    reveal(g_for_tail);
    lemma_optional(toks, pos + taken, TokenType::RightParen);
    let third = g_optional(toks, pos + taken, TokenType::RightParen);
    match third.value {
        Ok(increment) => {
            let close = consume(
                toks,
                pos + taken + third.used,
                TokenType::RightParen,
                "Expect ')' after 'for'"@,
            );
            match close.value {
                Ok(paren) => {
                    lemma_statement(toks, pos + taken + third.used + 1);
                    let body = g_statement(toks, pos + taken + third.used + 1);
                    match body.value {
                        Ok(body_statement) => {
                            let made = for_loop(
                                initializer,
                                condition,
                                semicolon,
                                increment,
                                paren,
                                body_statement,
                            );
                            let looping = for_loop(
                                None,
                                condition,
                                semicolon,
                                increment,
                                paren,
                                body_statement,
                            );
                            match increment {
                                Some(expression) => {
                                    let step = StmtView::Expression { expression, end: paren };
                                    assert(shaped_stmt(step));
                                    assert(plain(step));
                                },
                                None => {},
                            }
                            let tested = match condition {
                                Some(condition) => condition,
                                None => ExprView::Literal {
                                    value: crate::types::LiteralView::Bool(true),
                                    token: semicolon,
                                },
                            };
                            assert(shaped_expr(tested));
                            assert(shaped_stmt(body_statement) && plain(body_statement));
                            match increment {
                                Some(expression) => {
                                    let step = StmtView::Expression { expression, end: paren };
                                    assert(looping == StmtView::While {
                                        condition: tested,
                                        body: Box::new(body_statement),
                                        increment: Some(Box::new(step)),
                                    });
                                },
                                None => {
                                    assert(looping == StmtView::While {
                                        condition: tested,
                                        body: Box::new(body_statement),
                                        increment: None,
                                    });
                                },
                            }
                            assert(shaped_stmt(looping));
                            assert(plain(looping));
                            match initializer {
                                Some(first) => {
                                    let list = seq![first, looping];
                                    assert(made == StmtView::Block { statements: list });
                                    assert(list.len() == 2 && list[0] == first && list[1]
                                        == looping);
                                    assert(shaped_stmts(list, 0));
                                    assert(shaped_stmts(list, 1));
                                    assert(shaped_stmts(list, 2));
                                },
                                None => {},
                            }
                        },
                        Err(_) => {},
                    }
                },
                Err(_) => {},
            }
        },
        Err(_) => {},
    }
}

/// What the rule makes has the grammar's shape.
#[verifier::spinoff_prover]
proof fn lemma_statement(toks: Seq<TokenView>, pos: int)
    ensures
        g_statement(toks, pos).value matches Ok(stmt) ==> shaped_stmt(stmt) && plain(stmt),
    decreases remaining(toks, pos), 19nat,
{
    reveal(g_statement);
    if check(toks, pos, TokenType::For) {
        lemma_for(toks, pos + 1);
    } else if check(toks, pos, TokenType::If) {
        lemma_branch(toks, pos + 1);
    } else if check(toks, pos, TokenType::Print) {
        lemma_print(toks, pos + 1);
    } else if check(toks, pos, TokenType::Return) {
        lemma_return(toks, pos + 1);
    } else if check(toks, pos, TokenType::While) {
        lemma_while(toks, pos + 1);
    } else if check(toks, pos, TokenType::Break) {
    } else if check(toks, pos, TokenType::Continue) {
    } else if check(toks, pos, TokenType::LeftBrace) {
        lemma_block(toks, pos + 1, Seq::empty());
    } else {
        lemma_expression_statement(toks, pos);
    }
}

/// What the rule makes has the grammar's shape.
#[verifier::spinoff_prover]
proof fn lemma_block(toks: Seq<TokenView>, pos: int, read: Seq<StmtView>)
    requires
        shaped_stmts(read, read.len() as int),
    ensures
        g_block(toks, pos, read).value matches Ok(list) ==> shaped_stmts(list, list.len() as int),
    decreases remaining(toks, pos), 21nat,
{
    reveal(g_block);
    if check(toks, pos, TokenType::RightBrace) || at_end(toks, pos) {
    } else {
        lemma_declaration(toks, pos);
        let first = g_declaration(toks, pos);
        match first.value {
            Ok(statement) => {
                let step = at_least_one(first.used);
                lemma_shaped_stmts_push(read, statement, read.len() as int);
                lemma_block(toks, pos + step, read.push(statement));
            },
            Err(_) => {},
        }
    }
}

/// What the rule makes has the grammar's shape.
#[verifier::spinoff_prover]
proof fn lemma_vars(toks: Seq<TokenView>, pos: int, read: Seq<StmtView>)
    requires
        shaped_stmts(read, read.len() as int),
    ensures
        g_vars(toks, pos, read).value matches Ok(list) ==> shaped_stmts(list, list.len() as int),
    decreases remaining(toks, pos), 22nat,
{
    reveal(g_vars);
    if at_end(toks, pos) || check(toks, pos, TokenType::Semicolon) {
    } else {
        let name = consume(toks, pos, TokenType::Identifier, "Expect a variable name."@);
        match name.value {
            Ok(name) => {
                lemma_initializer(toks, pos + 1);
                let value = g_initializer(toks, pos + 1);
                match value.value {
                    Ok(initializer) => {
                        let at = pos + 1 + value.used;
                        let variable = StmtView::Var { name, initializer };
                        lemma_shaped_stmts_push(read, variable, read.len() as int);
                        assert(shaped_stmt(variable));
                        assert(read.push(variable)[read.len() as int] == variable);
                        assert(shaped_stmts(read.push(variable), read.len() as int + 1));
                        if check(toks, at, TokenType::Semicolon) {
                            lemma_vars(toks, at, read.push(variable));
                        } else if consume(
                            toks,
                            at,
                            TokenType::Comma,
                            "Expect ',' after value"@,
                        ).value is Ok {
                            lemma_vars(toks, at + 1, read.push(variable));
                        }
                    },
                    Err(_) => {},
                }
            },
            Err(_) => {},
        }
    }
}

/// What the rule makes has the grammar's shape.
#[verifier::spinoff_prover]
proof fn lemma_initializer(toks: Seq<TokenView>, pos: int)
    ensures
        g_initializer(toks, pos).value matches Ok(Some(expr)) ==> shaped_expr(expr),
    decreases remaining(toks, pos), 20nat,
{
    reveal(g_initializer);
    if check(toks, pos, TokenType::Equal) {
        lemma_ternary(toks, pos + 1);
    }
}

/// What the rule makes has the grammar's shape.
#[verifier::spinoff_prover]
proof fn lemma_var_declaration(toks: Seq<TokenView>, pos: int)
    ensures
        g_var_declaration(toks, pos).value matches Ok(stmt) ==> shaped_stmt(stmt),
    decreases remaining(toks, pos), 23nat,
{
    reveal(g_var_declaration);
    lemma_vars(toks, pos, Seq::empty());
}

/// What the rule makes has the grammar's shape.
#[verifier::spinoff_prover]
proof fn lemma_params(toks: Seq<TokenView>, pos: int, read: Seq<TokenView>)
    requires
        read.len() <= max_arity(),
    ensures
        g_params(toks, pos, read).value matches Ok(list) ==> list.len() <= max_arity(),
    decreases remaining(toks, pos),
{
    reveal(g_params);
    if check(toks, pos, TokenType::RightParen) {
    } else if read.len() >= max_arity() {
    } else {
        let name = consume(toks, pos, TokenType::Identifier, "Expect parameter name."@);
        match name.value {
            Ok(name) => {
                let step: nat = if check(toks, pos + 1, TokenType::Comma) {
                    2
                } else {
                    1
                };
                lemma_params(toks, pos + step, read.push(name));
            },
            Err(_) => {},
        }
    }
}

/// What the rule makes has the grammar's shape.
#[verifier::spinoff_prover]
proof fn lemma_params_and_body(toks: Seq<TokenView>, pos: int)
    ensures
        g_params_and_body(toks, pos).value matches Ok(parts) ==> parts.0.len() <= max_arity() && shaped_stmts(parts.1, parts.1.len() as int),
    decreases remaining(toks, pos), 22nat,
{
    reveal(g_params_and_body);
    lemma_params(toks, pos, Seq::empty());
    let params = g_params(toks, pos, Seq::empty());
    if params.value is Ok && consume(
        toks,
        pos + params.used,
        TokenType::RightParen,
        "Expect ')' after parameters."@,
    ).value is Ok && consume(
        toks,
        pos + params.used + 1,
        TokenType::LeftBrace,
        "Expect '{' before function body."@,
    ).value is Ok {
        lemma_block(toks, pos + params.used + 2, Seq::empty());
    }
}

/// What the rule makes has the grammar's shape.
#[verifier::spinoff_prover]
proof fn lemma_function(toks: Seq<TokenView>, pos: int, kind: FuncType)
    ensures
        g_function(toks, pos, kind).value matches Ok(stmt) ==> shaped_stmt(stmt),
    decreases remaining(toks, pos), 23nat,
{
    reveal(g_function);
    if check(toks, pos, TokenType::LeftParen) {
        lemma_params_and_body(toks, pos + 1);
        let rest = g_params_and_body(toks, pos + 1);
        match rest.value {
            Ok(parts) => {
                let made = ExprView::Lambda {
                    keyword: crate::grammar::previous(toks, pos),
                    params: parts.0,
                    body: parts.1,
                };
                assert(shaped_expr(made));
            },
            Err(_) => {},
        }
    } else if consume(
        toks,
        pos,
        TokenType::Identifier,
        "Expect "@ + kind.spec_label() + " name."@,
    ).value is Ok && consume(
        toks,
        pos + 1,
        TokenType::LeftParen,
        "Expect '(' after "@ + kind.spec_label() + " name."@,
    ).value is Ok {
        lemma_params_and_body(toks, pos + 2);
    }
}

/// What the rule makes has the grammar's shape.
#[verifier::spinoff_prover]
proof fn lemma_declaration(toks: Seq<TokenView>, pos: int)
    ensures
        g_declaration(toks, pos).value matches Ok(stmt) ==> shaped_stmt(stmt),
    decreases remaining(toks, pos), 20nat,
{
    reveal(g_declaration);
    if check(toks, pos, TokenType::Let) {
        lemma_var_declaration(toks, pos + 1);
    } else if check(toks, pos, TokenType::Func) {
        lemma_function(toks, pos + 1, FuncType::Normal);
    } else {
        lemma_statement(toks, pos);
    }
}

/// Every statement that the grammar makes of the tokens from `pos` on
/// has the grammar's shape.
#[verifier::spinoff_prover]
pub proof fn lemma_program_is_shaped(toks: Seq<TokenView>, pos: int, found: Parse)
    requires
        shaped_stmts(found.statements, found.statements.len() as int),
    ensures
        shaped_stmts(
            g_program(toks, pos, found).statements,
            g_program(toks, pos, found).statements.len() as int,
        ),
    decreases remaining(toks, pos),
{
    reveal(g_program);
    if !at_end(toks, pos) {
        lemma_declaration(toks, pos);
        let first = g_declaration(toks, pos);
        let step = at_least_one(first.used);
        match first.value {
            Ok(statement) => {
                lemma_shaped_stmts_push(
                    found.statements,
                    statement,
                    found.statements.len() as int,
                );
                lemma_program_is_shaped(
                    toks,
                    pos + step,
                    Parse { statements: found.statements.push(statement), errors: found.errors },
                );
            },
            Err(error) => {
                lemma_program_is_shaped(
                    toks,
                    pos + step,
                    Parse { statements: found.statements, errors: found.errors.push(error) },
                );
            },
        }
    }
}

} // verus!
