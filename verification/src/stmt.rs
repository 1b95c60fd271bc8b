//! Statements of the syntax tree.

use vstd::prelude::*;
use crate::expr::{expr_view, Expression, ExprView};
use crate::token::{token_views, Token, TokenView};
use crate::types::FuncType;

verus! {

#[derive(Debug)]
#[allow(inconsistent_fields)]
pub enum Statement {
    /// `expression;` with `end` the semicolon.
    ExpressionStatement { expression: Expression, end: Token },
    /// `print expression;`
    PrintStatement { expression: Expression, keyword: Token },
    /// One variable of a `let`.
    VarStatement { name: Token, initializer: Option<Expression> },
    /// `let a = .., b = ..;`
    MultiVarStatement { vars: Vec<Statement> },
    /// `{ statements }`
    BlockStatement { statements: Vec<Statement> },
    /// `if (condition) then_branch else else_branch`
    BranchStatement {
        condition: Expression,
        then_branch: Box<Statement>,
        else_branch: Option<Box<Statement>>,
    },
    /// `while (condition) body`; for a `for` loop, `increment` is what runs
    /// after the body and before the condition is looked at again, also
    /// when the body was left by `continue`.
    WhileStatement { condition: Expression, body: Box<Statement>, increment: Option<Box<Statement>> },
    ContinueStatement { token: Token },
    BreakStatement { token: Token },
    /// `func name(params) { body }`
    FunctionStatement { name: Token, params: Vec<Token>, body: Vec<Statement>, function_type: FuncType },
    /// `return value;`
    ReturnStatement { key_word: Token, value: Option<Expression> },
    ClassStatement { name: Token, methods: Vec<Statement>, static_methods: Vec<Statement> },
}

/// A `Statement` with its texts as sequences of characters and its lists
/// as sequences.
#[allow(inconsistent_fields)]
pub enum StmtView {
    Expression { expression: ExprView, end: TokenView },
    Print { expression: ExprView, keyword: TokenView },
    Var { name: TokenView, initializer: Option<ExprView> },
    MultiVar { vars: Seq<StmtView> },
    Block { statements: Seq<StmtView> },
    Branch { condition: ExprView, then_branch: Box<StmtView>, else_branch: Option<Box<StmtView>> },
    While { condition: ExprView, body: Box<StmtView>, increment: Option<Box<StmtView>> },
    Continue { token: TokenView },
    Break { token: TokenView },
    Function {
        name: TokenView,
        params: Seq<TokenView>,
        body: Seq<StmtView>,
        function_type: FuncType,
    },
    Return { key_word: TokenView, value: Option<ExprView> },
    Class { name: TokenView, methods: Seq<StmtView>, static_methods: Seq<StmtView> },
}

pub open spec fn stmt_view(stmt: Statement) -> StmtView
    decreases stmt, 0nat,
{
    match stmt {
        Statement::ExpressionStatement { expression, end } => StmtView::Expression {
            expression: expr_view(expression),
            end: end@,
        },
        Statement::PrintStatement { expression, keyword } => StmtView::Print {
            expression: expr_view(expression),
            keyword: keyword@,
        },
        Statement::VarStatement { name, initializer } => StmtView::Var {
            name: name@,
            initializer: match initializer {
                Some(init) => Some(expr_view(init)),
                None => None,
            },
        },
        Statement::MultiVarStatement { vars } => StmtView::MultiVar {
            vars: stmt_views(vars@, vars@.len() as int),
        },
        Statement::BlockStatement { statements } => StmtView::Block {
            statements: stmt_views(statements@, statements@.len() as int),
        },
        Statement::BranchStatement { condition, then_branch, else_branch } => StmtView::Branch {
            condition: expr_view(condition),
            then_branch: Box::new(stmt_view(*then_branch)),
            else_branch: match else_branch {
                Some(else_branch) => Some(Box::new(stmt_view(*else_branch))),
                None => None,
            },
        },
        Statement::WhileStatement { condition, body, increment } => StmtView::While {
            condition: expr_view(condition),
            body: Box::new(stmt_view(*body)),
            increment: match increment {
                Some(increment) => Some(Box::new(stmt_view(*increment))),
                None => None,
            },
        },
        Statement::ContinueStatement { token } => StmtView::Continue { token: token@ },
        Statement::BreakStatement { token } => StmtView::Break { token: token@ },
        Statement::FunctionStatement { name, params, body, function_type } => StmtView::Function {
            name: name@,
            params: token_views(params@),
            body: stmt_views(body@, body@.len() as int),
            function_type,
        },
        Statement::ReturnStatement { key_word, value } => StmtView::Return {
            key_word: key_word@,
            value: match value {
                Some(value) => Some(expr_view(value)),
                None => None,
            },
        },
        Statement::ClassStatement { name, methods, static_methods } => StmtView::Class {
            name: name@,
            methods: stmt_views(methods@, methods@.len() as int),
            static_methods: stmt_views(static_methods@, static_methods@.len() as int),
        },
    }
}

/// The views of the first `n` of the statements.
pub open spec fn stmt_views(stmts: Seq<Statement>, n: int) -> Seq<StmtView>
    decreases stmts, n,
{
    if n <= 0 || n > stmts.len() {
        Seq::empty()
    } else {
        stmt_views(stmts, n - 1).push(stmt_view(stmts[n - 1]))
    }
}

impl View for Statement {
    type V = StmtView;

    open spec fn view(&self) -> StmtView {
        stmt_view(*self)
    }
}

/// The views of the first statements of a list do not depend on the rest
/// of the list.
pub proof fn lemma_stmt_views_prefix(a: Seq<Statement>, b: Seq<Statement>, n: int)
    requires
        0 <= n <= a.len(),
        n <= b.len(),
        forall|i: int| 0 <= i < n ==> a[i] == b[i],
    ensures
        stmt_views(a, n) == stmt_views(b, n),
    decreases n,
{
    if n > 0 {
        lemma_stmt_views_prefix(a, b, n - 1);
    }
}

/// The views of a list with one statement more.
pub proof fn lemma_stmt_views_push(list: Seq<Statement>, last: Statement)
    ensures
        stmt_views(list.push(last), list.len() as int + 1) == stmt_views(list, list.len() as int).push(
            stmt_view(last),
        ),
{
    lemma_stmt_views_prefix(list.push(last), list, list.len() as int);
}

/// The list of views is as long as the list, and holds the views of its
/// members.
pub proof fn lemma_stmt_views_len(list: Seq<Statement>, n: int)
    requires
        0 <= n <= list.len(),
    ensures
        stmt_views(list, n).len() == n,
        forall|i: int| 0 <= i < n ==> stmt_views(list, n)[i] == stmt_view(list[i]),
    decreases n,
{
    if n > 0 {
        lemma_stmt_views_len(list, n - 1);
    }
}

} // verus!
