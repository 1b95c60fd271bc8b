//! The table of locals at the boundaries of statements.
//!
//! The compiler keeps the stack in step with its table of locals: the code
//! of an expression leaves the table as it is, and the code of a statement
//! adds to it the locals that the statement declares in the scope it
//! stands in, and nothing else.

use vstd::prelude::*;
use crate::emitter::{c_expr, c_exprs, c_function, c_loop_end, c_stmt, c_stmts, lemma_pops, Emitter};
use crate::environment::{all_deeper, kept, ScopesView, Table};
use crate::expr::ExprView;
use crate::stmt::StmtView;

verus! {

/// The locals that a statement declares in the scope it stands in, at
/// `depth`: at depth 0 none, for there a declaration makes a global; and
/// none for a block, whose locals are gone where it ends.
pub open spec fn declared(stmt: StmtView, depth: usize) -> Table
    decreases stmt, 0nat,
{
    match stmt {
        StmtView::Var { name, initializer } => if depth > 0 {
            seq![(name.lexeme, depth)]
        } else {
            Seq::empty()
        },
        StmtView::Function { name, params, body, function_type } => if depth > 0 {
            seq![(name.lexeme, depth)]
        } else {
            Seq::empty()
        },
        StmtView::MultiVar { vars } => declared_all(vars, vars.len() as int, depth),
        StmtView::Branch { condition, then_branch, else_branch } => declared(*then_branch, depth)
            + (match else_branch {
            Some(else_branch) => declared(*else_branch, depth),
            None => Seq::empty(),
        }),
        StmtView::While { condition, body, increment } => declared(*body, depth) + (
        match increment {
            Some(increment) => declared(*increment, depth),
            None => Seq::empty(),
        }),
        _ => Seq::empty(),
    }
}

/// The locals that the first `n` of the statements declare in the scope
/// they stand in.
pub open spec fn declared_all(stmts: Seq<StmtView>, n: int, depth: usize) -> Table
    decreases stmts, n,
{
    if n <= 0 || n > stmts.len() {
        Seq::empty()
    } else {
        declared_all(stmts, n - 1, depth) + declared(stmts[n - 1], depth)
    }
}

/// Whether every entry of the table is declared at `depth`.
pub open spec fn all_at(table: Table, depth: usize) -> bool {
    forall|i: int| 0 <= i < table.len() ==> table[i].1 == depth
}

/// What a statement declares, it declares at the depth it stands at.
pub proof fn lemma_declared_at_depth(stmt: StmtView, depth: usize)
    ensures
        all_at(declared(stmt, depth), depth),
    decreases stmt, 0nat,
{
    match stmt {
        StmtView::MultiVar { vars } => {
            lemma_declared_all_at_depth(vars, vars.len() as int, depth);
        },
        StmtView::Branch { condition, then_branch, else_branch } => {
            lemma_declared_at_depth(*then_branch, depth);
            match else_branch {
                Some(else_branch) => {
                    lemma_declared_at_depth(*else_branch, depth);
                },
                None => {},
            }
        },
        StmtView::While { condition, body, increment } => {
            lemma_declared_at_depth(*body, depth);
            match increment {
                Some(increment) => {
                    lemma_declared_at_depth(*increment, depth);
                },
                None => {},
            }
        },
        _ => {},
    }
}

pub proof fn lemma_declared_all_at_depth(stmts: Seq<StmtView>, n: int, depth: usize)
    ensures
        all_at(declared_all(stmts, n, depth), depth),
    decreases stmts, n,
{
    if 0 < n <= stmts.len() {
        lemma_declared_all_at_depth(stmts, n - 1, depth);
        lemma_declared_at_depth(stmts[n - 1], depth);
    }
}

/// Entries declared deeper, put behind a table of entries that are not,
/// are the ones that are not kept.
proof fn lemma_kept_under(table: Table, more: Table, depth: int)
    requires
        forall|i: int| 0 <= i < table.len() ==> table[i].1 <= depth,
        forall|i: int| 0 <= i < more.len() ==> more[i].1 > depth,
    ensures
        kept(table + more, depth) == table.len(),
    decreases more.len(),
{
    let all = table + more;
    if more.len() == 0 {
        assert(all =~= table);
        if table.len() > 0 {
            assert(table.last() == table[table.len() - 1]);
        }
    } else {
        assert(all.last() == more[more.len() - 1]);
        assert(all.drop_last() =~= table + more.drop_last());
        lemma_kept_under(table, more.drop_last(), depth);
    }
}

/// Making waiting jumps lead to their target changes nothing but the
/// jumps.
proof fn lemma_patched_all(emitter: Emitter, waiting: Seq<usize>, from: int, to: int)
    ensures
        emitter.patched_all(waiting, from, to).scopes == emitter.scopes,
        emitter.patched_all(waiting, from, to).loop_body_depth == emitter.loop_body_depth,
    decreases to - from,
{
    if !(to <= from || to > waiting.len() || from < 0) {
        lemma_patched_all(emitter, waiting, from, to - 1);
    }
}

/// The code of an expression leaves the table of locals as it is.
#[verifier::spinoff_prover]
pub proof fn lemma_expression_keeps_table(expr: ExprView, emitter: Emitter)
    ensures
        c_expr(expr, emitter) matches Ok(after) ==> after.scopes == emitter.scopes
            && after.loop_body_depth == emitter.loop_body_depth,
    decreases expr, 0nat,
{
    reveal(c_expr);
    match expr {
        ExprView::Assign { name, value } => {
            lemma_expression_keeps_table(*value, emitter);
        },
        ExprView::Binary { left, op, right } => {
            lemma_expression_keeps_table(*left, emitter);
            if c_expr(*left, emitter) is Ok {
                lemma_expression_keeps_table(*right, c_expr(*left, emitter)->Ok_0);
            }
        },
        ExprView::Call { callee, paren, arguments } => {
            lemma_expression_keeps_table(*callee, emitter);
            if c_expr(*callee, emitter) is Ok {
                lemma_expressions_keep_table(
                    arguments,
                    arguments.len() as int,
                    c_expr(*callee, emitter)->Ok_0,
                );
            }
        },
        ExprView::Grouping { expression } => {
            lemma_expression_keeps_table(*expression, emitter);
        },
        ExprView::Logical { left, op, right } => {
            lemma_expression_keeps_table(*left, emitter);
            if c_expr(*left, emitter) is Ok {
                let first = c_expr(*left, emitter)->Ok_0;
                let jump = if op.token_type == crate::types::TokenType::And {
                    crate::bytecode::OpView::JumpIfFalse(0)
                } else {
                    crate::bytecode::OpView::JumpIfTrue(0)
                };
                lemma_expression_keeps_table(
                    *right,
                    first.emit(jump, op.position).emit(crate::bytecode::OpView::Pop, (0, 0)),
                );
            }
        },
        ExprView::Ternary { condition, true_value, false_value } => {
            lemma_expression_keeps_table(*condition, emitter);
            if c_expr(*condition, emitter) is Ok {
                let first = c_expr(*condition, emitter)->Ok_0;
                let jump_false = first.codes.len() as int;
                let branched = first.emit(crate::bytecode::OpView::JumpIfFalse(0), (0, 0)).emit(
                    crate::bytecode::OpView::Pop,
                    (0, 0),
                );
                lemma_expression_keeps_table(*true_value, branched);
                if c_expr(*true_value, branched) is Ok {
                    let second = c_expr(*true_value, branched)->Ok_0;
                    let joined = second.emit(crate::bytecode::OpView::Jump(0), (0, 0)).patched(
                        jump_false,
                    ).emit(crate::bytecode::OpView::Pop, (0, 0));
                    lemma_expression_keeps_table(*false_value, joined);
                }
            }
        },
        ExprView::Unary { op, right } => {
            lemma_expression_keeps_table(*right, emitter);
        },
        ExprView::OperateAndAssign { name, op, value } => {
            lemma_expression_keeps_table(*value, emitter);
        },
        _ => {},
    }
}

/// The code of expressions leaves the table of locals as it is.
#[verifier::spinoff_prover]
pub proof fn lemma_expressions_keep_table(exprs: Seq<ExprView>, n: int, emitter: Emitter)
    ensures
        c_exprs(exprs, n, emitter) matches Ok(after) ==> after.scopes == emitter.scopes
            && after.loop_body_depth == emitter.loop_body_depth,
    decreases exprs, n,
{
    reveal(c_exprs);
    if 0 < n <= exprs.len() {
        lemma_expressions_keep_table(exprs, n - 1, emitter);
        if c_exprs(exprs, n - 1, emitter) is Ok {
            lemma_expression_keeps_table(exprs[n - 1], c_exprs(exprs, n - 1, emitter)->Ok_0);
        }
    }
}

/// Whether the table of `after` is the table of `before` and behind it the
/// locals `more`, at the same depth and inside the same loop, and in
/// order.
pub open spec fn grown(before: Emitter, after: Emitter, more: Table) -> bool {
    &&& after.scopes.variables == before.scopes.variables + more
    &&& after.scopes.depth == before.scopes.depth
    &&& after.loop_body_depth == before.loop_body_depth
    &&& after.scopes.wf()
}

/// A local declared at the current depth joins the table at its end, and
/// the table stays in order.
proof fn lemma_declare_grows_table(emitter: Emitter, name: crate::token::TokenView)
    requires
        emitter.scopes.wf(),
    ensures
        emitter.declare(name) matches Ok(after) ==> grown(
            emitter,
            after,
            seq![(name.lexeme, emitter.scopes.depth)],
        ) && after.codes == emitter.codes,
{
    if emitter.declare(name) is Ok {
        let after = emitter.declare(name)->Ok_0;
        let table = after.scopes.variables;
        let before = emitter.scopes.variables;
        let depth = emitter.scopes.depth;
        assert(table =~= before + seq![(name.lexeme, depth)]);
        assert forall|i: int, j: int| 0 <= i <= j < table.len() implies table[i].1
            <= table[j].1 by {
            if j == table.len() - 1 && i < j {
                assert(before[i].1 <= depth);
            }
        }
        assert forall|i: int, j: int|
            0 <= i < j < table.len() && table[i].1 == table[j].1 implies table[i].0
            != table[j].0 by {
            if j == table.len() - 1 {
                assert(before[i].0 == name.lexeme ==> before[i].1 != depth);
            }
        }
    }
}

/// Table discipline at the boundaries of a statement. Where the table of
/// locals is in order in front of a statement, it is in order behind it,
/// and it is the table in front of the statement and behind it the locals
/// that the statement declares in the scope it stands in; the depth is the
/// same, and so is the loop that the statement stands in.
#[verifier::spinoff_prover]
#[verifier::rlimit(60)]
pub proof fn lemma_statement_grows_table(stmt: StmtView, emitter: Emitter)
    requires
        emitter.scopes.wf(),
    ensures
        c_stmt(stmt, emitter) matches Ok(after) ==> grown(
            emitter,
            after,
            declared(stmt, emitter.scopes.depth),
        ),
    decreases stmt, 0nat,
{
    reveal(c_stmt);
    let depth = emitter.scopes.depth;
    let table = emitter.scopes.variables;
    assert(table + Seq::<(Seq<char>, usize)>::empty() =~= table);
    match stmt {
        StmtView::Expression { expression, end } => {
            lemma_expression_keeps_table(expression, emitter);
        },
        StmtView::Print { expression, keyword } => {
            lemma_expression_keeps_table(expression, emitter);
        },
        StmtView::Var { name, initializer } => {
            match initializer {
                Some(init) => {
                    lemma_expression_keeps_table(init, emitter);
                    if c_expr(init, emitter) is Ok {
                        lemma_declare_grows_table(c_expr(init, emitter)->Ok_0, name);
                    }
                },
                None => {
                    lemma_declare_grows_table(
                        emitter.emit(
                            crate::bytecode::OpView::Load(crate::bytecode::ConstView::Nil),
                            name.position,
                        ),
                        name,
                    );
                },
            }
        },
        StmtView::MultiVar { vars } => {
            lemma_statements_grow_table(vars, vars.len() as int, emitter);
        },
        StmtView::Block { statements } => {
            if depth < usize::MAX {
                let entered = emitter.with_scopes(
                    ScopesView { variables: table, depth: (depth + 1) as usize },
                );
                lemma_statements_grow_table(statements, statements.len() as int, entered);
                if c_stmts(statements, statements.len() as int, entered) is Ok {
                    let inside = c_stmts(statements, statements.len() as int, entered)->Ok_0;
                    let more = declared_all(
                        statements,
                        statements.len() as int,
                        (depth + 1) as usize,
                    );
                    lemma_declared_all_at_depth(
                        statements,
                        statements.len() as int,
                        (depth + 1) as usize,
                    );
                    lemma_kept_under(table, more, depth as int);
                    assert((table + more).subrange(0, table.len() as int) =~= table);
                    lemma_pops(
                        inside.with_scopes(inside.scopes.ended()),
                        all_deeper(inside.scopes.variables, inside.scopes.depth - 1),
                    );
                }
            }
        },
        StmtView::Branch { condition, then_branch, else_branch } => {
            lemma_expression_keeps_table(condition, emitter);
            if c_expr(condition, emitter) is Ok {
                let first = c_expr(condition, emitter)->Ok_0;
                let jump_false = first.codes.len() as int;
                let branched = first.emit(crate::bytecode::OpView::JumpIfFalse(0), (0, 0)).emit(
                    crate::bytecode::OpView::Pop,
                    (0, 0),
                );
                lemma_statement_grows_table(*then_branch, branched);
                if c_stmt(*then_branch, branched) is Ok {
                    let second = c_stmt(*then_branch, branched)->Ok_0;
                    let joined = second.emit(crate::bytecode::OpView::Jump(0), (0, 0)).patched(
                        jump_false,
                    ).emit(crate::bytecode::OpView::Pop, (0, 0));
                    match else_branch {
                        Some(else_branch) => {
                            lemma_statement_grows_table(*else_branch, joined);
                            assert(table + declared(*then_branch, depth) + declared(
                                *else_branch,
                                depth,
                            ) =~= table + (declared(*then_branch, depth) + declared(
                                *else_branch,
                                depth,
                            )));
                        },
                        None => {
                            assert(table + declared(*then_branch, depth) =~= table + (declared(
                                *then_branch,
                                depth,
                            ) + Seq::<(Seq<char>, usize)>::empty()));
                        },
                    }
                }
            }
        },
        StmtView::While { condition, body, increment } => {
            let entered = Emitter { loop_body_depth: depth, ..emitter };
            lemma_expression_keeps_table(condition, entered);
            if c_expr(condition, entered) is Ok {
                let first = c_expr(condition, entered)->Ok_0;
                let branched = first.emit(crate::bytecode::OpView::JumpIfFalse(0), (0, 0)).emit(
                    crate::bytecode::OpView::Pop,
                    (0, 0),
                );
                lemma_statement_grows_table(*body, branched);
                if c_stmt(*body, branched) is Ok {
                    let second = c_stmt(*body, branched)->Ok_0;
                    lemma_patched_all(
                        second,
                        second.continues,
                        emitter.continues.len() as int,
                        second.continues.len() as int,
                    );
                    let resumed = Emitter {
                        continues: crate::emitter::cut(
                            second.continues,
                            emitter.continues.len() as int,
                        ),
                        ..second.patched_all(
                            second.continues,
                            emitter.continues.len() as int,
                            second.continues.len() as int,
                        )
                    };
                    let third = match increment {
                        Some(increment) => {
                            lemma_statement_grows_table(*increment, resumed);
                            assert(table + declared(*body, depth) + declared(*increment, depth)
                                =~= table + (declared(*body, depth) + declared(
                                *increment,
                                depth,
                            )));
                            c_stmt(*increment, resumed)
                        },
                        None => {
                            assert(table + declared(*body, depth) =~= table + (declared(
                                *body,
                                depth,
                            ) + Seq::<(Seq<char>, usize)>::empty()));
                            Ok(resumed)
                        },
                    };
                    if third is Ok {
                        let closed = third->Ok_0.emit(
                            crate::bytecode::OpView::JumpForward(
                                (third->Ok_0.codes.len() - emitter.codes.len() + 1) as usize,
                            ),
                            (0, 0),
                        ).patched(first.codes.len() as int).emit(
                            crate::bytecode::OpView::Pop,
                            (0, 0),
                        );
                        lemma_patched_all(
                            closed,
                            closed.breaks,
                            emitter.breaks.len() as int,
                            closed.breaks.len() as int,
                        );
                    }
                }
            }
        },
        StmtView::Continue { token } => {
            lemma_pops(emitter, all_deeper(table, emitter.loop_body_depth as int));
        },
        StmtView::Break { token } => {
            lemma_pops(emitter, all_deeper(table, emitter.loop_body_depth as int));
        },
        StmtView::Function { name, params, body, function_type } => {
            let compiled = c_function(
                name.lexeme,
                params,
                body,
                crate::types::FuncType::Normal,
                emitter.lambdas,
            );
            if compiled is Ok {
                let holder = Emitter { lambdas: compiled->Ok_0.1, ..emitter };
                lemma_declare_grows_table(
                    holder.emit(
                        crate::bytecode::OpView::Load(
                            crate::bytecode::ConstView::Function(compiled->Ok_0.0),
                        ),
                        name.position,
                    ),
                    name,
                );
            }
        },
        StmtView::Return { key_word, value } => {
            let marked = Emitter { is_returned: true, ..emitter };
            match value {
                Some(value) => {
                    lemma_expression_keeps_table(value, marked);
                },
                None => {},
            }
        },
        StmtView::Class { name, methods, static_methods } => {},
    }
}

/// Table discipline at the boundaries of statements that follow one
/// another: behind them the table holds, behind what it held in front of
/// them, the locals that they declare in the scope they stand in, in the
/// order of their declaration.
#[verifier::spinoff_prover]
pub proof fn lemma_statements_grow_table(stmts: Seq<StmtView>, n: int, emitter: Emitter)
    requires
        emitter.scopes.wf(),
    ensures
        c_stmts(stmts, n, emitter) matches Ok(after) ==> grown(
            emitter,
            after,
            declared_all(stmts, n, emitter.scopes.depth),
        ),
    decreases stmts, n,
{
    reveal(c_stmts);
    let depth = emitter.scopes.depth;
    let table = emitter.scopes.variables;
    if 0 < n <= stmts.len() {
        lemma_statements_grow_table(stmts, n - 1, emitter);
        if c_stmts(stmts, n - 1, emitter) is Ok {
            let before = c_stmts(stmts, n - 1, emitter)->Ok_0;
            lemma_statement_grows_table(stmts[n - 1], before);
            assert(table + declared_all(stmts, n - 1, depth) + declared(stmts[n - 1], depth)
                =~= table + (declared_all(stmts, n - 1, depth) + declared(stmts[n - 1], depth)));
        }
    } else {
        assert(table + Seq::<(Seq<char>, usize)>::empty() =~= table);
    }
}

} // verus!
