//! Stack discipline of compiled code.
//!
//! Code is in step with the stack if every instruction can be given a
//! height, the number of values that lie on the stack above the base of
//! the running function when the instruction is reached, such that every
//! way to reach the instruction arrives with that height, and the stack
//! is high enough there for what the instruction takes. From tidy
//! statements the compiler writes such code, and the height between two
//! statements is the number of locals in the table at that place.

use vstd::prelude::*;
use crate::bytecode::{ConstView, FunctionView, OpView};
use crate::discipline::{
    declared, declared_all, lemma_declared_all_at_depth,
    lemma_statement_grows_table, lemma_statements_grow_table,
};
use crate::emitter::{c_expr, c_exprs, c_function, c_loop_end, c_program, c_stmt, c_stmts, cut, Emitter};
use crate::environment::{all_deeper, deeper, kept, lemma_deeper_are_last, ScopesView, Table};
use crate::error::Position;
use crate::expr::ExprView;
use crate::stmt::StmtView;
use crate::token::TokenView;
use crate::types::{FuncType, Function, TokenType};

verus! {

/// By how much an instruction makes the stack grow, as the function that
/// holds it sees it: a call takes the arguments away and leaves the result
/// in the place of the callee.
pub open spec fn effect(code: OpView) -> int {
    match code {
        OpView::Load(_) | OpView::GetGlobal(_) | OpView::GetLocal(_) => 1,
        OpView::Add
        | OpView::Sub
        | OpView::Mul
        | OpView::Div
        | OpView::Mod
        | OpView::Eq
        | OpView::Less
        | OpView::Greater
        | OpView::Print
        | OpView::Pop
        | OpView::DefineGlobal(_) => -1,
        OpView::Call(argc) => -(argc as int),
        _ => 0,
    }
}

/// How many values an instruction takes from the stack of the function
/// that holds it, or looks at there: a call its arguments and the callee.
pub open spec fn needs(code: OpView) -> int {
    match code {
        OpView::Add
        | OpView::Sub
        | OpView::Mul
        | OpView::Div
        | OpView::Mod
        | OpView::Eq
        | OpView::Less
        | OpView::Greater => 2,
        OpView::Load(_)
        | OpView::GetGlobal(_)
        | OpView::GetLocal(_)
        | OpView::Jump(_)
        | OpView::JumpForward(_) => 0,
        OpView::Call(argc) => argc + 1,
        _ => 1,
    }
}

/// Whether the stack is high enough for the instruction at `i`.
pub open spec fn enough(codes: Seq<OpView>, at: Seq<int>, i: int) -> bool {
    at[i] >= needs(codes[i])
}

/// Whether the heights agree along every way that leads on from the
/// instruction at `i`: to the next instruction, and for a jump to its
/// target, which lies within the code or at its end.
pub open spec fn edge_ok(codes: Seq<OpView>, at: Seq<int>, i: int) -> bool {
    match codes[i] {
        OpView::Return => true,
        OpView::Jump(offset) => i + 1 + offset <= codes.len() && at[i + 1 + offset] == at[i],
        OpView::JumpIfTrue(offset) => i + 1 + offset <= codes.len() && at[i + 1] == at[i] && at[i
            + 1 + offset] == at[i],
        OpView::JumpIfFalse(offset) => i + 1 + offset <= codes.len() && at[i + 1] == at[i] && at[i
            + 1 + offset] == at[i],
        OpView::JumpForward(offset) => offset <= i + 1 && at[i + 1 - offset] == at[i],
        code => at[i + 1] == at[i] + effect(code),
    }
}

/// What is asked of a forward jump that still waits for its target: a
/// conditional jump leads on to the next instruction with the same height.
pub open spec fn hole_ok(codes: Seq<OpView>, at: Seq<int>, i: int) -> bool {
    match codes[i] {
        OpView::Jump(_) => true,
        OpView::JumpIfTrue(_) => at[i + 1] == at[i],
        OpView::JumpIfFalse(_) => at[i + 1] == at[i],
        _ => false,
    }
}

/// The height with which a function is entered: the program with an
/// empty stack above its base, any other function with itself and its
/// arguments.
pub open spec fn entry_height(function: FunctionView) -> int {
    if function.func_type == FuncType::Main {
        0
    } else {
        function.arity + 1
    }
}

/// Whether `at` gives every instruction of the code a height, and one to
/// its end, none of them negative, such that the stack is high enough for
/// every instruction and the heights agree along every way from
/// instruction to instruction. Code too long for the machine to
/// hold is never run, and only the count of its heights is asked.
pub open spec fn in_step(codes: Seq<OpView>, at: Seq<int>) -> bool {
    &&& at.len() == codes.len() + 1
    &&& forall|i: int| 0 <= i < at.len() ==> #[trigger] at[i] >= 0
    &&& forall|i: int| 0 <= i < codes.len() ==> #[trigger] enough(codes, at, i)
    &&& codes.len() <= usize::MAX ==> forall|i: int|
        0 <= i < codes.len() ==> #[trigger] edge_ok(codes, at, i)
}

/// Whether the code of the function is in step with the stack, from the
/// height with which the function is entered, and so is the code of every
/// function that it loads.
pub open spec fn disciplined(function: FunctionView) -> bool
    decreases function, 0nat,
{
    &&& exists|at: Seq<int>| #[trigger] in_step(function.codes, at) && at[0] == entry_height(function)
    &&& loads_disciplined(function.codes, function.codes.len() as int)
}

/// Whether the function can be called: it is disciplined, and it is not
/// a program.
pub open spec fn callable(function: FunctionView) -> bool
    decreases function, 1nat,
{
    disciplined(function) && function.func_type != FuncType::Main
}

/// Whether every function that the first `n` instructions load can be
/// called.
pub open spec fn loads_disciplined(codes: Seq<OpView>, n: int) -> bool
    decreases codes, n, 0nat,
{
    if n <= 0 || n > codes.len() {
        true
    } else {
        &&& loads_disciplined(codes, n - 1)
        &&& match codes[n - 1] {
            OpView::Load(ConstView::Function(inner)) => callable(inner),
            _ => true,
        }
    }
}

/// The heights of the code written so far, and the forward jumps in it
/// that still wait for their targets.
pub struct Typing {
    pub at: Seq<int>,
    pub holes: Set<int>,
}

/// Whether the instruction at `i` is as it should be: a waiting jump as a
/// waiting jump, any other instruction with agreeing heights.
pub open spec fn step_ok(codes: Seq<OpView>, typing: Typing, i: int) -> bool {
    if typing.holes.contains(i) {
        hole_ok(codes, typing.at, i)
    } else {
        edge_ok(codes, typing.at, i)
    }
}

/// Whether the code written so far is in step with the stack, but for the
/// jumps that wait for their targets; the jumps of `break` and `continue`
/// that wait are among them, each list in the order in which they were
/// written. Of code too long for the machine to hold only the shape is
/// asked.
#[verifier::opaque]
pub open spec fn typed(emitter: Emitter, typing: Typing) -> bool {
    &&& typing.at.len() == emitter.codes.len() + 1
    &&& forall|i: int| 0 <= i < typing.at.len() ==> #[trigger] typing.at[i] >= 0
    &&& forall|i: int|
        0 <= i < emitter.codes.len() ==> #[trigger] enough(emitter.codes, typing.at, i)
    &&& forall|i: int| #[trigger] typing.holes.contains(i) ==> 0 <= i < emitter.codes.len()
    &&& typing.holes.finite()
    &&& loads_disciplined(emitter.codes, emitter.codes.len() as int)
    &&& fits(emitter) ==> listed(emitter, typing) && forall|i: int|
        0 <= i < emitter.codes.len() ==> #[trigger] step_ok(emitter.codes, typing, i)
}

/// Whether the machine can hold the code: its length is a `usize`.
pub open spec fn fits(emitter: Emitter) -> bool {
    emitter.codes.len() <= usize::MAX
}

/// Whether the jumps of `break` and `continue` that wait are among the
/// waiting jumps, each list in the order in which they were written, and
/// no jump in both.
pub open spec fn listed(emitter: Emitter, typing: Typing) -> bool {
    &&& forall|k: int|
        0 <= k < emitter.breaks.len() ==> typing.holes.contains(#[trigger] emitter.breaks[k] as int)
    &&& forall|k: int|
        0 <= k < emitter.continues.len() ==> typing.holes.contains(
            #[trigger] emitter.continues[k] as int,
        )
    &&& forall|j: int, k: int|
        0 <= j < k < emitter.breaks.len() ==> emitter.breaks[j] < emitter.breaks[k]
    &&& forall|j: int, k: int|
        0 <= j < k < emitter.continues.len() ==> emitter.continues[j] < emitter.continues[k]
    &&& forall|j: int, k: int|
        0 <= j < emitter.breaks.len() && 0 <= k < emitter.continues.len() ==> emitter.breaks[j]
            != emitter.continues[k]
}

/// The height at the end of the code written so far.
pub open spec fn now(typing: Typing) -> int {
    typing.at[typing.at.len() - 1]
}

/// What the shape of code in step gives: a height for every instruction
/// and one for the end, none negative; and every waiting jump within the
/// code, those of `break` and `continue` among them.
pub proof fn lemma_shape(emitter: Emitter, typing: Typing)
    requires
        typed(emitter, typing),
    ensures
        typing.at.len() == emitter.codes.len() + 1,
        now(typing) >= 0,
        forall|i: int| 0 <= i < typing.at.len() ==> #[trigger] typing.at[i] >= 0,
        forall|i: int| #[trigger] typing.holes.contains(i) ==> 0 <= i < emitter.codes.len(),
        typing.holes.finite(),
        fits(emitter) ==> listed(emitter, typing),
        fits(emitter) ==> forall|k: int|
            0 <= k < emitter.breaks.len() ==> 0 <= #[trigger] emitter.breaks[k]
                < emitter.codes.len(),
        fits(emitter) ==> forall|k: int|
            0 <= k < emitter.continues.len() ==> 0 <= #[trigger] emitter.continues[k]
                < emitter.codes.len(),
{
    reveal(typed);
    assert(typing.at[typing.at.len() - 1] >= 0);
    if fits(emitter) {
        assert forall|k: int| 0 <= k < emitter.breaks.len() implies 0
            <= #[trigger] emitter.breaks[k] < emitter.codes.len() by {
            assert(typing.holes.contains(emitter.breaks[k] as int));
        }
        assert forall|k: int| 0 <= k < emitter.continues.len() implies 0
            <= #[trigger] emitter.continues[k] < emitter.codes.len() by {
            assert(typing.holes.contains(emitter.continues[k] as int));
        }
    }
}

/// Whether the code is in step depends on the code and on the jumps of
/// `break` and `continue` that wait, and on nothing else.
pub proof fn lemma_same_code(emitter: Emitter, typing: Typing, other: Emitter)
    requires
        typed(emitter, typing),
        other.codes == emitter.codes,
        other.breaks == emitter.breaks,
        other.continues == emitter.continues,
    ensures
        typed(other, typing),
{
    reveal(typed);
}

/// Code that loads the same functions as code whose loads are disciplined
/// loads only disciplined functions.
pub proof fn lemma_loads_kept(a: Seq<OpView>, b: Seq<OpView>, n: int)
    requires
        0 <= n <= a.len(),
        a.len() <= b.len(),
        forall|i: int| 0 <= i < n ==> (a[i] is Load || b[i] is Load) ==> a[i] == b[i],
        loads_disciplined(a, n),
    ensures
        loads_disciplined(b, n),
    decreases n,
{
    if n > 0 {
        lemma_loads_kept(a, b, n - 1);
    }
}

/// An instruction that is no forward jump, written behind code that is in
/// step, keeps the code in step if the height behind it is the height in
/// front of it changed by the effect of the instruction; behind a return
/// any height will do, and a jump back must lead to an instruction of the
/// same height.
pub proof fn lemma_emit(emitter: Emitter, typing: Typing, code: OpView, next: int) -> (res: Typing)
    requires
        typed(emitter, typing),
        next >= 0,
        match code {
            OpView::Return => true,
            OpView::Jump(_) => false,
            OpView::JumpIfTrue(_) => false,
            OpView::JumpIfFalse(_) => false,
            OpView::JumpForward(offset) => 1 <= offset <= emitter.codes.len() + 1 && typing.at[
                emitter.codes.len() + 1 - offset] == now(typing),
            other => next == now(typing) + effect(other),
        },
        code matches OpView::Load(ConstView::Function(inner)) ==> callable(inner),
        now(typing) >= needs(code),
    ensures
        res == (Typing { at: typing.at.push(next), holes: typing.holes }),
        forall|position: Position| typed(#[trigger] emitter.emit(code, position), res),
        typing.at.len() == emitter.codes.len() + 1,
{
    reveal(typed);
    let res = Typing { at: typing.at.push(next), holes: typing.holes };
    assert forall|position: Position| typed(
        #[trigger] emitter.emit(code, position),
        res,
    ) by {
        let after = emitter.emit(code, position);
        lemma_loads_kept(emitter.codes, after.codes, emitter.codes.len() as int);
        assert forall|i: int| 0 <= i < after.codes.len() implies #[trigger] enough(
            after.codes,
            res.at,
            i,
        ) by {
            if i < emitter.codes.len() {
                assert(enough(emitter.codes, typing.at, i));
            }
        }
        assert forall|i: int|
            fits(after) && 0 <= i < after.codes.len() implies #[trigger] step_ok(
            after.codes,
            res,
            i,
        ) by {
            if i < emitter.codes.len() {
                assert(step_ok(emitter.codes, typing, i));
            }
        }
    }
    res
}

/// A forward jump written behind code that is in step waits for its
/// target; behind a conditional jump the height is the height in front of
/// it.
pub proof fn lemma_emit_hole(emitter: Emitter, typing: Typing, code: OpView, next: int) -> (res:
    Typing)
    requires
        typed(emitter, typing),
        next >= 0,
        code == OpView::Jump(0) || ((code == OpView::JumpIfTrue(0) || code == OpView::JumpIfFalse(
            0,
        )) && next == now(typing) && now(typing) >= 1),
    ensures
        res == (Typing {
            at: typing.at.push(next),
            holes: typing.holes.insert(emitter.codes.len() as int),
        }),
        forall|position: Position| typed(#[trigger] emitter.emit(code, position), res),
        typing.at.len() == emitter.codes.len() + 1,
        !typing.holes.contains(emitter.codes.len() as int),
        res.holes.len() == typing.holes.len() + 1,
{
    reveal(typed);
    let res = Typing {
        at: typing.at.push(next),
        holes: typing.holes.insert(emitter.codes.len() as int),
    };
    assert forall|position: Position| typed(#[trigger] emitter.emit(code, position), res) by {
        let after = emitter.emit(code, position);
        lemma_loads_kept(emitter.codes, after.codes, emitter.codes.len() as int);
        assert forall|i: int| 0 <= i < after.codes.len() implies #[trigger] enough(
            after.codes,
            res.at,
            i,
        ) by {
            if i < emitter.codes.len() {
                assert(enough(emitter.codes, typing.at, i));
            }
        }
        assert forall|i: int|
            fits(after) && 0 <= i < after.codes.len() implies #[trigger] step_ok(
            after.codes,
            res,
            i,
        ) by {
            if i < emitter.codes.len() {
                assert(step_ok(emitter.codes, typing, i));
                assert(typing.holes.contains(i) == res.holes.contains(i));
                assert(after.codes[i] == emitter.codes[i]);
            } else {
                assert(res.holes.contains(i));
                assert(after.codes[i] == code);
                assert(hole_ok(after.codes, res.at, i));
            }
        }
        assert forall|k: int| fits(after) && 0 <= k < after.breaks.len() implies res.holes.contains(
            #[trigger] after.breaks[k] as int,
        ) by {
            assert(typing.holes.contains(emitter.breaks[k] as int));
        }
        assert forall|k: int| fits(after) && 0 <= k < after.continues.len() implies res.holes.contains(
            #[trigger] after.continues[k] as int,
        ) by {
            assert(typing.holes.contains(emitter.continues[k] as int));
        }
    }
    res
}

/// A waiting jump that is made to lead to the end of the code waits no
/// longer, if the height at the end of the code is the height at the jump.
pub proof fn lemma_patch(emitter: Emitter, typing: Typing, index: int) -> (res: Typing)
    requires
        typed(emitter, typing),
        fits(emitter) ==> typing.holes.contains(index) && typing.at[index] == now(typing),
        fits(emitter) ==> forall|k: int| 0 <= k < emitter.breaks.len() ==> emitter.breaks[k] != index,
        fits(emitter) ==> forall|k: int|
            0 <= k < emitter.continues.len() ==> emitter.continues[k] != index,
    ensures
        res == (Typing { at: typing.at, holes: typing.holes.remove(index) }),
        typed(emitter.patched(index), res),
        emitter.patched(index).codes.len() == emitter.codes.len(),
        emitter.patched(index).breaks == emitter.breaks,
        emitter.patched(index).continues == emitter.continues,
        emitter.patched(index).scopes == emitter.scopes,
        emitter.patched(index).loop_body_depth == emitter.loop_body_depth,
        emitter.patched(index).is_returned == emitter.is_returned,
        emitter.patched(index).lambdas == emitter.lambdas,
        emitter.patched(index).func_type == emitter.func_type,
        typing.holes.contains(index) ==> res.holes.len() == typing.holes.len() - 1,
{
    reveal(typed);
    let res = Typing { at: typing.at, holes: typing.holes.remove(index) };
    let after = emitter.patched(index);
    lemma_loads_kept(emitter.codes, after.codes, emitter.codes.len() as int);
    assert forall|i: int| 0 <= i < after.codes.len() implies #[trigger] enough(
        after.codes,
        res.at,
        i,
    ) by {
        assert(enough(emitter.codes, typing.at, i));
    }
    assert forall|i: int|
        fits(after) && 0 <= i < after.codes.len() implies #[trigger] step_ok(
        after.codes,
        res,
        i,
    ) by {
        assert(step_ok(emitter.codes, typing, i));
        assert(step_ok(emitter.codes, typing, index));
        if i == index {
            assert(!res.holes.contains(i));
            assert(edge_ok(after.codes, res.at, i));
        } else {
            assert(after.codes[i] == emitter.codes[i]);
            assert(res.holes.contains(i) == typing.holes.contains(i));
        }
    }
    assert forall|k: int| fits(after) && 0 <= k < after.breaks.len() implies res.holes.contains(
        #[trigger] after.breaks[k] as int,
    ) by {
        assert(typing.holes.contains(emitter.breaks[k] as int));
    }
    assert forall|k: int| fits(after) && 0 <= k < after.continues.len() implies res.holes.contains(
        #[trigger] after.continues[k] as int,
    ) by {
        assert(typing.holes.contains(emitter.continues[k] as int));
    }
    res
}


/// Whether a statement declares nothing in the scope it stands in, whatever
/// the depth: it is no declaration, and neither are the branches or the
/// body that it runs.
pub open spec fn plain(stmt: StmtView) -> bool
    decreases stmt,
{
    match stmt {
        StmtView::Var { name, initializer } => false,
        StmtView::MultiVar { vars } => false,
        StmtView::Function { name, params, body, function_type } => false,
        StmtView::Branch { condition, then_branch, else_branch } => plain(*then_branch) && (
        match else_branch {
            Some(else_branch) => plain(*else_branch),
            None => true,
        }),
        StmtView::While { condition, body, increment } => plain(*body) && (match increment {
            Some(increment) => plain(*increment),
            None => true,
        }),
        _ => true,
    }
}

/// Whether the functions in an expression are tidy, and its calls have no
/// more arguments than the machine can count.
pub open spec fn tidy_expr(expr: ExprView) -> bool
    decreases expr, 0nat,
{
    match expr {
        ExprView::Assign { name, value } => tidy_expr(*value),
        ExprView::Binary { left, op, right } => tidy_expr(*left) && tidy_expr(*right),
        ExprView::Call { callee, paren, arguments } => tidy_expr(*callee) && arguments.len()
            <= usize::MAX && tidy_exprs(arguments, arguments.len() as int),
        ExprView::Grouping { expression } => tidy_expr(*expression),
        ExprView::Logical { left, op, right } => tidy_expr(*left) && tidy_expr(*right),
        ExprView::Ternary { condition, true_value, false_value } => tidy_expr(*condition)
            && tidy_expr(*true_value) && tidy_expr(*false_value),
        ExprView::Unary { op, right } => tidy_expr(*right),
        ExprView::Lambda { keyword, params, body } => params.len() <= usize::MAX && tidy_stmts(
            body,
            body.len() as int,
            false,
        ),
        ExprView::OperateAndAssign { name, op, value } => tidy_expr(*value),
        _ => true,
    }
}

pub open spec fn tidy_exprs(exprs: Seq<ExprView>, n: int) -> bool
    decreases exprs, n,
{
    if n <= 0 || n > exprs.len() {
        true
    } else {
        tidy_exprs(exprs, n - 1) && tidy_expr(exprs[n - 1])
    }
}

/// Whether a statement is tidy: every `break` and `continue` in it stands
/// in a loop of the function that holds it, with `in_loop` telling whether
/// the statement itself stands in one; and a declaration stands in a list
/// of statements, never alone as a branch or as the body of a loop. Of a
/// statement that is not tidy the code may leave the stack higher or
/// lower than it found it: a `break` in a function that is declared in a
/// loop, and stands in no loop of its own, takes the locals of the
/// function from the stack and goes on.
pub open spec fn tidy_stmt(stmt: StmtView, in_loop: bool) -> bool
    decreases stmt, 0nat,
{
    match stmt {
        StmtView::Expression { expression, end } => tidy_expr(expression),
        StmtView::Print { expression, keyword } => tidy_expr(expression),
        StmtView::Var { name, initializer } => match initializer {
            Some(init) => tidy_expr(init),
            None => true,
        },
        StmtView::MultiVar { vars } => tidy_stmts(vars, vars.len() as int, in_loop),
        StmtView::Block { statements } => tidy_stmts(statements, statements.len() as int, in_loop),
        StmtView::Branch { condition, then_branch, else_branch } => {
            &&& tidy_expr(condition)
            &&& plain(*then_branch)
            &&& tidy_stmt(*then_branch, in_loop)
            &&& match else_branch {
                Some(else_branch) => plain(*else_branch) && tidy_stmt(*else_branch, in_loop),
                None => true,
            }
        },
        StmtView::While { condition, body, increment } => {
            &&& tidy_expr(condition)
            &&& plain(*body)
            &&& tidy_stmt(*body, true)
            &&& match increment {
                Some(increment) => plain(*increment) && tidy_stmt(*increment, false),
                None => true,
            }
        },
        StmtView::Continue { token } => in_loop,
        StmtView::Break { token } => in_loop,
        StmtView::Function { name, params, body, function_type } => params.len() <= usize::MAX
            && tidy_stmts(body, body.len() as int, false),
        StmtView::Return { key_word, value } => match value {
            Some(value) => tidy_expr(value),
            None => true,
        },
        StmtView::Class { name, methods, static_methods } => true,
    }
}

pub open spec fn tidy_stmts(stmts: Seq<StmtView>, n: int, in_loop: bool) -> bool
    decreases stmts, n,
{
    if n <= 0 || n > stmts.len() {
        true
    } else {
        tidy_stmts(stmts, n - 1, in_loop) && tidy_stmt(stmts[n - 1], in_loop)
    }
}

/// Whether the heights of the code that was there are the same in `res`.
pub open spec fn kept_heights(typing: Typing, res: Typing) -> bool {
    &&& typing.at.len() <= res.at.len()
    &&& forall|i: int| 0 <= i < typing.at.len() ==> #[trigger] res.at[i] == typing.at[i]
}

/// What holds of the code of expressions: it is in step, it leaves `more`
/// values on the stack, and no jump in it waits for a target.
pub open spec fn values_left(
    before: Emitter,
    typing: Typing,
    after: Emitter,
    res: Typing,
    more: int,
) -> bool {
    &&& typed(after, res)
    &&& res.holes == typing.holes
    &&& kept_heights(typing, res)
    &&& now(res) == now(typing) + more
    &&& after.breaks == before.breaks
    &&& after.continues == before.continues
    &&& after.scopes == before.scopes
    &&& after.loop_body_depth == before.loop_body_depth
    &&& after.func_type == before.func_type
}

/// The instructions of a two-operand operator take one value away.
proof fn lemma_binary(emitter: Emitter, typing: Typing, token_type: TokenType, position: Position) -> (res:
    Typing)
    requires
        typed(emitter, typing),
        now(typing) >= 2,
        emitter.binary(token_type, position) is Some,
    ensures
        values_left(emitter, typing, emitter.binary(token_type, position)->0, res, -1),
{
    let below = now(typing) - 1;
    lemma_shape(emitter, typing);
    match token_type {
        TokenType::Plus => lemma_emit(emitter, typing, OpView::Add, below),
        TokenType::Minus => lemma_emit(emitter, typing, OpView::Sub, below),
        TokenType::Star => lemma_emit(emitter, typing, OpView::Mul, below),
        TokenType::Slash => lemma_emit(emitter, typing, OpView::Div, below),
        TokenType::Mod => lemma_emit(emitter, typing, OpView::Mod, below),
        TokenType::EqualEqual => lemma_emit(emitter, typing, OpView::Eq, below),
        TokenType::Greater => lemma_emit(emitter, typing, OpView::Greater, below),
        TokenType::Less => lemma_emit(emitter, typing, OpView::Less, below),
        TokenType::BangEqual => {
            let first = lemma_emit(emitter, typing, OpView::Eq, below);
            lemma_emit(emitter.emit(OpView::Eq, position), first, OpView::Not, below)
        },
        TokenType::GreaterEqual => {
            let first = lemma_emit(emitter, typing, OpView::Less, below);
            lemma_emit(emitter.emit(OpView::Less, position), first, OpView::Not, below)
        },
        TokenType::LessEqual => {
            let first = lemma_emit(emitter, typing, OpView::Greater, below);
            lemma_emit(emitter.emit(OpView::Greater, position), first, OpView::Not, below)
        },
        _ => typing,
    }
}

/// A conditional jump that waits for its target, and the `Pop` that
/// takes the tested value away where the jump is not taken.
proof fn lemma_test(first: Emitter, one: Typing, code: OpView, position: Position) -> (res: Typing)
    requires
        typed(first, one),
        now(one) >= 1,
        code == OpView::JumpIfFalse(0) || code == OpView::JumpIfTrue(0),
    ensures
        typed(first.emit(code, position).emit(OpView::Pop, (0, 0)), res),
        res.holes == one.holes.insert(first.codes.len() as int),
        !one.holes.contains(first.codes.len() as int),
        kept_heights(one, res),
        now(res) == now(one) - 1,
        res.at[first.codes.len() as int] == now(one),
        one.at.len() == first.codes.len() + 1,
{
    let waiting = lemma_emit_hole(first, one, code, now(one));
    lemma_emit(first.emit(code, position), waiting, OpView::Pop, now(one) - 1)
}

/// Where two ways join: the jump that leaves the first way waits for its
/// target, the conditional jump at `jump_false` leads to the `Pop` that
/// takes the tested value away on the second way.
proof fn lemma_join(second: Emitter, two: Typing, jump_false: int) -> (res: Typing)
    requires
        typed(second, two),
        0 <= jump_false < second.codes.len(),
        fits(second) ==> two.holes.contains(jump_false),
        two.at[jump_false] >= 1,
        fits(second) ==> forall|k: int|
            0 <= k < second.breaks.len() ==> second.breaks[k] != jump_false,
        fits(second) ==> forall|k: int|
            0 <= k < second.continues.len() ==> second.continues[k] != jump_false,
    ensures
        typed(
            second.emit(OpView::Jump(0), (0, 0)).patched(jump_false).emit(OpView::Pop, (0, 0)),
            res,
        ),
        res.holes == two.holes.insert(second.codes.len() as int).remove(jump_false),
        !two.holes.contains(second.codes.len() as int),
        kept_heights(two, res),
        now(res) == two.at[jump_false] - 1,
        res.at[second.codes.len() as int] == now(two),
        two.at.len() == second.codes.len() + 1,
        fits(second) ==> res.holes.len() == two.holes.len(),
{
    lemma_shape(second, two);
    let height = two.at[jump_false];
    let left = lemma_emit_hole(second, two, OpView::Jump(0), height);
    let leaving = second.emit(OpView::Jump(0), (0, 0));
    let landed = lemma_patch(leaving, left, jump_false);
    lemma_emit(leaving.patched(jump_false), landed, OpView::Pop, height - 1)
}

/// The code of an expression is in step with the stack and leaves one
/// value more on it: the value of the expression.
pub proof fn lemma_expression_in_step(expr: ExprView, emitter: Emitter, typing: Typing) -> (res:
    Typing)
    requires
        typed(emitter, typing),
        tidy_expr(expr),
    ensures
        c_expr(expr, emitter) matches Ok(after) ==> values_left(emitter, typing, after, res, 1),
    decreases expr, 1nat,
{
    match expr {
        ExprView::Logical { left, op, right } => lemma_choice_in_step(expr, emitter, typing),
        ExprView::Ternary { condition, true_value, false_value } => lemma_choice_in_step(
            expr,
            emitter,
            typing,
        ),
        ExprView::Lambda { keyword, params, body } => lemma_lambda_in_step(expr, emitter, typing),
        _ => lemma_operand_in_step(expr, emitter, typing),
    }
}

/// The code of an expression that runs one of two operands.
#[verifier::spinoff_prover]
#[verifier::rlimit(60)]
proof fn lemma_choice_in_step(expr: ExprView, emitter: Emitter, typing: Typing) -> (res: Typing)
    requires
        typed(emitter, typing),
        tidy_expr(expr),
        expr is Logical || expr is Ternary,
    ensures
        c_expr(expr, emitter) matches Ok(after) ==> values_left(emitter, typing, after, res, 1),
    decreases expr, 0nat,
{
    reveal(c_expr);
    lemma_shape(emitter, typing);
    crate::discipline::lemma_expression_keeps_table(expr, emitter);
    match expr {
        ExprView::Logical { left, op, right } => {
            if op.token_type != TokenType::And && op.token_type != TokenType::Or {
                typing
            } else {
                let one = lemma_expression_in_step(*left, emitter, typing);
                match c_expr(*left, emitter) {
                    Ok(first) => {
                        let jump = first.codes.len() as int;
                        let code = if op.token_type == TokenType::And {
                            OpView::JumpIfFalse(0)
                        } else {
                            OpView::JumpIfTrue(0)
                        };
                        lemma_shape(first, one);
                        let popped = lemma_test(first, one, code, op.position);
                        let branched = first.emit(code, op.position).emit(OpView::Pop, (0, 0));
                        let two = lemma_expression_in_step(*right, branched, popped);
                        match c_expr(*right, branched) {
                            Ok(second) => {
                                let res = lemma_patch(second, two, jump);
                                assert(res.holes =~= typing.holes);
                                res
                            },
                            Err(_) => typing,
                        }
                    },
                    Err(_) => typing,
                }
            }
        },
        ExprView::Ternary { condition, true_value, false_value } => {
            let one = lemma_expression_in_step(*condition, emitter, typing);
            match c_expr(*condition, emitter) {
                Ok(first) => {
                    let jump_false = first.codes.len() as int;
                    lemma_shape(first, one);
                    let popped = lemma_test(first, one, OpView::JumpIfFalse(0), (0, 0));
                    let branched = first.emit(OpView::JumpIfFalse(0), (0, 0)).emit(
                        OpView::Pop,
                        (0, 0),
                    );
                    let two = lemma_expression_in_step(*true_value, branched, popped);
                    match c_expr(*true_value, branched) {
                        Ok(second) => {
                            let jump = second.codes.len() as int;
                            lemma_shape(second, two);
                            let cleared = lemma_join(second, two, jump_false);
                            let joined = second.emit(OpView::Jump(0), (0, 0)).patched(
                                jump_false,
                            ).emit(OpView::Pop, (0, 0));
                            lemma_shape(joined, cleared);
                            let three = lemma_expression_in_step(*false_value, joined, cleared);
                            match c_expr(*false_value, joined) {
                                Ok(third) => {
                                    let res = lemma_patch(third, three, jump);
                                    assert(res.holes =~= typing.holes);
                                    res
                                },
                                Err(_) => typing,
                            }
                        },
                        Err(_) => typing,
                    }
                },
                Err(_) => typing,
            }
        },
        _ => typing,
    }
}

/// The code of a function without a name.
#[verifier::spinoff_prover]
proof fn lemma_lambda_in_step(expr: ExprView, emitter: Emitter, typing: Typing) -> (res: Typing)
    requires
        typed(emitter, typing),
        tidy_expr(expr),
        expr is Lambda,
    ensures
        c_expr(expr, emitter) matches Ok(after) ==> values_left(emitter, typing, after, res, 1),
    decreases expr, 0nat,
{
    reveal(c_expr);
    lemma_shape(emitter, typing);
    crate::discipline::lemma_expression_keeps_table(expr, emitter);
    match expr {
        ExprView::Lambda { keyword, params, body } => {
            if emitter.lambdas == usize::MAX {
                typing
            } else {
                let name = Function::spec_lambda_name((emitter.lambdas + 1) as nat);
                let count = (emitter.lambdas + 1) as usize;
                lemma_function_in_step(name, params, body, FuncType::Lambda, count);
                match c_function(name, params, body, FuncType::Lambda, count) {
                    Ok(compiled) => {
                        lemma_same_code(
                            emitter,
                            typing,
                            Emitter { lambdas: compiled.1, ..emitter },
                        );
                        lemma_emit(
                            Emitter { lambdas: compiled.1, ..emitter },
                            typing,
                            OpView::Load(ConstView::Function(compiled.0)),
                            now(typing) + 1,
                        )
                    },
                    Err(_) => typing,
                }
            }
        },
        _ => typing,
    }
}

/// The code of an expression that runs all of its operands.
#[verifier::spinoff_prover]
#[verifier::rlimit(60)]
proof fn lemma_operand_in_step(expr: ExprView, emitter: Emitter, typing: Typing) -> (res: Typing)
    requires
        typed(emitter, typing),
        tidy_expr(expr),
        !(expr is Logical),
        !(expr is Ternary),
        !(expr is Lambda),
    ensures
        c_expr(expr, emitter) matches Ok(after) ==> values_left(emitter, typing, after, res, 1),
    decreases expr, 0nat,
{
    reveal(c_expr);
    lemma_shape(emitter, typing);
    crate::discipline::lemma_expression_keeps_table(expr, emitter);
    match expr {
        ExprView::Assign { name, value } => {
            let valued = lemma_expression_in_step(*value, emitter, typing);
            match c_expr(*value, emitter) {
                Ok(after) => lemma_emit(after, valued, after.write_of(name.lexeme), now(valued)),
                Err(_) => typing,
            }
        },
        ExprView::Binary { left, op, right } => {
            let one = lemma_expression_in_step(*left, emitter, typing);
            match c_expr(*left, emitter) {
                Ok(first) => {
                    let two = lemma_expression_in_step(*right, first, one);
                    match c_expr(*right, first) {
                        Ok(second) => {
                            if second.binary(op.token_type, op.position) is Some {
                                lemma_binary(second, two, op.token_type, op.position)
                            } else {
                                typing
                            }
                        },
                        Err(_) => typing,
                    }
                },
                Err(_) => typing,
            }
        },
        ExprView::Call { callee, paren, arguments } => {
            let one = lemma_expression_in_step(*callee, emitter, typing);
            match c_expr(*callee, emitter) {
                Ok(first) => {
                    let all = lemma_expressions_in_step(
                        arguments,
                        arguments.len() as int,
                        first,
                        one,
                    );
                    match c_exprs(arguments, arguments.len() as int, first) {
                        Ok(after) => lemma_emit(
                            after,
                            all,
                            OpView::Call(arguments.len() as usize),
                            now(all) - arguments.len(),
                        ),
                        Err(_) => typing,
                    }
                },
                Err(_) => typing,
            }
        },
        ExprView::Grouping { expression } => lemma_expression_in_step(
            *expression,
            emitter,
            typing,
        ),
        ExprView::Literal { value, token } => {
            match crate::emitter::constant(value) {
                Some(constant) => lemma_emit(
                    emitter,
                    typing,
                    OpView::Load(constant),
                    now(typing) + 1,
                ),
                None => typing,
            }
        },
        ExprView::Unary { op, right } => {
            let valued = lemma_expression_in_step(*right, emitter, typing);
            match c_expr(*right, emitter) {
                Ok(after) => {
                    if op.token_type == TokenType::Minus {
                        lemma_emit(after, valued, OpView::Negate, now(valued))
                    } else if op.token_type == TokenType::Bang {
                        lemma_emit(after, valued, OpView::Not, now(valued))
                    } else {
                        typing
                    }
                },
                Err(_) => typing,
            }
        },
        ExprView::Variable { name } => lemma_emit(
            emitter,
            typing,
            emitter.read_of(name.lexeme),
            now(typing) + 1,
        ),
        ExprView::OperateAndAssign { name, op, value } => {
            let valued = lemma_expression_in_step(*value, emitter, typing);
            match c_expr(*value, emitter) {
                Ok(after) => match after.fused_of(op.token_type, name.lexeme) {
                    Some(code) => lemma_emit(after, valued, code, now(valued)),
                    None => typing,
                },
                Err(_) => typing,
            }
        },
        _ => typing,
    }
}

/// The code of `n` expressions is in step with the stack and leaves `n`
/// values more on it.
#[verifier::spinoff_prover]
pub proof fn lemma_expressions_in_step(
    exprs: Seq<ExprView>,
    n: int,
    emitter: Emitter,
    typing: Typing,
) -> (res: Typing)
    requires
        typed(emitter, typing),
        tidy_exprs(exprs, n),
        0 <= n <= exprs.len(),
    ensures
        c_exprs(exprs, n, emitter) matches Ok(after) ==> values_left(emitter, typing, after, res, n),
    decreases exprs, n,
{
    reveal(c_exprs);
    crate::discipline::lemma_expressions_keep_table(exprs, n, emitter);
    if n <= 0 {
        typing
    } else {
        let before = lemma_expressions_in_step(exprs, n - 1, emitter, typing);
        match c_exprs(exprs, n - 1, emitter) {
            Ok(first) => lemma_expression_in_step(exprs[n - 1], first, before),
            Err(_) => typing,
        }
    }
}


/// `n` instructions `Pop` take `n` values away.
pub proof fn lemma_pops_in_step(emitter: Emitter, typing: Typing, n: nat) -> (res: Typing)
    requires
        typed(emitter, typing),
        n <= now(typing),
    ensures
        typed(emitter.pops(n), res),
        res.holes == typing.holes,
        kept_heights(typing, res),
        now(res) == now(typing) - n,
        emitter.pops(n).codes.len() == emitter.codes.len() + n,
        emitter.pops(n).breaks == emitter.breaks,
        emitter.pops(n).continues == emitter.continues,
        emitter.pops(n).scopes == emitter.scopes,
        emitter.pops(n).loop_body_depth == emitter.loop_body_depth,
        emitter.pops(n).func_type == emitter.func_type,
    decreases n,
{
    lemma_shape(emitter, typing);
    if n == 0 {
        typing
    } else {
        let before = lemma_pops_in_step(emitter, typing, (n - 1) as nat);
        lemma_emit(emitter.pops((n - 1) as nat), before, OpView::Pop, now(before) - 1)
    }
}

/// The emitter with the jump of a `break` or of a `continue` written at
/// its end, waiting in its list.
pub open spec fn left(emitter: Emitter, position: Position, is_break: bool) -> Emitter {
    if is_break {
        Emitter {
            breaks: emitter.breaks.push(emitter.codes.len() as usize),
            ..emitter.emit(OpView::Jump(0), position)
        }
    } else {
        Emitter {
            continues: emitter.continues.push(emitter.codes.len() as usize),
            ..emitter.emit(OpView::Jump(0), position)
        }
    }
}

/// The jump of a `break` or of a `continue` waits for the end of its
/// loop; behind it any height will do.
proof fn lemma_leave(emitter: Emitter, typing: Typing, position: Position, is_break: bool, next: int) -> (res:
    Typing)
    requires
        typed(emitter, typing),
        next >= 0,
    ensures
        res == (Typing {
            at: typing.at.push(next),
            holes: typing.holes.insert(emitter.codes.len() as int),
        }),
        typed(left(emitter, position, is_break), res),
        res.holes.len() == typing.holes.len() + 1,
        typing.at.len() == emitter.codes.len() + 1,
{
    let res = lemma_emit_hole(emitter, typing, OpView::Jump(0), next);
    let written = emitter.emit(OpView::Jump(0), position);
    let after = left(emitter, position, is_break);
    lemma_shape(emitter, typing);
    lemma_shape(written, res);
    reveal(typed);
    if fits(after) {
        assert forall|i: int| 0 <= i < after.codes.len() implies #[trigger] step_ok(
            after.codes,
            res,
            i,
        ) by {
            assert(step_ok(written.codes, res, i));
        }
    }
    res
}

/// The waiting jumps without those whose indices stand in `waiting` from
/// `from` up to `to`.
pub open spec fn without(holes: Set<int>, waiting: Seq<usize>, from: int, to: int) -> Set<int>
    decreases to - from,
{
    if to <= from || to > waiting.len() || from < 0 {
        holes
    } else {
        without(holes, waiting, from, to - 1).remove(waiting[to - 1] as int)
    }
}

/// Making jumps lead to the end of the code changes the code, and nothing
/// else; and how it changes the code depends on the code alone.
pub proof fn lemma_patched_all_apart(
    emitter: Emitter,
    other: Emitter,
    waiting: Seq<usize>,
    from: int,
    to: int,
)
    requires
        other.codes == emitter.codes,
    ensures
        other.patched_all(waiting, from, to).codes == emitter.patched_all(waiting, from, to).codes,
        other.patched_all(waiting, from, to) == (Emitter {
            codes: other.patched_all(waiting, from, to).codes,
            ..other
        }),
        emitter.patched_all(waiting, from, to).codes.len() == emitter.codes.len(),
    decreases to - from,
{
    if !(to <= from || to > waiting.len() || from < 0) {
        lemma_patched_all_apart(emitter, other, waiting, from, to - 1);
    }
}

/// Waiting jumps that are all made to lead to the end of the code wait
/// no longer, if the height at the end of the code is the height at each
/// of them, and none of them is a jump of `break` or `continue` that
/// still stands in its list.
proof fn lemma_patch_all(emitter: Emitter, typing: Typing, waiting: Seq<usize>, from: int, to: int) -> (res:
    Typing)
    requires
        typed(emitter, typing),
        0 <= from <= to <= waiting.len(),
        fits(emitter) ==> forall|k: int|
            from <= k < to ==> typing.holes.contains(#[trigger] waiting[k] as int) && typing.at[waiting[k] as int]
                == now(typing),
        fits(emitter) ==> forall|j: int, k: int| from <= j < k < to ==> waiting[j] < waiting[k],
        fits(emitter) ==> forall|j: int, k: int|
            from <= j < to && 0 <= k < emitter.breaks.len() ==> waiting[j] != emitter.breaks[k],
        fits(emitter) ==> forall|j: int, k: int|
            from <= j < to && 0 <= k < emitter.continues.len() ==> waiting[j]
                != emitter.continues[k],
    ensures
        res == (Typing { at: typing.at, holes: without(typing.holes, waiting, from, to) }),
        typed(emitter.patched_all(waiting, from, to), res),
        fits(emitter) ==> res.holes.len() == typing.holes.len() - (to - from),
        fits(emitter) ==> forall|i: int|
            #[trigger] typing.holes.contains(i) && (forall|k: int|
                from <= k < to ==> waiting[k] != i) ==> res.holes.contains(i),
        forall|i: int| #[trigger] res.holes.contains(i) ==> typing.holes.contains(i),
    decreases to - from,
{
    if to <= from {
        typing
    } else {
        let before = lemma_patch_all(emitter, typing, waiting, from, to - 1);
        let so_far = emitter.patched_all(waiting, from, to - 1);
        lemma_patched_all_apart(emitter, emitter, waiting, from, to - 1);
        let index = waiting[to - 1] as int;
        if fits(emitter) {
            assert(typing.holes.contains(waiting[to - 1] as int));
            assert forall|k: int| from <= k < to - 1 implies waiting[k] != index by {}
            assert(before.holes.contains(index));
        }
        let res = lemma_patch(so_far, before, index);
        res
    }
}

/// The emitter at the end of a loop's body: the jumps of `continue`
/// written in the body lead to the end of the code and wait no longer.
pub open spec fn resumed(emitter: Emitter, mark: int) -> Emitter {
    Emitter {
        continues: cut(emitter.continues, mark),
        ..emitter.patched_all(emitter.continues, mark, emitter.continues.len() as int)
    }
}

/// The emitter at the end of a loop: the jumps of `break` written in the
/// loop lead to the end of the code and wait no longer.
pub open spec fn left_loop(emitter: Emitter, mark: int, loop_body_depth: usize) -> Emitter {
    Emitter {
        breaks: cut(emitter.breaks, mark),
        loop_body_depth,
        ..emitter.patched_all(emitter.breaks, mark, emitter.breaks.len() as int)
    }
}

/// The jumps of `continue` of a loop, written with the stack at the
/// height of the end of the code, lead there and wait no longer.
proof fn lemma_settle_continues(emitter: Emitter, typing: Typing, mark: int) -> (res: Typing)
    requires
        typed(emitter, typing),
        0 <= mark <= emitter.continues.len(),
        fits(emitter) ==> forall|k: int|
            mark <= k < emitter.continues.len() ==> typing.at[#[trigger] emitter.continues[k] as int]
                == now(typing),
    ensures
        typed(resumed(emitter, mark), res),
        res.at == typing.at,
        resumed(emitter, mark).codes.len() == emitter.codes.len(),
        resumed(emitter, mark) == (Emitter {
            codes: resumed(emitter, mark).codes,
            continues: cut(emitter.continues, mark),
            ..emitter
        }),
        fits(emitter) ==> res.holes.len() == typing.holes.len() - (emitter.continues.len() - mark),
        fits(emitter) ==> forall|i: int|
            #[trigger] typing.holes.contains(i) && (forall|k: int|
                mark <= k < emitter.continues.len() ==> emitter.continues[k] != i)
                ==> res.holes.contains(i),
{
    let fewer = Emitter { continues: cut(emitter.continues, mark), ..emitter };
    let len = emitter.continues.len() as int;
    lemma_shape(emitter, typing);
    assert(typed(fewer, typing)) by {
        reveal(typed);
    }
    lemma_patched_all_apart(emitter, fewer, emitter.continues, mark, len);
    lemma_patched_all_apart(emitter, emitter, emitter.continues, mark, len);
    let res = lemma_patch_all(fewer, typing, emitter.continues, mark, len);
    res
}

/// The jumps of `break` of a loop, written with the stack at the height
/// of the end of the code, lead there and wait no longer.
proof fn lemma_settle_breaks(emitter: Emitter, typing: Typing, mark: int, loop_body_depth: usize) -> (res:
    Typing)
    requires
        typed(emitter, typing),
        0 <= mark <= emitter.breaks.len(),
        fits(emitter) ==> forall|k: int|
            mark <= k < emitter.breaks.len() ==> typing.at[#[trigger] emitter.breaks[k] as int]
                == now(typing),
    ensures
        typed(left_loop(emitter, mark, loop_body_depth), res),
        res.at == typing.at,
        left_loop(emitter, mark, loop_body_depth).codes.len() == emitter.codes.len(),
        left_loop(emitter, mark, loop_body_depth) == (Emitter {
            codes: left_loop(emitter, mark, loop_body_depth).codes,
            breaks: cut(emitter.breaks, mark),
            loop_body_depth,
            ..emitter
        }),
        fits(emitter) ==> res.holes.len() == typing.holes.len() - (emitter.breaks.len() - mark),
        fits(emitter) ==> forall|i: int|
            #[trigger] typing.holes.contains(i) && (forall|k: int|
                mark <= k < emitter.breaks.len() ==> emitter.breaks[k] != i)
                ==> res.holes.contains(i),
{
    let fewer = Emitter { breaks: cut(emitter.breaks, mark), loop_body_depth, ..emitter };
    let len = emitter.breaks.len() as int;
    lemma_shape(emitter, typing);
    assert(typed(fewer, typing)) by {
        reveal(typed);
    }
    lemma_patched_all_apart(emitter, fewer, emitter.breaks, mark, len);
    lemma_patched_all_apart(emitter, emitter, emitter.breaks, mark, len);
    let res = lemma_patch_all(fewer, typing, emitter.breaks, mark, len);
    res
}

/// Whether `longer` begins with `list`.
pub open spec fn extended(list: Seq<usize>, longer: Seq<usize>) -> bool {
    &&& list.len() <= longer.len()
    &&& forall|k: int| 0 <= k < list.len() ==> #[trigger] longer[k] == list[k]
}

/// Whether every jump that stands in `list` from `from` on was written
/// at `floor` or behind it, with the stack at `height`.
pub open spec fn new_at(from: int, list: Seq<usize>, res: Typing, floor: int, height: int) -> bool {
    forall|k: int|
        from <= k < list.len() ==> #[trigger] list[k] >= floor && res.at[list[k] as int] == height
}

/// The height at which the innermost loop stands: the number of the
/// locals that are not declared deeper than the loop.
pub open spec fn shallow(emitter: Emitter) -> int {
    emitter.scopes.variables.len() - all_deeper(
        emitter.scopes.variables,
        emitter.loop_body_depth as int,
    )
}

/// What the compiler needs in front of a statement that declares `more`:
/// code in step, with as many values on the stack as there are locals.
pub open spec fn ready(emitter: Emitter, typing: Typing, more: Table, in_loop: bool) -> bool {
    &&& typed(emitter, typing)
    &&& emitter.scopes.wf()
    &&& now(typing) == emitter.scopes.variables.len()
    &&& emitter.loop_body_depth <= emitter.scopes.depth
    &&& in_loop && emitter.scopes.depth == emitter.loop_body_depth ==> more.len() == 0
}

/// What holds of the code of statements: it is in step; behind it there
/// are as many values on the stack as there are locals; the jumps in it
/// that wait are the jumps of `break` and `continue` that it has added to
/// their lists, each written with the stack at the height at which the
/// loop stands; outside a loop it adds none.
pub open spec fn statement_left(
    before: Emitter,
    typing: Typing,
    after: Emitter,
    res: Typing,
    in_loop: bool,
) -> bool {
    &&& typed(after, res)
    &&& kept_heights(typing, res)
    &&& now(res) == after.scopes.variables.len()
    &&& after.func_type == before.func_type
    &&& extended(before.breaks, after.breaks)
    &&& extended(before.continues, after.continues)
    &&& !in_loop ==> after.breaks == before.breaks && after.continues == before.continues
    &&& fits(after) ==> {
        &&& forall|i: int| #[trigger] typing.holes.contains(i) ==> res.holes.contains(i)
        &&& res.holes.len() == typing.holes.len() + (after.breaks.len() - before.breaks.len()) + (
        after.continues.len() - before.continues.len())
        &&& new_at(
            before.breaks.len() as int,
            after.breaks,
            res,
            before.codes.len() as int,
            shallow(before),
        )
        &&& new_at(
            before.continues.len() as int,
            after.continues,
            res,
            before.codes.len() as int,
            shallow(before),
        )
    }
}

/// Whether `index` is the end of the code of the emitter, and `locals`
/// the number of its locals.
pub open spec fn stands(emitter: Emitter, index: int, locals: int) -> bool {
    index == emitter.codes.len() && locals == emitter.scopes.variables.len()
}

/// The emitter one scope deeper.
pub open spec fn entered(emitter: Emitter) -> Emitter {
    emitter.with_scopes(
        ScopesView {
            variables: emitter.scopes.variables,
            depth: (emitter.scopes.depth + 1) as usize,
        },
    )
}

/// The emitter in a loop that begins here.
pub open spec fn looping(emitter: Emitter) -> Emitter {
    Emitter { loop_body_depth: emitter.scopes.depth, ..emitter }
}

/// The emitter where the second way through an `if` begins.
pub open spec fn joined(second: Emitter, jump_false: int) -> Emitter {
    second.emit(OpView::Jump(0), (0, 0)).patched(jump_false).emit(OpView::Pop, (0, 0))
}

/// Whether `index` is a place in front of the statement, behind it, or
/// in front of or behind a statement that it holds, the bodies of
/// functions left aside, and `locals` the number of the locals there.
pub open spec fn marked_stmt(stmt: StmtView, emitter: Emitter, index: int, locals: int) -> bool
    decreases stmt, 1nat,
{
    ||| stands(emitter, index, locals)
    ||| match c_stmt(stmt, emitter) {
        Ok(after) => stands(after, index, locals),
        Err(_) => false,
    }
    ||| marked_within(stmt, emitter, index, locals)
}

/// Whether `index` is a place in front of or behind a statement that the
/// statement holds, and `locals` the number of the locals there.
pub open spec fn marked_within(stmt: StmtView, emitter: Emitter, index: int, locals: int) -> bool
    decreases stmt, 0nat,
{
    match stmt {
        StmtView::MultiVar { vars } => marked_stmts(
            vars,
            vars.len() as int,
            emitter,
            index,
            locals,
        ),
        StmtView::Block { statements } => emitter.scopes.depth < usize::MAX && marked_stmts(
            statements,
            statements.len() as int,
            entered(emitter),
            index,
            locals,
        ),
        StmtView::Branch { condition, then_branch, else_branch } => match c_expr(
            condition,
            emitter,
        ) {
            Ok(first) => {
                ||| marked_stmt(*then_branch, tested(first), index, locals)
                ||| match (c_stmt(*then_branch, tested(first)), else_branch) {
                    (Ok(second), Some(otherwise)) => marked_stmt(
                        *otherwise,
                        joined(second, first.codes.len() as int),
                        index,
                        locals,
                    ),
                    _ => false,
                }
            },
            Err(_) => false,
        },
        StmtView::While { condition, body, increment } => match c_expr(
            condition,
            looping(emitter),
        ) {
            Ok(first) => {
                ||| marked_stmt(*body, tested(first), index, locals)
                ||| match (c_stmt(*body, tested(first)), increment) {
                    (Ok(second), Some(step)) => marked_stmt(
                        *step,
                        resumed(second, emitter.continues.len() as int),
                        index,
                        locals,
                    ),
                    _ => false,
                }
            },
            Err(_) => false,
        },
        _ => false,
    }
}

/// Whether `index` is a place in front of or behind one of the first `n`
/// statements, or of a statement that one of them holds, and `locals`
/// the number of the locals there.
pub open spec fn marked_stmts(
    stmts: Seq<StmtView>,
    n: int,
    emitter: Emitter,
    index: int,
    locals: int,
) -> bool
    decreases stmts, n,
{
    if n <= 0 || n > stmts.len() {
        stands(emitter, index, locals)
    } else {
        ||| marked_stmts(stmts, n - 1, emitter, index, locals)
        ||| match c_stmts(stmts, n - 1, emitter) {
            Ok(before) => marked_stmt(stmts[n - 1], before, index, locals),
            Err(_) => false,
        }
    }
}

/// Whether at every place in and around the statement the stack is as
/// high as there are locals at that place.
pub open spec fn level_stmt(stmt: StmtView, emitter: Emitter, at: Seq<int>) -> bool {
    forall|index: int, locals: int| #[trigger]
        marked_stmt(stmt, emitter, index, locals) ==> 0 <= index < at.len() && at[index]
            == locals
}

/// Whether at every place in and around the first `n` statements the
/// stack is as high as there are locals at that place.
pub open spec fn level_stmts(stmts: Seq<StmtView>, n: int, emitter: Emitter, at: Seq<int>) -> bool {
    forall|index: int, locals: int| #[trigger]
        marked_stmts(stmts, n, emitter, index, locals) ==> 0 <= index < at.len() && at[index]
            == locals
}

/// Whether, between any two of the first `n` statements, and in front of
/// them and behind them, the stack is as high as there are locals there.
pub open spec fn boundaries(stmts: Seq<StmtView>, n: int, emitter: Emitter, at: Seq<int>) -> bool {
    forall|m: int|
        0 <= m <= n ==> (#[trigger] c_stmts(stmts, m, emitter) matches Ok(middle) ==> middle.codes.len()
            < at.len() && at[middle.codes.len() as int] == middle.scopes.variables.len())
}

/// A statement that is plain declares nothing.
pub proof fn lemma_plain_declares_nothing(stmt: StmtView, depth: usize)
    requires
        plain(stmt),
    ensures
        declared(stmt, depth).len() == 0,
    decreases stmt,
{
    match stmt {
        StmtView::Branch { condition, then_branch, else_branch } => {
            lemma_plain_declares_nothing(*then_branch, depth);
            match else_branch {
                Some(else_branch) => {
                    lemma_plain_declares_nothing(*else_branch, depth);
                },
                None => {},
            }
        },
        StmtView::While { condition, body, increment } => {
            lemma_plain_declares_nothing(*body, depth);
            match increment {
                Some(increment) => {
                    lemma_plain_declares_nothing(*increment, depth);
                },
                None => {},
            }
        },
        _ => {},
    }
}

/// Entries behind the first `n` do not count among the first `n`.
proof fn lemma_deeper_prefix(table: Table, more: Table, bound: int, n: int)
    requires
        0 <= n <= table.len(),
    ensures
        deeper(table + more, bound, n) == deeper(table, bound, n),
    decreases n,
{
    if n > 0 {
        lemma_deeper_prefix(table, more, bound, n - 1);
    }
}

/// Entries that are all declared deeper than `bound`, put behind a table,
/// all count as deeper.
proof fn lemma_deeper_append(table: Table, more: Table, bound: int)
    requires
        forall|i: int| 0 <= i < more.len() ==> more[i].1 > bound,
    ensures
        all_deeper(table + more, bound) == all_deeper(table, bound) + more.len(),
    decreases more.len(),
{
    if more.len() == 0 {
        assert(table + more =~= table);
    } else {
        let fewer = more.drop_last();
        lemma_deeper_append(table, fewer, bound);
        let all = table + more;
        assert(all[all.len() - 1] == more[more.len() - 1]);
        lemma_deeper_prefix(table + fewer, seq![more.last()], bound, all.len() - 1);
        assert((table + fewer) + seq![more.last()] =~= all);
    }
}

/// In a table in order, with no entry deeper than the current depth, no
/// entry is deeper than the current depth.
proof fn lemma_none_deeper(scopes: ScopesView)
    requires
        scopes.wf(),
    ensures
        all_deeper(scopes.variables, scopes.depth as int) == 0,
        all_deeper(scopes.variables, scopes.depth as int) <= scopes.variables.len(),
{
    lemma_deeper_are_last(scopes.variables, scopes.depth as int);
    let k = kept(scopes.variables, scopes.depth as int);
    if k < scopes.variables.len() {
        assert(scopes.variables[k as int].1 > scopes.depth);
    }
}

/// The parameters of a function take the next slots of its table, and
/// declaring them writes no code.
proof fn lemma_parameters(emitter: Emitter, params: Seq<TokenView>, n: int)
    requires
        emitter.scopes.wf(),
        0 <= n <= params.len(),
    ensures
        emitter.declare_all(params, n) matches Ok(declared) ==> {
            &&& declared.scopes.wf()
            &&& declared.scopes.depth == emitter.scopes.depth
            &&& declared.scopes.variables.len() == emitter.scopes.variables.len() + n
            &&& declared == (Emitter { scopes: declared.scopes, ..emitter })
        },
    decreases n,
{
    if n > 0 {
        lemma_parameters(emitter, params, n - 1);
        match emitter.declare_all(params, n - 1) {
            Ok(before) => {
                match before.declare(params[n - 1]) {
                    Ok(declared) => {
                        let name = params[n - 1].lexeme;
                        let depth = before.scopes.depth;
                        let table = declared.scopes.variables;
                        assert(table == before.scopes.variables.push((name, depth)));
                        assert forall|i: int, j: int|
                            0 <= i < j < table.len() && table[i].1 == table[j].1 implies table[i].0
                            != table[j].0 by {
                            if j == table.len() - 1 {
                                if table[i].0 == name {
                                    assert(before.scopes.variables[i].0 == name
                                        && before.scopes.variables[i].1 == depth);
                                }
                            }
                        }
                    },
                    Err(_) => {},
                }
            },
            Err(_) => {},
        }
    }
}

/// The code of a function is in step with the stack, from the height with
/// which the function is entered, and so is the code of every function
/// that it loads. With the heights that are returned, the stack is as high
/// as there are locals in front of and behind every statement of the
/// body, and every statement that one of them holds.
#[verifier::spinoff_prover]
pub proof fn lemma_function_in_step(
    name: Seq<char>,
    params: Seq<TokenView>,
    body: Seq<StmtView>,
    func_type: FuncType,
    lambdas: usize,
) -> (at: Seq<int>)
    requires
        params.len() <= usize::MAX,
        func_type == FuncType::Main ==> params.len() == 0,
        tidy_stmts(body, body.len() as int, false),
    ensures
        c_function(name, params, body, func_type, lambdas) matches Ok(compiled) ==> {
            &&& disciplined(compiled.0)
            &&& compiled.0.func_type == func_type
            &&& in_step(compiled.0.codes, at)
            &&& at[0] == entry_height(compiled.0)
            &&& Emitter::started(name, func_type, lambdas).declare_all(
                params,
                params.len() as int,
            ) matches Ok(declared) && boundaries(body, body.len() as int, declared, at)
                && level_stmts(body, body.len() as int, declared, at)
        },
    decreases body, body.len() + 1,
{
    reveal(c_function);
    let started = Emitter::started(name, func_type, lambdas);
    lemma_parameters(started, params, params.len() as int);
    match started.declare_all(params, params.len() as int) {
        Ok(declared) => {
            let entry = Typing {
                at: seq![declared.scopes.variables.len() as int],
                holes: Set::empty(),
            };
            assert(typed(declared, entry)) by {
                reveal(typed);
            }
            let res = lemma_statements_in_step(body, body.len() as int, declared, entry, false);
            match c_stmts(body, body.len() as int, declared) {
                Ok(compiled) => {
                    let function = compiled.finished(params.len() as usize);
                    lemma_shape(compiled, res);
                    let ended = if compiled.is_returned {
                        res
                    } else {
                        let loaded = lemma_emit(
                            compiled,
                            res,
                            OpView::Load(ConstView::Nil),
                            now(res) + 1,
                        );
                        lemma_emit(
                            compiled.emit(OpView::Load(ConstView::Nil), (0, 0)),
                            loaded,
                            OpView::Return,
                            now(res),
                        )
                    };
                    let whole = if compiled.is_returned {
                        compiled
                    } else {
                        compiled.emit(OpView::Load(ConstView::Nil), (0, 0)).emit(
                            OpView::Return,
                            (0, 0),
                        )
                    };
                    assert(typed(whole, ended));
                    assert(function.codes == whole.codes);
                    assert(ended.holes == res.holes);
                    assert(ended.at[0] == entry.at[0]);
                    assert(in_step(function.codes, ended.at)) by {
                        reveal(typed);
                        if fits(whole) {
                            assert(fits(compiled));
                            assert(res.holes.len() == 0);
                            assert forall|i: int| 0 <= i < whole.codes.len() implies #[trigger] edge_ok(
                                whole.codes,
                                ended.at,
                                i,
                            ) by {
                                assert(step_ok(whole.codes, ended, i));
                                if ended.holes.contains(i) {
                                    assert(ended.holes.len() != 0);
                                }
                            }
                        }
                    }
                    assert(loads_disciplined(function.codes, function.codes.len() as int)) by {
                        reveal(typed);
                    }
                    assert(function.func_type == func_type);
                    assert(function.arity == params.len());
                    assert(ended.at[0] == entry_height(function));
                    assert forall|index: int, locals: int| #[trigger]
                        marked_stmts(
                            body,
                            body.len() as int,
                            declared,
                            index,
                            locals,
                        ) implies 0 <= index < ended.at.len() && ended.at[index] == locals by {
                        assert(level_stmts(body, body.len() as int, declared, res.at));
                        assert(ended.at[index] == res.at[index]);
                    }
                    assert forall|m: int| 0 <= m <= body.len() implies (#[trigger] c_stmts(
                        body,
                        m,
                        declared,
                    ) matches Ok(middle) ==> middle.codes.len() < ended.at.len() && ended.at[middle.codes.len() as int]
                        == middle.scopes.variables.len()) by {
                        assert(boundaries(body, body.len() as int, declared, res.at));
                        match c_stmts(body, m, declared) {
                            Ok(middle) => {
                                assert(ended.at[middle.codes.len() as int]
                                    == res.at[middle.codes.len() as int]);
                            },
                            Err(_) => {},
                        }
                    }
                    ended.at
                },
                Err(_) => Seq::empty(),
            }
        },
        Err(_) => Seq::empty(),
    }
}

/// The code of a program is in step with the stack, from an empty stack,
/// and so is the code of every function in it. With the heights that are
/// returned, the stack of the program is as high as there are locals in
/// front of and behind every statement, and every statement that one of
/// them holds.
pub proof fn lemma_program_in_step(stmts: Seq<StmtView>) -> (at: Seq<int>)
    requires
        tidy_stmts(stmts, stmts.len() as int, false),
    ensures
        c_program(stmts) matches Ok(function) ==> {
            &&& disciplined(function)
            &&& function.func_type == FuncType::Main
            &&& in_step(function.codes, at)
            &&& at[0] == 0
            &&& boundaries(
                stmts,
                stmts.len() as int,
                Emitter::started("__main__"@, FuncType::Main, 0),
                at,
            )
            &&& level_stmts(
                stmts,
                stmts.len() as int,
                Emitter::started("__main__"@, FuncType::Main, 0),
                at,
            )
        },
{
    let params = Seq::<TokenView>::empty();
    let name = "__main__"@;
    let at = lemma_function_in_step(name, params, stmts, FuncType::Main, 0);
    lemma_program_is_function(stmts);
    assert(name == "__main__"@);
    let started = Emitter::started(name, FuncType::Main, 0);
    assert(params.len() == 0);
    assert(started.declare_all(params, 0) == Ok::<Emitter, crate::error::ErrorView>(started));
    at
}

/// A program is compiled as a function without parameters is.
#[verifier::spinoff_prover]
proof fn lemma_program_is_function(stmts: Seq<StmtView>)
    ensures
        match c_program(stmts) {
            Ok(function) => c_function(
                "__main__"@,
                Seq::<TokenView>::empty(),
                stmts,
                FuncType::Main,
                0,
            ) is Ok && c_function(
                "__main__"@,
                Seq::<TokenView>::empty(),
                stmts,
                FuncType::Main,
                0,
            )->Ok_0.0 == function,
            Err(_) => true,
        },
{
    reveal_with_fuel(c_function, 2);
    let params = Seq::<TokenView>::empty();
    let started = Emitter::started("__main__"@, FuncType::Main, 0);
    assert(params.len() == 0);
    assert(started.declare_all(params, 0) == Ok::<Emitter, crate::error::ErrorView>(started));
    let whole = c_function("__main__"@, params, stmts, FuncType::Main, 0);
    assert(whole == match started.declare_all(params, params.len() as int) {
        Err(error) => Err(error),
        Ok(declared) => match c_stmts(stmts, stmts.len() as int, declared) {
            Err(error) => Err(error),
            Ok(compiled) => Ok((compiled.finished(params.len() as usize), compiled.lambdas)),
        },
    });
}

/// Where the stack is level at every place within a statement, and in
/// front of it and behind it there are as many values on the stack as
/// there are locals, it is level at every place in and around the
/// statement.
proof fn lemma_level_around(
    stmt: StmtView,
    emitter: Emitter,
    typing: Typing,
    res: Typing,
    in_loop: bool,
)
    requires
        typed(emitter, typing),
        now(typing) == emitter.scopes.variables.len(),
        c_stmt(stmt, emitter) matches Ok(after) && statement_left(
            emitter,
            typing,
            after,
            res,
            in_loop,
        ),
        forall|index: int, locals: int| #[trigger]
            marked_within(stmt, emitter, index, locals) ==> 0 <= index < res.at.len()
                && res.at[index] == locals,
    ensures
        level_stmt(stmt, emitter, res.at),
{
    lemma_shape(emitter, typing);
    lemma_shape(c_stmt(stmt, emitter)->Ok_0, res);
    let after = c_stmt(stmt, emitter)->Ok_0;
    assert(kept_heights(typing, res));
    assert(typing.at.len() == emitter.codes.len() + 1);
    assert(res.at.len() == after.codes.len() + 1);
    assert(now(res) == after.scopes.variables.len());
    assert forall|index: int, locals: int| #[trigger]
        marked_stmt(stmt, emitter, index, locals) implies 0 <= index < res.at.len()
        && res.at[index] == locals by {
        if stands(emitter, index, locals) {
            assert(index == emitter.codes.len());
            assert(res.at[index] == typing.at[index]);
            assert(typing.at[index] == now(typing));
        } else if stands(after, index, locals) {
            assert(res.at[index] == now(res));
        } else {
            assert(marked_within(stmt, emitter, index, locals));
        }
    }
}

/// The code of statements is in step with the stack, and behind it there
/// are as many values on the stack as there are locals.
#[verifier::spinoff_prover]
pub proof fn lemma_statements_in_step(
    stmts: Seq<StmtView>,
    n: int,
    emitter: Emitter,
    typing: Typing,
    in_loop: bool,
) -> (res: Typing)
    requires
        ready(emitter, typing, declared_all(stmts, n, emitter.scopes.depth), in_loop),
        tidy_stmts(stmts, n, in_loop),
        0 <= n <= stmts.len(),
    ensures
        c_stmts(stmts, n, emitter) matches Ok(after) ==> statement_left(
            emitter,
            typing,
            after,
            res,
            in_loop,
        ) && boundaries(stmts, n, emitter, res.at) && level_stmts(stmts, n, emitter, res.at),
    decreases stmts, n,
{
    reveal(c_stmts);
    lemma_shape(emitter, typing);
    if n <= 0 {
        typing
    } else {
        let depth = emitter.scopes.depth;
        let one = lemma_statements_in_step(stmts, n - 1, emitter, typing, in_loop);
        match c_stmts(stmts, n - 1, emitter) {
            Ok(before) => {
                lemma_statements_grow_table(stmts, n - 1, emitter);
                lemma_statement_grows_table(stmts[n - 1], before);
                lemma_declared_all_at_depth(stmts, n - 1, depth);
                lemma_shape(before, one);
                let res = lemma_statement_in_step(stmts[n - 1], before, one, in_loop);
                match c_stmt(stmts[n - 1], before) {
                    Ok(after) => {
                        lemma_shape(after, res);
                        if in_loop {
                            let more = declared_all(stmts, n - 1, depth);
                            if more.len() > 0 {
                                lemma_deeper_append(
                                    emitter.scopes.variables,
                                    more,
                                    emitter.loop_body_depth as int,
                                );
                            } else {
                                assert(emitter.scopes.variables + more
                                    =~= emitter.scopes.variables);
                            }
                            assert(shallow(before) == shallow(emitter));
                        }
                        assert forall|index: int, locals: int| #[trigger]
                            marked_stmts(stmts, n, emitter, index, locals) implies 0 <= index
                            < res.at.len() && res.at[index] == locals by {
                            if marked_stmts(stmts, n - 1, emitter, index, locals) {
                                assert(level_stmts(stmts, n - 1, emitter, one.at));
                                assert(res.at[index] == one.at[index]);
                            } else {
                                assert(marked_stmt(stmts[n - 1], before, index, locals));
                                assert(level_stmt(stmts[n - 1], before, res.at));
                            }
                        }
                        assert forall|m: int| 0 <= m <= n implies (#[trigger] c_stmts(
                            stmts,
                            m,
                            emitter,
                        ) matches Ok(middle) ==> middle.codes.len() < res.at.len() && res.at[middle.codes.len() as int]
                            == middle.scopes.variables.len()) by {
                            if m < n {
                                assert(boundaries(stmts, n - 1, emitter, one.at));
                                match c_stmts(stmts, m, emitter) {
                                    Ok(middle) => {
                                        assert(res.at[middle.codes.len() as int]
                                            == one.at[middle.codes.len() as int]);
                                    },
                                    Err(_) => {},
                                }
                            }
                        }
                        res
                    },
                    Err(_) => typing,
                }
            },
            Err(_) => typing,
        }
    }
}

/// The code of a statement is in step with the stack, and behind it there
/// are as many values on the stack as there are locals: the statement has
/// left the stack as it found it, but for the locals that it declares.
pub proof fn lemma_statement_in_step(stmt: StmtView, emitter: Emitter, typing: Typing, in_loop: bool) -> (res:
    Typing)
    requires
        ready(emitter, typing, declared(stmt, emitter.scopes.depth), in_loop),
        tidy_stmt(stmt, in_loop),
    ensures
        c_stmt(stmt, emitter) matches Ok(after) ==> statement_left(
            emitter,
            typing,
            after,
            res,
            in_loop,
        ) && level_stmt(stmt, emitter, res.at),
    decreases stmt, 1nat,
{
    match stmt {
        StmtView::While { condition, body, increment } => lemma_loop_in_step(
            stmt,
            emitter,
            typing,
            in_loop,
        ),
        StmtView::Branch { condition, then_branch, else_branch } => lemma_branch_in_step(
            stmt,
            emitter,
            typing,
            in_loop,
        ),
        StmtView::Block { statements } => lemma_block_in_step(stmt, emitter, typing, in_loop),
        StmtView::Continue { token } => lemma_jump_in_step(stmt, emitter, typing, in_loop),
        StmtView::Break { token } => lemma_jump_in_step(stmt, emitter, typing, in_loop),
        _ => lemma_simple_in_step(stmt, emitter, typing, in_loop),
    }
}

/// The code of a `break` or of a `continue`.
#[verifier::spinoff_prover]
proof fn lemma_jump_in_step(stmt: StmtView, emitter: Emitter, typing: Typing, in_loop: bool) -> (res:
    Typing)
    requires
        ready(emitter, typing, declared(stmt, emitter.scopes.depth), in_loop),
        tidy_stmt(stmt, in_loop),
        stmt is Break || stmt is Continue,
    ensures
        c_stmt(stmt, emitter) matches Ok(after) ==> statement_left(
            emitter,
            typing,
            after,
            res,
            in_loop,
        ) && level_stmt(stmt, emitter, res.at),
{
    reveal(c_stmt);
    lemma_shape(emitter, typing);
    let table = emitter.scopes.variables;
    let n = all_deeper(table, emitter.loop_body_depth as int);
    lemma_deeper_are_last(table, emitter.loop_body_depth as int);
    let position = match stmt {
        StmtView::Break { token } => token.position,
        StmtView::Continue { token } => token.position,
        _ => (0, 0),
    };
    let unwound = emitter.pops(n);
    let popped = lemma_pops_in_step(emitter, typing, n);
    lemma_shape(unwound, popped);
    let res = lemma_leave(unwound, popped, position, stmt is Break, table.len() as int);
    let after = left(unwound, position, stmt is Break);
    assert(c_stmt(stmt, emitter) == Ok::<Emitter, crate::error::ErrorView>(after));
    lemma_shape(after, res);
    res
}

/// The code of a statement that holds no other statement, and of several
/// declarations in one.
#[verifier::spinoff_prover]
proof fn lemma_simple_in_step(stmt: StmtView, emitter: Emitter, typing: Typing, in_loop: bool) -> (res:
    Typing)
    requires
        ready(emitter, typing, declared(stmt, emitter.scopes.depth), in_loop),
        tidy_stmt(stmt, in_loop),
        !(stmt is While),
        !(stmt is Branch),
        !(stmt is Block),
        !(stmt is Break),
        !(stmt is Continue),
    ensures
        c_stmt(stmt, emitter) matches Ok(after) ==> statement_left(
            emitter,
            typing,
            after,
            res,
            in_loop,
        ) && level_stmt(stmt, emitter, res.at),
    decreases stmt, 0nat,
{
    reveal(c_stmt);
    lemma_shape(emitter, typing);
    let height = now(typing);
    let res = match stmt {
        StmtView::Expression { expression, end } => {
            let valued = lemma_expression_in_step(expression, emitter, typing);
            match c_expr(expression, emitter) {
                Ok(after) => lemma_emit(after, valued, OpView::Pop, height),
                Err(_) => typing,
            }
        },
        StmtView::Print { expression, keyword } => {
            let valued = lemma_expression_in_step(expression, emitter, typing);
            match c_expr(expression, emitter) {
                Ok(after) => lemma_emit(after, valued, OpView::Print, height),
                Err(_) => typing,
            }
        },
        StmtView::Var { name, initializer } => {
            let valued = match initializer {
                Some(init) => lemma_expression_in_step(init, emitter, typing),
                None => lemma_emit(emitter, typing, OpView::Load(ConstView::Nil), height + 1),
            };
            let value = match initializer {
                Some(init) => c_expr(init, emitter),
                None => Ok(emitter.emit(OpView::Load(ConstView::Nil), name.position)),
            };
            match value {
                Ok(after) => {
                    if after.scopes.depth > 0 {
                        match after.declare(name) {
                            Ok(bound) => {
                                lemma_same_code(after, valued, bound);
                                valued
                            },
                            Err(_) => typing,
                        }
                    } else {
                        lemma_emit(after, valued, OpView::DefineGlobal(name.lexeme), height)
                    }
                },
                Err(_) => typing,
            }
        },
        StmtView::MultiVar { vars } => lemma_statements_in_step(
            vars,
            vars.len() as int,
            emitter,
            typing,
            in_loop,
        ),
        StmtView::Function { name, params, body, function_type } => {
            lemma_function_in_step(name.lexeme, params, body, FuncType::Normal, emitter.lambdas);
            match c_function(name.lexeme, params, body, FuncType::Normal, emitter.lambdas) {
                Ok(compiled) => {
                    let base = Emitter { lambdas: compiled.1, ..emitter };
                    lemma_same_code(emitter, typing, base);
                    let code = OpView::Load(ConstView::Function(compiled.0));
                    let loaded = lemma_emit(base, typing, code, height + 1);
                    let with_value = base.emit(code, name.position);
                    if emitter.scopes.depth == 0 {
                        lemma_emit(with_value, loaded, OpView::DefineGlobal(name.lexeme), height)
                    } else {
                        match with_value.declare(name) {
                            Ok(bound) => {
                                lemma_same_code(with_value, loaded, bound);
                                loaded
                            },
                            Err(_) => typing,
                        }
                    }
                },
                Err(_) => typing,
            }
        },
        StmtView::Return { key_word, value } => {
            let marked = Emitter { is_returned: true, ..emitter };
            lemma_same_code(emitter, typing, marked);
            let valued = match value {
                Some(value) => lemma_expression_in_step(value, marked, typing),
                None => lemma_emit(marked, typing, OpView::Load(ConstView::Nil), height + 1),
            };
            let result = match value {
                Some(value) => c_expr(value, marked),
                None => Ok(marked.emit(OpView::Load(ConstView::Nil), key_word.position)),
            };
            match result {
                Ok(after) => lemma_emit(after, valued, OpView::Return, height),
                Err(_) => typing,
            }
        },
        _ => typing,
    };
    if c_stmt(stmt, emitter) is Ok {
        assert forall|index: int, locals: int| #[trigger]
            marked_within(stmt, emitter, index, locals) implies 0 <= index < res.at.len()
            && res.at[index] == locals by {
            match stmt {
                StmtView::MultiVar { vars } => {
                    assert(level_stmts(vars, vars.len() as int, emitter, res.at));
                    assert(marked_stmts(vars, vars.len() as int, emitter, index, locals));
                },
                _ => {},
            }
        }
        lemma_level_around(stmt, emitter, typing, res, in_loop);
    }
    res
}

/// The code of a block: behind it the locals of the block are gone from
/// the table and from the stack.
#[verifier::spinoff_prover]
proof fn lemma_block_in_step(stmt: StmtView, emitter: Emitter, typing: Typing, in_loop: bool) -> (res:
    Typing)
    requires
        ready(emitter, typing, declared(stmt, emitter.scopes.depth), in_loop),
        tidy_stmt(stmt, in_loop),
        stmt is Block,
    ensures
        c_stmt(stmt, emitter) matches Ok(after) ==> statement_left(
            emitter,
            typing,
            after,
            res,
            in_loop,
        ) && level_stmt(stmt, emitter, res.at),
    decreases stmt, 0nat,
{
    reveal(c_stmt);
    lemma_shape(emitter, typing);
    let statements = stmt->statements;
    let res = if emitter.scopes.depth == usize::MAX {
        typing
    } else {
        let entered = emitter.with_scopes(
            ScopesView {
                variables: emitter.scopes.variables,
                depth: (emitter.scopes.depth + 1) as usize,
            },
        );
        lemma_same_code(emitter, typing, entered);
        let inner = lemma_statements_in_step(
            statements,
            statements.len() as int,
            entered,
            typing,
            in_loop,
        );
        lemma_statements_grow_table(statements, statements.len() as int, entered);
        match c_stmts(statements, statements.len() as int, entered) {
            Ok(inside) => {
                let n = all_deeper(inside.scopes.variables, inside.scopes.depth - 1);
                lemma_deeper_are_last(inside.scopes.variables, inside.scopes.depth - 1);
                let closed = inside.with_scopes(inside.scopes.ended());
                lemma_same_code(inside, inner, closed);
                lemma_shape(inside, inner);
                let res = lemma_pops_in_step(closed, inner, n);
                assert(shallow(entered) == shallow(emitter));
                res
            },
            Err(_) => typing,
        }
    };
    if c_stmt(stmt, emitter) is Ok {
        let statements = stmt->statements;
        let inside = c_stmts(statements, statements.len() as int, entered(emitter))->Ok_0;
        assert forall|index: int, locals: int| #[trigger]
            marked_within(stmt, emitter, index, locals) implies 0 <= index < res.at.len()
            && res.at[index] == locals by {
            assert(marked_stmts(
                statements,
                statements.len() as int,
                entered(emitter),
                index,
                locals,
            ));
        }
        lemma_level_around(stmt, emitter, typing, res, in_loop);
    }
    res
}

/// The two ways through an `if` put together.
proof fn lemma_branch_left(
    emitter: Emitter,
    typing: Typing,
    branched: Emitter,
    popped: Typing,
    second: Emitter,
    two: Typing,
    joined: Emitter,
    cleared: Typing,
    third: Emitter,
    three: Typing,
    jump_false: int,
    in_loop: bool,
)
    requires
        typed(emitter, typing),
        typed(branched, popped),
        typed(joined, cleared),
        typed(second, two),
        typed(third, three),
        emitter.codes.len() <= jump_false < branched.codes.len(),
        branched.breaks == emitter.breaks,
        branched.continues == emitter.continues,
        branched.func_type == emitter.func_type,
        shallow(branched) == shallow(emitter),
        kept_heights(typing, popped),
        popped.holes == typing.holes.insert(jump_false),
        !typing.holes.contains(jump_false),
        statement_left(branched, popped, second, two, in_loop),
        joined.breaks == second.breaks,
        joined.continues == second.continues,
        joined.func_type == second.func_type,
        joined.codes.len() == second.codes.len() + 2,
        shallow(joined) == shallow(emitter),
        kept_heights(two, cleared),
        cleared.holes == two.holes.insert(second.codes.len() as int).remove(jump_false),
        !two.holes.contains(second.codes.len() as int),
        fits(second) ==> cleared.holes.len() == two.holes.len(),
        third == joined && three == cleared || statement_left(joined, cleared, third, three, in_loop),
        fits(third) ==> three.holes.contains(second.codes.len() as int),
    ensures
        kept_heights(typing, three),
        extended(emitter.breaks, third.breaks),
        extended(emitter.continues, third.continues),
        !in_loop ==> third.breaks == emitter.breaks && third.continues == emitter.continues,
        third.func_type == emitter.func_type,
        fits(third) ==> {
            &&& forall|i: int|
                #[trigger] typing.holes.contains(i) ==> three.holes.remove(
                    second.codes.len() as int,
                ).contains(i)
            &&& three.holes.remove(second.codes.len() as int).len() == typing.holes.len() + (
            third.breaks.len() - emitter.breaks.len()) + (third.continues.len()
                - emitter.continues.len())
            &&& new_at(
                emitter.breaks.len() as int,
                third.breaks,
                three,
                emitter.codes.len() as int,
                shallow(emitter),
            )
            &&& new_at(
                emitter.continues.len() as int,
                third.continues,
                three,
                emitter.codes.len() as int,
                shallow(emitter),
            )
        },
{
    lemma_shape(emitter, typing);
    lemma_shape(branched, popped);
    lemma_shape(second, two);
    lemma_shape(joined, cleared);
    lemma_shape(third, three);
    if fits(third) {
        assert(fits(second));
        assert forall|i: int| #[trigger] typing.holes.contains(i) implies three.holes.remove(
            second.codes.len() as int,
        ).contains(i) by {
            assert(popped.holes.contains(i));
            assert(two.holes.contains(i));
            assert(cleared.holes.contains(i));
            assert(three.holes.contains(i));
        }
        assert forall|k: int| emitter.breaks.len() <= k < third.breaks.len() implies #[trigger] third.breaks[k]
            >= emitter.codes.len() && three.at[third.breaks[k] as int] == shallow(emitter) by {
            if k < second.breaks.len() {
                assert(third.breaks[k] == second.breaks[k]);
                assert(second.breaks[k] >= branched.codes.len());
                assert(two.at[second.breaks[k] as int] == shallow(emitter));
                assert(cleared.at[second.breaks[k] as int] == two.at[second.breaks[k] as int]);
            }
        }
        assert forall|k: int|
            emitter.continues.len() <= k < third.continues.len() implies #[trigger] third.continues[k]
            >= emitter.codes.len() && three.at[third.continues[k] as int] == shallow(emitter) by {
            if k < second.continues.len() {
                assert(third.continues[k] == second.continues[k]);
                assert(second.continues[k] >= branched.codes.len());
                assert(two.at[second.continues[k] as int] == shallow(emitter));
                assert(cleared.at[second.continues[k] as int] == two.at[second.continues[k] as int]);
            }
        }
    }
}

/// The code of an `if`: both ways through it leave the stack as they
/// found it.
#[verifier::spinoff_prover]
proof fn lemma_branch_in_step(stmt: StmtView, emitter: Emitter, typing: Typing, in_loop: bool) -> (res:
    Typing)
    requires
        ready(emitter, typing, declared(stmt, emitter.scopes.depth), in_loop),
        tidy_stmt(stmt, in_loop),
        stmt is Branch,
    ensures
        c_stmt(stmt, emitter) matches Ok(after) ==> statement_left(
            emitter,
            typing,
            after,
            res,
            in_loop,
        ) && level_stmt(stmt, emitter, res.at),
    decreases stmt, 0nat,
{
    reveal(c_stmt);
    lemma_shape(emitter, typing);
    let depth = emitter.scopes.depth;
    let res = match stmt {
        StmtView::Branch { condition, then_branch, else_branch } => {
            let one = lemma_expression_in_step(condition, emitter, typing);
            match c_expr(condition, emitter) {
                Ok(first) => {
                    let jump_false = first.codes.len() as int;
                    lemma_shape(first, one);
                    let popped = lemma_test(first, one, OpView::JumpIfFalse(0), (0, 0));
                    let branched = first.emit(OpView::JumpIfFalse(0), (0, 0)).emit(
                        OpView::Pop,
                        (0, 0),
                    );
                    lemma_plain_declares_nothing(*then_branch, depth);
                    lemma_statement_grows_table(*then_branch, branched);
                    let two = lemma_statement_in_step(*then_branch, branched, popped, in_loop);
                    match c_stmt(*then_branch, branched) {
                        Ok(second) => {
                            assert(second.scopes.variables =~= emitter.scopes.variables);
                            let jump = second.codes.len() as int;
                            lemma_shape(second, two);
                            assert(popped.holes.contains(jump_false));
                            if fits(second) {
                                assert forall|k: int|
                                    0 <= k < second.breaks.len() implies second.breaks[k]
                                    != jump_false by {
                                    if k < emitter.breaks.len() {
                                        assert(second.breaks[k] == emitter.breaks[k]);
                                    } else {
                                        assert(second.breaks[k] >= branched.codes.len());
                                    }
                                }
                                assert forall|k: int|
                                    0 <= k < second.continues.len() implies second.continues[k]
                                    != jump_false by {
                                    if k < emitter.continues.len() {
                                        assert(second.continues[k] == emitter.continues[k]);
                                    } else {
                                        assert(second.continues[k] >= branched.codes.len());
                                    }
                                }
                            }
                            let cleared = lemma_join(second, two, jump_false);
                            let joined = second.emit(OpView::Jump(0), (0, 0)).patched(
                                jump_false,
                            ).emit(OpView::Pop, (0, 0));
                            lemma_shape(joined, cleared);
                            assert(cleared.holes.contains(jump));
                            assert(shallow(branched) == shallow(emitter));
                            match else_branch {
                                Some(otherwise) => {
                                    lemma_plain_declares_nothing(*otherwise, depth);
                                    lemma_statement_grows_table(*otherwise, joined);
                                    let three = lemma_statement_in_step(
                                        *otherwise,
                                        joined,
                                        cleared,
                                        in_loop,
                                    );
                                    match c_stmt(*otherwise, joined) {
                                        Ok(third) => {
                                            assert(third.scopes.variables
                                                =~= emitter.scopes.variables);
                                            assert(shallow(joined) == shallow(emitter));
                                            lemma_shape(third, three);
                                            if fits(third) {
                                                assert(three.holes.contains(jump));
                                                assert(three.at[jump] == cleared.at[jump]);
                                                assert forall|k: int|
                                                    0 <= k < third.breaks.len() implies third.breaks[k]
                                                    != jump by {
                                                    if k < joined.breaks.len() {
                                                        assert(third.breaks[k] == second.breaks[k]);
                                                    } else {
                                                        assert(third.breaks[k]
                                                            >= joined.codes.len());
                                                    }
                                                }
                                                assert forall|k: int|
                                                    0 <= k < third.continues.len() implies third.continues[k]
                                                    != jump by {
                                                    if k < joined.continues.len() {
                                                        assert(third.continues[k]
                                                            == second.continues[k]);
                                                    } else {
                                                        assert(third.continues[k]
                                                            >= joined.codes.len());
                                                    }
                                                }
                                            }
                                            let res = lemma_patch(third, three, jump);
                                            assert(kept_heights(two, res));
                                            assert(level_stmt(*then_branch, branched, res.at));
                                            assert(level_stmt(*otherwise, joined, res.at));
                                            lemma_branch_left(
                                                emitter,
                                                typing,
                                                branched,
                                                popped,
                                                second,
                                                two,
                                                joined,
                                                cleared,
                                                third,
                                                three,
                                                jump_false,
                                                in_loop,
                                            );
                                            res
                                        },
                                        Err(_) => typing,
                                    }
                                },
                                None => {
                                    let res = lemma_patch(joined, cleared, jump);
                                    assert(kept_heights(two, res));
                                    assert(level_stmt(*then_branch, branched, res.at));
                                    lemma_branch_left(
                                        emitter,
                                        typing,
                                        branched,
                                        popped,
                                        second,
                                        two,
                                        joined,
                                        cleared,
                                        joined,
                                        cleared,
                                        jump_false,
                                        in_loop,
                                    );
                                    res
                                },
                            }
                        },
                        Err(_) => typing,
                    }
                },
                Err(_) => typing,
            }
        },
        _ => typing,
    };
    if c_stmt(stmt, emitter) is Ok {
        assert forall|index: int, locals: int| #[trigger]
            marked_within(stmt, emitter, index, locals) implies 0 <= index < res.at.len()
            && res.at[index] == locals by {
            match stmt {
                StmtView::Branch { condition, then_branch, else_branch } => {
                    assert(c_expr(condition, emitter) is Ok);
                    let first = c_expr(condition, emitter)->Ok_0;
                    if marked_stmt(*then_branch, tested(first), index, locals) {
                        assert(level_stmt(*then_branch, tested(first), res.at));
                        assert(res.at[index] == locals);
                    } else {
                        assert(c_stmt(*then_branch, tested(first)) is Ok);
                        let second = c_stmt(*then_branch, tested(first))->Ok_0;
                        match else_branch {
                            Some(otherwise) => {
                                let other = crate::heights::joined(
                                    second,
                                    first.codes.len() as int,
                                );
                                assert(marked_stmt(*otherwise, other, index, locals));
                                assert(level_stmt(*otherwise, other, res.at));
                                assert(res.at[index] == locals);
                            },
                            None => {
                                assert(false);
                            },
                        }
                    }
                },
                _ => {},
            }
        }
        lemma_level_around(stmt, emitter, typing, res, in_loop);
    }
    res
}


/// The emitter behind the test of a condition: the conditional jump
/// that waits, and the `Pop` that takes the tested value away.
pub open spec fn tested(first: Emitter) -> Emitter {
    first.emit(OpView::JumpIfFalse(0), (0, 0)).emit(OpView::Pop, (0, 0))
}

/// The end of a loop: the jump back leads to the condition with the
/// stack as the loop found it, and so do the way out where the condition
/// fails and the jumps of `break`.
#[verifier::spinoff_prover]
proof fn lemma_loop_end(
    emitter: Emitter,
    typing: Typing,
    first: Emitter,
    one: Typing,
    popped: Typing,
    second: Emitter,
    two: Typing,
    three: Typing,
    third: Emitter,
    four: Typing,
    in_loop: bool,
) -> (res: Typing)
    requires
        typed(emitter, typing),
        emitter.scopes.wf(),
        now(typing) == emitter.scopes.variables.len(),
        values_left(
            Emitter { loop_body_depth: emitter.scopes.depth, ..emitter },
            typing,
            first,
            one,
            1,
        ),
        typed(tested(first), popped),
        popped.holes == one.holes.insert(first.codes.len() as int),
        !one.holes.contains(first.codes.len() as int),
        kept_heights(one, popped),
        now(popped) == now(one) - 1,
        popped.at[first.codes.len() as int] == now(one),
        one.at.len() == first.codes.len() + 1,
        statement_left(tested(first), popped, second, two, true),
        second.scopes == emitter.scopes,
        second.loop_body_depth == emitter.scopes.depth,
        typed(resumed(second, emitter.continues.len() as int), three),
        three.at == two.at,
        resumed(second, emitter.continues.len() as int).codes.len() == second.codes.len(),
        resumed(second, emitter.continues.len() as int) == (Emitter {
            codes: resumed(second, emitter.continues.len() as int).codes,
            continues: cut(second.continues, emitter.continues.len() as int),
            ..second
        }),
        fits(second) ==> three.holes.len() == two.holes.len() - (second.continues.len()
            - emitter.continues.len()),
        fits(second) ==> forall|i: int|
            #[trigger] two.holes.contains(i) && (forall|k: int|
                emitter.continues.len() <= k < second.continues.len() ==> second.continues[k] != i)
                ==> three.holes.contains(i),
        third == resumed(second, emitter.continues.len() as int) && four == three
            || statement_left(
            resumed(second, emitter.continues.len() as int),
            three,
            third,
            four,
            false,
        ),
        third.scopes == emitter.scopes,
        third.codes.len() - emitter.codes.len() < usize::MAX,
    ensures
        c_loop_end(emitter, emitter.codes.len(), first.codes.len() as int, third) matches Ok(after)
            && statement_left(emitter, typing, after, res, in_loop),
        kept_heights(four, res),
{
    let loop_start = emitter.codes.len();
    let jump_false = first.codes.len() as int;
    let branched = tested(first);
    let mark = emitter.continues.len() as int;
    let again = resumed(second, mark);
    let height = emitter.scopes.variables.len() as int;
    lemma_shape(emitter, typing);
    lemma_shape(first, one);
    lemma_shape(branched, popped);
    lemma_shape(second, two);
    lemma_shape(again, three);
    lemma_shape(third, four);
    lemma_none_deeper(emitter.scopes);
    assert(shallow(branched) == height);
    assert(again.continues =~= emitter.continues);
    assert(third.breaks == second.breaks);
    assert(third.continues == emitter.continues);
    let offset = (third.codes.len() - loop_start + 1) as usize;
    assert(four.at[loop_start as int] == typing.at[loop_start as int]);
    let back = lemma_emit(third, four, OpView::JumpForward(offset), now(one));
    let turned = third.emit(OpView::JumpForward(offset), (0, 0));
    if fits(turned) {
        assert(fits(second));
        assert(popped.holes.contains(jump_false));
        assert(two.holes.contains(jump_false));
        assert forall|k: int| mark <= k < second.continues.len() implies second.continues[k]
            != jump_false by {
            assert(second.continues[k] >= branched.codes.len());
        }
        assert(three.holes.contains(jump_false));
        assert(four.holes.contains(jump_false));
        assert(back.holes.contains(jump_false));
        assert(two.at[jump_false] == now(one));
        assert(four.at[jump_false] == now(one));
        assert(back.at[jump_false] == now(one));
        assert forall|k: int| 0 <= k < turned.breaks.len() implies turned.breaks[k]
            != jump_false by {
            if k < emitter.breaks.len() {
                assert(second.breaks[k] == emitter.breaks[k]);
            } else {
                assert(second.breaks[k] >= branched.codes.len());
            }
        }
        assert forall|k: int| 0 <= k < turned.continues.len() implies turned.continues[k]
            != jump_false by {}
    }
    let landed = lemma_patch(turned, back, jump_false);
    let cleared = lemma_emit(turned.patched(jump_false), landed, OpView::Pop, now(one) - 1);
    let closed = turned.patched(jump_false).emit(OpView::Pop, (0, 0));
    lemma_shape(closed, cleared);
    let from = emitter.breaks.len() as int;
    if fits(closed) {
        assert forall|k: int| from <= k < closed.breaks.len() implies cleared.at[
            #[trigger] closed.breaks[k] as int] == now(cleared) by {
            assert(second.breaks[k] >= branched.codes.len());
            assert(two.at[second.breaks[k] as int] == height);
            assert(four.at[second.breaks[k] as int] == two.at[second.breaks[k] as int]);
        }
    }
    let res = lemma_settle_breaks(closed, cleared, from, emitter.loop_body_depth);
    let after = left_loop(closed, from, emitter.loop_body_depth);
    assert(c_loop_end(emitter, loop_start, jump_false, third) == Ok::<
        Emitter,
        crate::error::ErrorView,
    >(after));
    assert(after.breaks =~= emitter.breaks);
    assert(after.continues =~= emitter.continues);
    assert(kept_heights(typing, res));
    if fits(after) {
        assert(fits(second));
        assert forall|i: int| #[trigger] typing.holes.contains(i) implies res.holes.contains(i) by {
            assert(one.holes.contains(i));
            assert(popped.holes.contains(i));
            assert(two.holes.contains(i));
            assert forall|k: int| mark <= k < second.continues.len() implies second.continues[k]
                != i by {
                assert(second.continues[k] >= branched.codes.len());
            }
            assert(three.holes.contains(i));
            assert(four.holes.contains(i));
            assert(cleared.holes.contains(i));
            assert forall|k: int| from <= k < closed.breaks.len() implies closed.breaks[k]
                != i by {
                assert(second.breaks[k] >= branched.codes.len());
            }
        }
    }
    res
}

/// The code of a loop: every way through it, and every way out of it,
/// leaves the stack as the loop found it.
#[verifier::spinoff_prover]
proof fn lemma_loop_in_step(stmt: StmtView, emitter: Emitter, typing: Typing, in_loop: bool) -> (res:
    Typing)
    requires
        ready(emitter, typing, declared(stmt, emitter.scopes.depth), in_loop),
        tidy_stmt(stmt, in_loop),
        stmt is While,
    ensures
        c_stmt(stmt, emitter) matches Ok(after) ==> statement_left(
            emitter,
            typing,
            after,
            res,
            in_loop,
        ) && level_stmt(stmt, emitter, res.at),
    decreases stmt, 0nat,
{
    reveal(c_stmt);
    lemma_shape(emitter, typing);
    let depth = emitter.scopes.depth;
    let res = match stmt {
        StmtView::While { condition, body, increment } => {
            let loop_start = emitter.codes.len();
            let entered = Emitter { loop_body_depth: depth, ..emitter };
            lemma_same_code(emitter, typing, entered);
            let one = lemma_expression_in_step(condition, entered, typing);
            match c_expr(condition, entered) {
                Ok(first) => {
                    lemma_shape(first, one);
                    let jump_false = first.codes.len() as int;
                    let popped = lemma_test(first, one, OpView::JumpIfFalse(0), (0, 0));
                    let branched = tested(first);
                    lemma_plain_declares_nothing(*body, depth);
                    lemma_statement_grows_table(*body, branched);
                    lemma_none_deeper(emitter.scopes);
                    let two = lemma_statement_in_step(*body, branched, popped, true);
                    match c_stmt(*body, branched) {
                        Ok(second) => {
                            assert(second.scopes.variables =~= emitter.scopes.variables);
                            lemma_shape(second, two);
                            let mark = emitter.continues.len() as int;
                            let three = lemma_settle_continues(second, two, mark);
                            let again = resumed(second, mark);
                            let four = match increment {
                                Some(step) => {
                                    lemma_plain_declares_nothing(*step, depth);
                                    lemma_statement_grows_table(*step, again);
                                    lemma_statement_in_step(*step, again, three, false)
                                },
                                None => three,
                            };
                            let stepped = match increment {
                                Some(step) => c_stmt(*step, again),
                                None => Ok(again),
                            };
                            match stepped {
                                Ok(third) => {
                                    assert(third.scopes.variables =~= emitter.scopes.variables);
                                    if third.codes.len() - loop_start >= usize::MAX {
                                        typing
                                    } else {
                                        let res = lemma_loop_end(
                                            emitter,
                                            typing,
                                            first,
                                            one,
                                            popped,
                                            second,
                                            two,
                                            three,
                                            third,
                                            four,
                                            in_loop,
                                        );
                                        assert(kept_heights(two, res));
                                        assert(level_stmt(*body, branched, res.at));
                                        match increment {
                                            Some(step) => {
                                                assert(level_stmt(*step, again, res.at));
                                            },
                                            None => {},
                                        }
                                        res
                                    }
                                },
                                Err(_) => typing,
                            }
                        },
                        Err(_) => typing,
                    }
                },
                Err(_) => typing,
            }
        },
        _ => typing,
    };
    if c_stmt(stmt, emitter) is Ok {
        assert forall|index: int, locals: int| #[trigger]
            marked_within(stmt, emitter, index, locals) implies 0 <= index < res.at.len()
            && res.at[index] == locals by {
            match stmt {
                StmtView::While { condition, body, increment } => {
                    assert(c_expr(condition, looping(emitter)) is Ok);
                    let first = c_expr(condition, looping(emitter))->Ok_0;
                    if marked_stmt(*body, tested(first), index, locals) {
                        assert(level_stmt(*body, tested(first), res.at));
                        assert(res.at[index] == locals);
                    } else {
                        assert(c_stmt(*body, tested(first)) is Ok);
                        let second = c_stmt(*body, tested(first))->Ok_0;
                        match increment {
                            Some(step) => {
                                let again = resumed(second, emitter.continues.len() as int);
                                assert(marked_stmt(*step, again, index, locals));
                                assert(level_stmt(*step, again, res.at));
                                assert(res.at[index] == locals);
                            },
                            None => {
                                assert(false);
                            },
                        }
                    }
                },
                _ => {},
            }
        }
        lemma_level_around(stmt, emitter, typing, res, in_loop);
    }
    res
}

} // verus!
