//! What the compiler writes, as functions of the syntax tree.
//!
//! An `Emitter` is the state of the compilation of one function: the code
//! written so far, the table of locals, and the jumps that wait for their
//! targets. `c_expr` and `c_stmt` say what an expression and a statement add
//! to it.

use vstd::prelude::*;
use crate::bytecode::{ConstView, FunctionView, OpView};
use crate::environment::{all_deeper, declared_at, latest, ScopesView};
use crate::error::{ErrorView, Position};
use crate::expr::ExprView;
use crate::stmt::StmtView;
use crate::token::TokenView;
use crate::types::{FuncType, Function, LiteralView, TokenType};

verus! {

/// The compilation of one function in progress.
pub struct Emitter {
    pub name: Seq<char>,
    pub func_type: FuncType,
    pub codes: Seq<OpView>,
    pub positions: Seq<Position>,
    pub scopes: ScopesView,
    /// Indices of the jumps of `break` that wait for the end of their loop.
    pub breaks: Seq<usize>,
    /// Indices of the jumps of `continue` that wait for the end of their
    /// loop's body.
    pub continues: Seq<usize>,
    /// The depth at which the innermost loop stands.
    pub loop_body_depth: usize,
    /// Whether a `return` statement has been compiled.
    pub is_returned: bool,
    /// How many functions without a name have been given one.
    pub lambdas: usize,
}

/// The list cut down to its first `n` members, if it has more.
pub open spec fn cut(list: Seq<usize>, n: int) -> Seq<usize> {
    if 0 <= n <= list.len() {
        list.subrange(0, n)
    } else {
        list
    }
}

/// The constant that a value of the syntax tree stands for; a function is
/// no such value.
pub open spec fn constant(value: LiteralView) -> Option<ConstView> {
    match value {
        LiteralView::String(text) => Some(ConstView::String(text)),
        LiteralView::Number(bits) => Some(ConstView::Number(bits)),
        LiteralView::Bool(b) => Some(ConstView::Bool(b)),
        LiteralView::Nil => Some(ConstView::Nil),
        LiteralView::Function(_) => None,
    }
}

/// The error that the compiler reports at `token`.
pub open spec fn refused(token: TokenView, msg: Seq<char>) -> ErrorView {
    ErrorView::Runtime { position: token.position, lexeme: token.lexeme, msg }
}

pub open spec fn unsupported(token: TokenView) -> ErrorView {
    refused(token, "Classes are not supported by the bytecode compiler."@)
}

/// The instruction of a compound assignment to the local in `slot`.
pub open spec fn fused_local_code(token_type: TokenType, slot: usize) -> Option<OpView> {
    match token_type {
        TokenType::PlusEqual => Some(OpView::AddILocal(slot)),
        TokenType::MinusEqual => Some(OpView::SubILocal(slot)),
        TokenType::StarEqual => Some(OpView::MulILocal(slot)),
        TokenType::SlashEqual => Some(OpView::DivILocal(slot)),
        TokenType::ModEqual => Some(OpView::ModILocal(slot)),
        _ => None,
    }
}

/// The instruction of a compound assignment to the global `name`.
pub open spec fn fused_global_code(token_type: TokenType, name: Seq<char>) -> Option<OpView> {
    match token_type {
        TokenType::PlusEqual => Some(OpView::AddIGlobal(name)),
        TokenType::MinusEqual => Some(OpView::SubIGlobal(name)),
        TokenType::StarEqual => Some(OpView::MulIGlobal(name)),
        TokenType::SlashEqual => Some(OpView::DivIGlobal(name)),
        TokenType::ModEqual => Some(OpView::ModIGlobal(name)),
        _ => None,
    }
}

impl Emitter {
    /// The compilation of the function `name` at its start. The program
    /// itself, of kind `Main`, starts with no locals at depth 0. Any other
    /// function starts at depth 1 with its slot 0 taken by the function
    /// itself, under its own name.
    pub open spec fn started(name: Seq<char>, func_type: FuncType, lambdas: usize) -> Emitter {
        Emitter {
            name,
            func_type,
            codes: Seq::empty(),
            positions: Seq::empty(),
            scopes: if func_type == FuncType::Main {
                ScopesView { variables: Seq::empty(), depth: 0 }
            } else {
                ScopesView { variables: seq![(name, 0usize)], depth: 1 }
            },
            breaks: Seq::empty(),
            continues: Seq::empty(),
            loop_body_depth: 0,
            is_returned: false,
            lambdas,
        }
    }

    /// One instruction more.
    pub open spec fn emit(self, code: OpView, position: Position) -> Emitter {
        Emitter {
            codes: self.codes.push(code),
            positions: self.positions.push(position),
            ..self
        }
    }

    /// `n` instructions `Pop` more, at no position of the source.
    pub open spec fn pops(self, n: nat) -> Emitter
        decreases n,
    {
        if n == 0 {
            self
        } else {
            self.pops((n - 1) as nat).emit(OpView::Pop, (0, 0))
        }
    }

    /// The forward jump at `index` made to lead to the instruction that
    /// will be written next. An instruction that is no forward jump is
    /// left as it is.
    pub open spec fn patched(self, index: int) -> Emitter {
        if 0 <= index < self.codes.len() {
            let offset = (self.codes.len() - 1 - index) as usize;
            match self.codes[index] {
                OpView::Jump(_) => Emitter {
                    codes: self.codes.update(index, OpView::Jump(offset)),
                    ..self
                },
                OpView::JumpIfTrue(_) => Emitter {
                    codes: self.codes.update(index, OpView::JumpIfTrue(offset)),
                    ..self
                },
                OpView::JumpIfFalse(_) => Emitter {
                    codes: self.codes.update(index, OpView::JumpIfFalse(offset)),
                    ..self
                },
                _ => self,
            }
        } else {
            self
        }
    }

    /// Every jump whose index stands in `waiting` from `from` up to `to`
    /// made to lead to the instruction that will be written next.
    pub open spec fn patched_all(self, waiting: Seq<usize>, from: int, to: int) -> Emitter
        decreases to - from,
    {
        if to <= from || to > waiting.len() || from < 0 {
            self
        } else {
            self.patched_all(waiting, from, to - 1).patched(waiting[to - 1] as int)
        }
    }

    pub open spec fn with_scopes(self, scopes: ScopesView) -> Emitter {
        Emitter { scopes, ..self }
    }

    /// A local declared at the current depth, in the next slot; an error
    /// if the name is declared at this depth already.
    pub open spec fn declare(self, name: TokenView) -> Result<Emitter, ErrorView> {
        if declared_at(self.scopes.variables, name.lexeme, self.scopes.depth) {
            Err(refused(name, "Already a variable with this name in this scope."@))
        } else {
            Ok(self.with_scopes(self.scopes.defined(name.lexeme, self.scopes.depth)))
        }
    }

    /// The first `n` of the parameters declared, each in the next slot.
    pub open spec fn declare_all(self, params: Seq<TokenView>, n: int) -> Result<Emitter, ErrorView>
        decreases n,
    {
        if n <= 0 || n > params.len() {
            Ok(self)
        } else {
            match self.declare_all(params, n - 1) {
                Ok(emitter) => emitter.declare(params[n - 1]),
                Err(error) => Err(error),
            }
        }
    }

    /// The function whose compilation has come to its end: unless a
    /// `return` statement stands in it, its code ends by returning `nil`.
    pub open spec fn finished(self, arity: usize) -> FunctionView {
        let ended = if self.is_returned {
            self
        } else {
            self.emit(OpView::Load(ConstView::Nil), (0, 0)).emit(OpView::Return, (0, 0))
        };
        FunctionView {
            name: self.name,
            codes: ended.codes,
            positions: ended.positions,
            arity,
            func_type: self.func_type,
        }
    }

    /// The instruction that reads the variable `name`: from its slot if it
    /// is a local, by its name if it is not.
    pub open spec fn read_of(self, name: Seq<char>) -> OpView {
        match latest(self.scopes.variables, name) {
            Some(slot) => OpView::GetLocal(slot as usize),
            None => OpView::GetGlobal(name),
        }
    }

    /// The instruction that writes the variable `name`.
    pub open spec fn write_of(self, name: Seq<char>) -> OpView {
        match latest(self.scopes.variables, name) {
            Some(slot) => OpView::SetLocal(slot as usize),
            None => OpView::SetGlobal(name),
        }
    }

    /// The instruction of the compound assignment `op` to the variable
    /// `name`.
    pub open spec fn fused_of(self, op: TokenType, name: Seq<char>) -> Option<OpView> {
        match latest(self.scopes.variables, name) {
            Some(slot) => fused_local_code(op, slot as usize),
            None => fused_global_code(op, name),
        }
    }

    /// The instructions that the operator of a two-operand expression
    /// stands for, once both operands lie on the stack; `None` for a token
    /// that is no such operator.
    pub open spec fn binary(self, token_type: TokenType, position: Position) -> Option<Emitter> {
        match token_type {
            TokenType::Plus => Some(self.emit(OpView::Add, position)),
            TokenType::Minus => Some(self.emit(OpView::Sub, position)),
            TokenType::Star => Some(self.emit(OpView::Mul, position)),
            TokenType::Slash => Some(self.emit(OpView::Div, position)),
            TokenType::Mod => Some(self.emit(OpView::Mod, position)),
            TokenType::BangEqual => Some(
                self.emit(OpView::Eq, position).emit(OpView::Not, position),
            ),
            TokenType::EqualEqual => Some(self.emit(OpView::Eq, position)),
            TokenType::Greater => Some(self.emit(OpView::Greater, position)),
            TokenType::GreaterEqual => Some(
                self.emit(OpView::Less, position).emit(OpView::Not, position),
            ),
            TokenType::Less => Some(self.emit(OpView::Less, position)),
            TokenType::LessEqual => Some(
                self.emit(OpView::Greater, position).emit(OpView::Not, position),
            ),
            _ => None,
        }
    }

    /// A value of the compiled function loaded, and bound to `name`: as a
    /// global at depth 0, as a local in the next slot anywhere else.
    pub open spec fn bind_function(self, function: FunctionView, name: TokenView) -> Result<
        Emitter,
        ErrorView,
    > {
        let loaded = self.emit(OpView::Load(ConstView::Function(function)), name.position);
        if self.scopes.depth == 0 {
            Ok(loaded.emit(OpView::DefineGlobal(name.lexeme), name.position))
        } else {
            loaded.declare(name)
        }
    }
}

/// The function compiled from its parameters and its body, and the count
/// of names given to functions without one.
#[verifier::opaque]
pub open spec fn c_function(
    name: Seq<char>,
    params: Seq<TokenView>,
    body: Seq<StmtView>,
    func_type: FuncType,
    lambdas: usize,
) -> Result<(FunctionView, usize), ErrorView>
    decreases body, body.len() + 1,
{
    match Emitter::started(name, func_type, lambdas).declare_all(params, params.len() as int) {
        Err(error) => Err(error),
        Ok(declared) => match c_stmts(body, body.len() as int, declared) {
            Err(error) => Err(error),
            Ok(compiled) => Ok((compiled.finished(params.len() as usize), compiled.lambdas)),
        },
    }
}

/// What an expression adds to the code: instructions that leave its value
/// on the stack.
#[verifier::opaque]
pub open spec fn c_expr(expr: ExprView, emitter: Emitter) -> Result<Emitter, ErrorView>
    decreases expr, 0nat,
{
    match expr {
        ExprView::Assign { name, value } => match c_expr(*value, emitter) {
            Err(error) => Err(error),
            Ok(after) => Ok(after.emit(after.write_of(name.lexeme), name.position)),
        },
        ExprView::Binary { left, op, right } => match c_expr(*left, emitter) {
            Err(error) => Err(error),
            Ok(first) => match c_expr(*right, first) {
                Err(error) => Err(error),
                Ok(second) => match second.binary(op.token_type, op.position) {
                    Some(after) => Ok(after),
                    None => Err(refused(op, "Unexpected operator"@)),
                },
            },
        },
        ExprView::Call { callee, paren, arguments } => match c_expr(
            *callee,
            emitter,
        ) {
            Err(error) => Err(error),
            Ok(first) => match c_exprs(arguments, arguments.len() as int, first) {
                Err(error) => Err(error),
                Ok(after) => Ok(
                    after.emit(OpView::Call(arguments.len() as usize), paren.position),
                ),
            },
        },
        ExprView::Grouping { expression } => c_expr(*expression, emitter),
        ExprView::Literal { value, token } => {
            match constant(value) {
                Some(constant) => Ok(emitter.emit(OpView::Load(constant), token.position)),
                None => Err(refused(token, "A function cannot stand as a constant."@)),
            }
        },
        ExprView::Logical { left, op, right } => {
            if op.token_type != TokenType::And && op.token_type != TokenType::Or {
                Err(refused(op, "Unexpected operator"@))
            } else {
                match c_expr(*left, emitter) {
                    Err(error) => Err(error),
                    Ok(first) => {
                        let jump = first.codes.len() as int;
                        let branched = first.emit(
                            if op.token_type == TokenType::And {
                                OpView::JumpIfFalse(0)
                            } else {
                                OpView::JumpIfTrue(0)
                            },
                            op.position,
                        ).emit(OpView::Pop, (0, 0));
                        match c_expr(*right, branched) {
                            Err(error) => Err(error),
                            Ok(second) => Ok(second.patched(jump)),
                        }
                    },
                }
            }
        },
        ExprView::Ternary { condition, true_value, false_value } => match c_expr(
            *condition,
            emitter,
        ) {
            Err(error) => Err(error),
            Ok(first) => {
                let jump_false = first.codes.len() as int;
                let branched = first.emit(OpView::JumpIfFalse(0), (0, 0)).emit(
                    OpView::Pop,
                    (0, 0),
                );
                match c_expr(*true_value, branched) {
                    Err(error) => Err(error),
                    Ok(second) => {
                        let jump = second.codes.len() as int;
                        let joined = second.emit(OpView::Jump(0), (0, 0)).patched(jump_false).emit(
                            OpView::Pop,
                            (0, 0),
                        );
                        match c_expr(*false_value, joined) {
                            Err(error) => Err(error),
                            Ok(third) => Ok(third.patched(jump)),
                        }
                    },
                }
            },
        },
        ExprView::Unary { op, right } => match c_expr(*right, emitter) {
            Err(error) => Err(error),
            Ok(after) => {
                if op.token_type == TokenType::Minus {
                    Ok(after.emit(OpView::Negate, op.position))
                } else if op.token_type == TokenType::Bang {
                    Ok(after.emit(OpView::Not, op.position))
                } else {
                    Err(refused(op, "Operand must be number or bool"@))
                }
            },
        },
        ExprView::Variable { name } => Ok(
            emitter.emit(emitter.read_of(name.lexeme), name.position),
        ),
        ExprView::Lambda { keyword, params, body } => {
            if emitter.lambdas == usize::MAX {
                Err(ErrorView::Unexpected { message: "Too many functions without a name."@ })
            } else {
                match c_function(
                    Function::spec_lambda_name((emitter.lambdas + 1) as nat),
                    params,
                    body,
                    FuncType::Lambda,
                    (emitter.lambdas + 1) as usize,
                ) {
                    Err(error) => Err(error),
                    Ok(compiled) => Ok(
                        Emitter { lambdas: compiled.1, ..emitter }.emit(
                            OpView::Load(ConstView::Function(compiled.0)),
                            keyword.position,
                        ),
                    ),
                }
            }
        },
        ExprView::OperateAndAssign { name, op, value } => match c_expr(
            *value,
            emitter,
        ) {
            Err(error) => Err(error),
            Ok(after) => match after.fused_of(op.token_type, name.lexeme) {
                Some(code) => Ok(after.emit(code, op.position)),
                None => Err(refused(op, "Unexpected operator"@)),
            },
        },
        ExprView::GetField { object, name } => Err(unsupported(name)),
        ExprView::SetField { object, name, value } => Err(unsupported(name)),
        ExprView::Super { keyword, method } => Err(unsupported(keyword)),
        ExprView::SelfReference { keyword } => Err(unsupported(keyword)),
    }
}

/// What the first `n` of the expressions add to the code, one after the
/// other.
#[verifier::opaque]
pub open spec fn c_exprs(exprs: Seq<ExprView>, n: int, emitter: Emitter) -> Result<
    Emitter,
    ErrorView,
>
    decreases exprs, n,
{
    if n <= 0 || n > exprs.len() {
        Ok(emitter)
    } else {
        match c_exprs(exprs, n - 1, emitter) {
            Err(error) => Err(error),
            Ok(before) => c_expr(exprs[n - 1], before),
        }
    }
}

/// What a statement adds to the code: instructions that leave the stack as
/// they found it, but for the slots of the locals that the statement
/// declares.
#[verifier::opaque]
pub open spec fn c_stmt(stmt: StmtView, emitter: Emitter) -> Result<Emitter, ErrorView>
    decreases stmt, 0nat,
{
    match stmt {
        StmtView::Expression { expression, end } => match c_expr(expression, emitter) {
            Err(error) => Err(error),
            Ok(after) => Ok(after.emit(OpView::Pop, end.position)),
        },
        StmtView::Print { expression, keyword } => match c_expr(expression, emitter) {
            Err(error) => Err(error),
            Ok(after) => Ok(after.emit(OpView::Print, keyword.position)),
        },
        StmtView::Var { name, initializer } => {
            let valued = match initializer {
                Some(init) => c_expr(init, emitter),
                None => Ok(emitter.emit(OpView::Load(ConstView::Nil), name.position)),
            };
            match valued {
                Err(error) => Err(error),
                Ok(after) => {
                    if after.scopes.depth > 0 {
                        after.declare(name)
                    } else {
                        Ok(after.emit(OpView::DefineGlobal(name.lexeme), name.position))
                    }
                },
            }
        },
        StmtView::MultiVar { vars } => c_stmts(vars, vars.len() as int, emitter),
        StmtView::Block { statements } => {
            if emitter.scopes.depth == usize::MAX {
                Err(ErrorView::Unexpected { message: "Blocks are nested too deep."@ })
            } else {
                let entered = emitter.with_scopes(
                    ScopesView {
                        variables: emitter.scopes.variables,
                        depth: (emitter.scopes.depth + 1) as usize,
                    },
                );
                match c_stmts(statements, statements.len() as int, entered) {
                    Err(error) => Err(error),
                    Ok(inside) => Ok(
                        inside.with_scopes(inside.scopes.ended()).pops(
                            all_deeper(inside.scopes.variables, inside.scopes.depth - 1),
                        ),
                    ),
                }
            }
        },
        StmtView::Branch { condition, then_branch, else_branch } => match c_expr(
            condition,
            emitter,
        ) {
            Err(error) => Err(error),
            Ok(first) => {
                let jump_false = first.codes.len() as int;
                let branched = first.emit(OpView::JumpIfFalse(0), (0, 0)).emit(
                    OpView::Pop,
                    (0, 0),
                );
                match c_stmt(*then_branch, branched) {
                    Err(error) => Err(error),
                    Ok(second) => {
                        let jump = second.codes.len() as int;
                        let joined = second.emit(OpView::Jump(0), (0, 0)).patched(jump_false).emit(
                            OpView::Pop,
                            (0, 0),
                        );
                        match else_branch {
                            Some(else_branch) => match c_stmt(*else_branch, joined) {
                                Err(error) => Err(error),
                                Ok(third) => Ok(third.patched(jump)),
                            },
                            None => Ok(joined.patched(jump)),
                        }
                    },
                }
            },
        },
        StmtView::While { condition, body, increment } => {
            let loop_start = emitter.codes.len();
            let entered = Emitter { loop_body_depth: emitter.scopes.depth, ..emitter };
            match c_expr(condition, entered) {
                Err(error) => Err(error),
                Ok(first) => {
                    let jump_false = first.codes.len() as int;
                    let branched = first.emit(OpView::JumpIfFalse(0), (0, 0)).emit(
                        OpView::Pop,
                        (0, 0),
                    );
                    match c_stmt(*body, branched) {
                        Err(error) => Err(error),
                        Ok(second) => {
                            let resumed = Emitter {
                                continues: cut(
                                    second.continues,
                                    emitter.continues.len() as int,
                                ),
                                ..second.patched_all(
                                    second.continues,
                                    emitter.continues.len() as int,
                                    second.continues.len() as int,
                                )
                            };
                            let stepped = match increment {
                                Some(increment) => c_stmt(*increment, resumed),
                                None => Ok(resumed),
                            };
                            match stepped {
                                Err(error) => Err(error),
                                Ok(third) => c_loop_end(emitter, loop_start, jump_false, third),
                            }
                        },
                    }
                },
            }
        },
        StmtView::Continue { token } => {
            let unwound = emitter.pops(
                all_deeper(emitter.scopes.variables, emitter.loop_body_depth as int),
            );
            Ok(
                Emitter {
                    continues: unwound.continues.push(unwound.codes.len() as usize),
                    ..unwound.emit(OpView::Jump(0), token.position)
                },
            )
        },
        StmtView::Break { token } => {
            let unwound = emitter.pops(
                all_deeper(emitter.scopes.variables, emitter.loop_body_depth as int),
            );
            Ok(
                Emitter {
                    breaks: unwound.breaks.push(unwound.codes.len() as usize),
                    ..unwound.emit(OpView::Jump(0), token.position)
                },
            )
        },
        StmtView::Function { name, params, body, function_type } => match c_function(
            name.lexeme,
            params,
            body,
            FuncType::Normal,
            emitter.lambdas,
        ) {
            Err(error) => Err(error),
            Ok(compiled) => Emitter { lambdas: compiled.1, ..emitter }.bind_function(
                compiled.0,
                name,
            ),
        },
        StmtView::Return { key_word, value } => {
            let marked = Emitter { is_returned: true, ..emitter };
            let valued = match value {
                Some(value) => c_expr(value, marked),
                None => Ok(marked.emit(OpView::Load(ConstView::Nil), key_word.position)),
            };
            match valued {
                Err(error) => Err(error),
                Ok(after) => Ok(after.emit(OpView::Return, key_word.position)),
            }
        },
        StmtView::Class { name, methods, static_methods } => Err(unsupported(name)),
    }
}

/// The end of a loop that began at `loop_start` in `outer`: the jump back,
/// the target of the jump that leaves the loop when the condition fails,
/// and the targets of the jumps of `break`.
pub open spec fn c_loop_end(outer: Emitter, loop_start: nat, jump_false: int, body: Emitter) -> Result<
    Emitter,
    ErrorView,
> {
    if body.codes.len() - loop_start >= usize::MAX {
        Err(ErrorView::Unexpected { message: "The code is too long."@ })
    } else {
        let closed = body.emit(
            OpView::JumpForward((body.codes.len() - loop_start + 1) as usize),
            (0, 0),
        ).patched(jump_false).emit(OpView::Pop, (0, 0));
        Ok(
            Emitter {
                breaks: cut(closed.breaks, outer.breaks.len() as int),
                loop_body_depth: outer.loop_body_depth,
                ..closed.patched_all(
                    closed.breaks,
                    outer.breaks.len() as int,
                    closed.breaks.len() as int,
                )
            },
        )
    }
}

/// What the first `n` of the statements add to the code, one after the
/// other.
#[verifier::opaque]
pub open spec fn c_stmts(stmts: Seq<StmtView>, n: int, emitter: Emitter) -> Result<
    Emitter,
    ErrorView,
>
    decreases stmts, n,
{
    if n <= 0 || n > stmts.len() {
        Ok(emitter)
    } else {
        match c_stmts(stmts, n - 1, emitter) {
            Err(error) => Err(error),
            Ok(before) => c_stmt(stmts[n - 1], before),
        }
    }
}

/// The function that a program compiles to.
pub open spec fn c_program(stmts: Seq<StmtView>) -> Result<FunctionView, ErrorView> {
    match c_stmts(stmts, stmts.len() as int, Emitter::started("__main__"@, FuncType::Main, 0)) {
        Err(error) => Err(error),
        Ok(compiled) => Ok(compiled.finished(0)),
    }
}

/// Once a parameter cannot be declared, nothing that follows is looked
/// at.
pub proof fn lemma_declare_all_stops(emitter: Emitter, params: Seq<TokenView>, k: int, n: int)
    requires
        0 <= k <= n <= params.len(),
        emitter.declare_all(params, k) is Err,
    ensures
        emitter.declare_all(params, n) == emitter.declare_all(params, k),
    decreases n - k,
{
    if n > k {
        lemma_declare_all_stops(emitter, params, k, n - 1);
    }
}

/// The compiler stops at the first expression that it cannot compile.
pub proof fn lemma_c_exprs_stops(exprs: Seq<ExprView>, k: int, n: int, emitter: Emitter)
    requires
        0 <= k <= n <= exprs.len(),
        c_exprs(exprs, k, emitter) is Err,
    ensures
        c_exprs(exprs, n, emitter) == c_exprs(exprs, k, emitter),
    decreases n - k,
{
    reveal(c_exprs);
    if n > k {
        lemma_c_exprs_stops(exprs, k, n - 1, emitter);
    }
}

/// The compiler stops at the first statement that it cannot compile.
pub proof fn lemma_c_stmts_stops(stmts: Seq<StmtView>, k: int, n: int, emitter: Emitter)
    requires
        0 <= k <= n <= stmts.len(),
        c_stmts(stmts, k, emitter) is Err,
    ensures
        c_stmts(stmts, n, emitter) == c_stmts(stmts, k, emitter),
    decreases n - k,
{
    reveal(c_stmts);
    if n > k {
        lemma_c_stmts_stops(stmts, k, n - 1, emitter);
    }
}

/// `n` instructions `Pop`.
pub open spec fn pop_codes(n: nat) -> Seq<OpView> {
    Seq::new(n, |i: int| OpView::Pop)
}

/// Writing `Pop`s adds them to the code and changes nothing else.
pub proof fn lemma_pops(emitter: Emitter, n: nat)
    ensures
        emitter.pops(n) == (Emitter {
            codes: emitter.codes + pop_codes(n),
            positions: emitter.positions + Seq::new(n, |i: int| (0usize, 0usize)),
            ..emitter
        }),
    decreases n,
{
    if n == 0 {
        assert(emitter.codes + pop_codes(0) =~= emitter.codes);
        assert(emitter.positions + Seq::new(0, |i: int| (0usize, 0usize)) =~= emitter.positions);
    } else {
        lemma_pops(emitter, (n - 1) as nat);
        assert(emitter.codes + pop_codes(n) =~= (emitter.codes + pop_codes((n - 1) as nat)).push(
            OpView::Pop,
        ));
        assert(emitter.positions + Seq::new(n, |i: int| (0usize, 0usize)) =~= (emitter.positions
            + Seq::new((n - 1) as nat, |i: int| (0usize, 0usize))).push((0usize, 0usize)));
    }
}

/// Scope cleanup at the end of a block. The code of a block is the code
/// of its statements and behind it one `Pop` for every local that is
/// declared deeper than the block stands, no more and no fewer; those
/// locals leave the table, and the depth is what it was in front of the
/// block.
#[verifier::spinoff_prover]
pub proof fn lemma_block_cleans_up(stmt: StmtView, emitter: Emitter)
    requires
        stmt is Block,
        c_stmt(stmt, emitter) is Ok,
    ensures
        ({
            let statements = stmt->Block_statements;
            let entered = emitter.with_scopes(
                ScopesView {
                    variables: emitter.scopes.variables,
                    depth: (emitter.scopes.depth + 1) as usize,
                },
            );
            let inside = c_stmts(statements, statements.len() as int, entered);
            let after = c_stmt(stmt, emitter)->Ok_0;
            &&& inside is Ok
            &&& after.codes == inside->Ok_0.codes + pop_codes(
                all_deeper(inside->Ok_0.scopes.variables, inside->Ok_0.scopes.depth - 1),
            )
            &&& after.scopes == inside->Ok_0.scopes.ended()
        }),
{
    reveal(c_stmt);
    let statements = stmt->Block_statements;
    let entered = emitter.with_scopes(
        ScopesView {
            variables: emitter.scopes.variables,
            depth: (emitter.scopes.depth + 1) as usize,
        },
    );
    let inside = c_stmts(statements, statements.len() as int, entered);
    lemma_pops(
        inside->Ok_0.with_scopes(inside->Ok_0.scopes.ended()),
        all_deeper(inside->Ok_0.scopes.variables, inside->Ok_0.scopes.depth - 1),
    );
}

/// Scope cleanup at a jump out of a loop. The code of `break` and of
/// `continue` is one `Pop` for every local that is declared deeper than
/// the loop stands, no more and no fewer, and behind them the jump; the
/// table of locals is left as it is, for the code behind the jump is still
/// in their scopes.
#[verifier::spinoff_prover]
pub proof fn lemma_jump_cleans_up(stmt: StmtView, emitter: Emitter)
    requires
        stmt is Break || stmt is Continue,
    ensures
        c_stmt(stmt, emitter) is Ok,
        c_stmt(stmt, emitter)->Ok_0.codes == (emitter.codes + pop_codes(
            all_deeper(emitter.scopes.variables, emitter.loop_body_depth as int),
        )).push(OpView::Jump(0)),
        c_stmt(stmt, emitter)->Ok_0.scopes == emitter.scopes,
{
    reveal(c_stmt);
    lemma_pops(emitter, all_deeper(emitter.scopes.variables, emitter.loop_body_depth as int));
}

} // verus!
