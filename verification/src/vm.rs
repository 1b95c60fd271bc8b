//! The stack machine.
//!
//! The machine is a pure state machine. It holds a value stack, a stack of
//! call frames and the global variables, and `step` carries out one
//! instruction. Two things it cannot do itself are left to the program that
//! embeds it: floating-point arithmetic and output. Before an instruction
//! that needs the sum, difference, product, quotient or remainder of two
//! numbers, or the decimal text of a number, `request` says so, and the
//! embedding program hands the answer to `step`. An instruction that prints
//! makes `step` return the line to be written.

use vstd::prelude::*;
use vstd::string::*;
use std::rc::Rc;
use crate::chunk::Chunk;
use crate::error::{ErrorView, LoxError, Position};
use crate::globals::Globals;
use crate::number::{is_zero, num_lt, negate, spec_negate, spec_num_lt, truncates_to_zero};
use crate::number::{integer_part_is_zero, zero};
use crate::opcode::OpCode;
use crate::running::{
    in_order, keeps_order, lemma_loaded_in_order, lemma_step_keeps_order, starts_in_order,
};
use crate::bytecode::FunctionView;
use crate::text::{decimal, decimal_width2, usize_to_string, usize_to_string_width2};
use crate::types::{share_function, FuncType, Function, Literal, LiteralView};

verus! {

/// One activation of a function: the function, the index of its next
/// instruction, and the index in the value stack of the slot that holds the
/// function itself.
#[derive(Debug)]
pub struct CallFrame {
    pub function: Rc<Function>,
    pub ip: usize,
    pub slot: usize,
}

/// The arithmetic that is done outside the machine.
#[derive(Debug, Clone, Copy, PartialEq, Eq, Structural)]
pub enum NumberOp {
    Add,
    Sub,
    Mul,
    Div,
    Mod,
}

/// What the next instruction needs from outside before it can be carried
/// out.
#[derive(Debug, Clone, Copy, PartialEq, Eq, Structural)]
pub enum Request {
    Nothing,
    /// The result of `op` on the numbers `left` and `right`, as a bit
    /// pattern. For `Mod` both are first cut down to integers.
    Arithmetic { op: NumberOp, left: u64, right: u64 },
    /// The decimal text of `number`.
    Display { number: u64 },
}

/// The answer to a `Request`.
#[derive(Debug)]
pub enum Supply {
    Nothing,
    Number(u64),
    Text(String),
}

pub enum SupplyView {
    Nothing,
    Number(u64),
    Text(Seq<char>),
}

impl View for Supply {
    type V = SupplyView;

    open spec fn view(&self) -> SupplyView {
        match *self {
            Supply::Nothing => SupplyView::Nothing,
            Supply::Number(n) => SupplyView::Number(n),
            Supply::Text(t) => SupplyView::Text(t@),
        }
    }
}

/// What one instruction did besides changing the machine.
#[derive(Debug)]
pub enum Effect {
    /// Nothing: the machine is ready for its next instruction.
    Continue,
    /// A line to be written.
    Output(String),
    /// The program has ended.
    Halt,
}

pub enum EffectView {
    Continue,
    Output(Seq<char>),
    Halt,
}

impl View for Effect {
    type V = EffectView;

    open spec fn view(&self) -> EffectView {
        match *self {
            Effect::Continue => EffectView::Continue,
            Effect::Output(t) => EffectView::Output(t@),
            Effect::Halt => EffectView::Halt,
        }
    }
}

/// Why `run` came back.
#[derive(Debug)]
pub enum Pause {
    /// The program has ended.
    Halted,
    /// A line to be written.
    Output(String),
    /// The next instruction needs this from outside.
    Needs(Request),
    /// The allowance of instructions is used up.
    Suspended,
}

pub enum PauseView {
    Halted,
    Output(Seq<char>),
    Needs(Request),
    Suspended,
}

impl View for Pause {
    type V = PauseView;

    open spec fn view(&self) -> PauseView {
        match *self {
            Pause::Halted => PauseView::Halted,
            Pause::Output(t) => PauseView::Output(t@),
            Pause::Needs(r) => PauseView::Needs(r),
            Pause::Suspended => PauseView::Suspended,
        }
    }
}

/// The views of a result of `step`.
pub open spec fn effect_view(res: Result<Effect, LoxError>) -> Result<EffectView, ErrorView> {
    match res {
        Ok(e) => Ok(e@),
        Err(e) => Err(e@),
    }
}

/// The views of a result of `run`.
pub open spec fn pause_view(res: Result<Pause, LoxError>) -> Result<PauseView, ErrorView> {
    match res {
        Ok(p) => Ok(p@),
        Err(e) => Err(e@),
    }
}

impl NumberOp {
    /// The operator as written between two operands.
    pub open spec fn spec_symbol(self) -> Seq<char> {
        match self {
            NumberOp::Add => "+"@,
            NumberOp::Sub => "-"@,
            NumberOp::Mul => "*"@,
            NumberOp::Div => "/"@,
            NumberOp::Mod => "%"@,
        }
    }

    /// The operator as written in a compound assignment.
    pub open spec fn spec_fused_symbol(self) -> Seq<char> {
        match self {
            NumberOp::Add => "+="@,
            NumberOp::Sub => "-="@,
            NumberOp::Mul => "*="@,
            NumberOp::Div => "/="@,
            NumberOp::Mod => "%="@,
        }
    }

    /// Whether the operation cannot be done with this right operand: a
    /// division by zero, or a remainder by a number whose integer part is
    /// zero.
    pub open spec fn refuses(self, divisor: u64) -> bool {
        match self {
            NumberOp::Div => is_zero(divisor),
            NumberOp::Mod => truncates_to_zero(divisor),
            _ => false,
        }
    }

    pub fn symbol(&self) -> (res: &'static str)
        ensures
            res@ == self.spec_symbol(),
    {
        match self {
            NumberOp::Add => "+",
            NumberOp::Sub => "-",
            NumberOp::Mul => "*",
            NumberOp::Div => "/",
            NumberOp::Mod => "%",
        }
    }

    pub fn fused_symbol(&self) -> (res: &'static str)
        ensures
            res@ == self.spec_fused_symbol(),
    {
        match self {
            NumberOp::Add => "+=",
            NumberOp::Sub => "-=",
            NumberOp::Mul => "*=",
            NumberOp::Div => "/=",
            NumberOp::Mod => "%=",
        }
    }

    pub fn rejects(&self, divisor: u64) -> (res: bool)
        ensures
            res == self.refuses(divisor),
    {
        match self {
            NumberOp::Div => zero(divisor),
            NumberOp::Mod => integer_part_is_zero(divisor),
            _ => false,
        }
    }
}

/// The arithmetic of a two-operand instruction.
pub open spec fn binary_op(code: OpCode) -> Option<NumberOp> {
    match code {
        OpCode::Add => Some(NumberOp::Add),
        OpCode::Sub => Some(NumberOp::Sub),
        OpCode::Mul => Some(NumberOp::Mul),
        OpCode::Div => Some(NumberOp::Div),
        OpCode::Mod => Some(NumberOp::Mod),
        _ => None,
    }
}

/// The arithmetic and the variable of a compound assignment to a global.
pub open spec fn fused_global(code: OpCode) -> Option<(NumberOp, Seq<char>)> {
    match code {
        OpCode::AddIGlobal(name) => Some((NumberOp::Add, name@)),
        OpCode::SubIGlobal(name) => Some((NumberOp::Sub, name@)),
        OpCode::MulIGlobal(name) => Some((NumberOp::Mul, name@)),
        OpCode::DivIGlobal(name) => Some((NumberOp::Div, name@)),
        OpCode::ModIGlobal(name) => Some((NumberOp::Mod, name@)),
        _ => None,
    }
}

/// The arithmetic and the slot of a compound assignment to a local.
pub open spec fn fused_local(code: OpCode) -> Option<(NumberOp, usize)> {
    match code {
        OpCode::AddILocal(slot) => Some((NumberOp::Add, slot)),
        OpCode::SubILocal(slot) => Some((NumberOp::Sub, slot)),
        OpCode::MulILocal(slot) => Some((NumberOp::Mul, slot)),
        OpCode::DivILocal(slot) => Some((NumberOp::Div, slot)),
        OpCode::ModILocal(slot) => Some((NumberOp::Mod, slot)),
        _ => None,
    }
}

/// The position recorded for the instruction at `index`, or `(0, 0)` where
/// none is recorded.
pub open spec fn position_at(chunk: Chunk, index: int) -> Position {
    if 0 <= index < chunk.positions@.len() {
        chunk.positions@[index]
    } else {
        (0usize, 0usize)
    }
}

/// The line of an error report that names a frame waiting for a call to
/// return.
pub open spec fn frame_line(frame: CallFrame) -> Seq<char> {
    let position = position_at(frame.function.chunk, frame.ip as int);
    let place = "["@ + decimal_width2(position.0 as nat) + ","@ + decimal_width2(
        position.1 as nat,
    ) + "] Error in "@;
    if frame.function.func_type == FuncType::Lambda {
        place + "Lambda"@
    } else {
        place + "function `"@ + frame.function.name@ + "`"@
    }
}

/// The lines that name the given frames, the innermost (the last) first,
/// each on a line of its own.
pub open spec fn trace(frames: Seq<CallFrame>) -> Seq<char>
    decreases frames.len(),
{
    if frames.len() == 0 {
        Seq::empty()
    } else {
        "\n"@ + frame_line(frames.last()) + trace(frames.drop_last())
    }
}

/// The state of a machine.
pub struct Machine {
    pub stack: Seq<LiteralView>,
    pub globals: Map<Seq<char>, LiteralView>,
    pub frames: Seq<CallFrame>,
    pub is_repl: bool,
}

/// A machine after an instruction, and what the instruction did or why it
/// failed.
pub struct Outcome {
    pub machine: Machine,
    pub result: Result<EffectView, ErrorView>,
}

/// The instruction went through and the program goes on.
pub open spec fn next(machine: Machine) -> Outcome {
    Outcome { machine, result: Ok(EffectView::Continue) }
}

impl Machine {
    /// The instruction that is carried out next, if there is one.
    pub open spec fn fetch(self) -> Option<OpCode> {
        if self.frames.len() == 0 {
            None
        } else {
            let frame = self.frames.last();
            if frame.ip < frame.function.chunk.codes@.len() {
                Some(frame.function.chunk.codes@[frame.ip as int])
            } else {
                None
            }
        }
    }

    /// The index in the value stack of slot 0 of the running function.
    pub open spec fn base(self) -> int {
        self.frames.last().slot as int
    }

    pub open spec fn top(self) -> LiteralView {
        self.stack.last()
    }

    pub open spec fn below_top(self) -> LiteralView {
        self.stack[self.stack.len() - 2]
    }

    /// The machine with the running frame's next instruction set to `ip`.
    pub open spec fn jumped(self, ip: int) -> Machine {
        Machine {
            frames: self.frames.update(
                self.frames.len() - 1,
                CallFrame {
                    function: self.frames.last().function,
                    ip: ip as usize,
                    slot: self.frames.last().slot,
                },
            ),
            ..self
        }
    }

    /// The machine with the running frame moved on by one instruction.
    pub open spec fn advanced(self) -> Machine {
        self.jumped(self.frames.last().ip + 1)
    }

    pub open spec fn with_stack(self, stack: Seq<LiteralView>) -> Machine {
        Machine { stack, ..self }
    }

    /// The machine at rest: no frames, an empty stack, the globals kept.
    pub open spec fn stopped(self) -> Machine {
        Machine { stack: Seq::empty(), frames: Seq::empty(), ..self }
    }

    /// The line that `print` writes for a value whose text is `text`.
    pub open spec fn line(self, text: Seq<char>) -> Seq<char> {
        if self.is_repl {
            "\x1b[1;34m[REPL]: \x1b[0m"@ + text
        } else {
            text
        }
    }

    /// The runtime error raised by the instruction about to be carried out:
    /// placed where that instruction came from, and listing after the
    /// message every frame that waits for a call to return.
    pub open spec fn runtime_error(self, lexeme: Seq<char>, msg: Seq<char>) -> ErrorView {
        ErrorView::Runtime {
            position: position_at(
                self.frames.last().function.chunk,
                self.frames.last().ip as int,
            ),
            lexeme,
            msg: msg + trace(self.frames.drop_last()),
        }
    }

    /// The instruction fails with a runtime error; the machine comes to
    /// rest.
    pub open spec fn fail(self, lexeme: Seq<char>, msg: Seq<char>) -> Outcome {
        Outcome { machine: self.stopped(), result: Err(self.runtime_error(lexeme, msg)) }
    }

    /// The machine finds itself in a state that compiled code never
    /// produces; it comes to rest.
    pub open spec fn broken(self, message: Seq<char>) -> Outcome {
        Outcome { machine: self.stopped(), result: Err(ErrorView::Unexpected { message }) }
    }

    pub open spec fn underflow(self) -> Outcome {
        self.broken("Stack underflow."@)
    }

    /// What the next instruction needs from outside.
    pub open spec fn request(self) -> Request {
        match self.fetch() {
            None => Request::Nothing,
            Some(code) => {
                if binary_op(code) is Some {
                    let op = binary_op(code)->0;
                    if self.stack.len() < 2 {
                        Request::Nothing
                    } else {
                        match (self.below_top(), self.top()) {
                            (LiteralView::Number(left), LiteralView::Number(right)) => {
                                if op.refuses(right) {
                                    Request::Nothing
                                } else {
                                    Request::Arithmetic { op, left, right }
                                }
                            },
                            (LiteralView::String(_), LiteralView::Number(right)) => {
                                if op == NumberOp::Add {
                                    Request::Display { number: right }
                                } else {
                                    Request::Nothing
                                }
                            },
                            _ => Request::Nothing,
                        }
                    }
                } else if code is Print {
                    if self.stack.len() >= 1 && self.top() is Number {
                        Request::Display { number: self.top()->Number_0 }
                    } else {
                        Request::Nothing
                    }
                } else if fused_global(code) is Some {
                    let (op, name) = fused_global(code)->0;
                    if self.globals.dom().contains(name) && self.stack.len() >= 1 {
                        self.fused_request(op, self.globals[name])
                    } else {
                        Request::Nothing
                    }
                } else if fused_local(code) is Some {
                    let (op, slot) = fused_local(code)->0;
                    if self.base() + slot < self.stack.len() {
                        self.fused_request(op, self.stack[self.base() + slot])
                    } else {
                        Request::Nothing
                    }
                } else {
                    Request::Nothing
                }
            },
        }
    }

    /// What a compound assignment to a variable that holds `target` needs.
    pub open spec fn fused_request(self, op: NumberOp, target: LiteralView) -> Request {
        match (target, self.top()) {
            (LiteralView::Number(left), LiteralView::Number(right)) => {
                if op.refuses(right) {
                    Request::Nothing
                } else {
                    Request::Arithmetic { op, left, right }
                }
            },
            _ => Request::Nothing,
        }
    }

    /// The machine after an instruction that asked for arithmetic and got
    /// `number`.
    pub open spec fn store_number(self, code: OpCode, number: u64) -> Machine {
        if binary_op(code) is Some {
            self.advanced().with_stack(
                self.stack.drop_last().drop_last().push(LiteralView::Number(number)),
            )
        } else if fused_global(code) is Some {
            let (op, name) = fused_global(code)->0;
            Machine {
                globals: self.globals.insert(name, LiteralView::Number(number)),
                ..self.advanced()
            }
        } else {
            let (op, slot) = fused_local(code)->0;
            self.advanced().with_stack(
                self.stack.update(self.base() + slot, LiteralView::Number(number)),
            )
        }
    }

    /// The outcome of an instruction that asked for the text of a number
    /// and got `text`: `print` writes it, `+` appends it to the string on
    /// the left.
    pub open spec fn use_text(self, code: OpCode, text: Seq<char>) -> Outcome {
        if code is Print {
            Outcome {
                machine: self.advanced().with_stack(self.stack.drop_last()),
                result: Ok(EffectView::Output(self.line(text))),
            }
        } else {
            next(
                self.advanced().with_stack(
                    self.stack.drop_last().drop_last().push(
                        LiteralView::String(self.below_top()->String_0 + text),
                    ),
                ),
            )
        }
    }

    /// `Return`: the value on top replaces the callee and its arguments and
    /// the caller goes on; the return of the outermost function ends the
    /// program.
    pub open spec fn op_return(self) -> Outcome {
        if self.stack.len() < 1 {
            self.underflow()
        } else if self.frames.len() == 1 {
            Outcome { machine: self.stopped(), result: Ok(EffectView::Halt) }
        } else if self.base() > self.stack.len() - 1 {
            self.broken("Frame base out of range."@)
        } else {
            next(
                Machine {
                    stack: self.stack.subrange(0, self.base()).push(self.top()),
                    frames: self.frames.drop_last(),
                    ..self
                },
            )
        }
    }

    /// A two-operand arithmetic instruction that needs nothing from
    /// outside: a string and a value that is no number are joined; every
    /// other pair of operands is an error.
    pub open spec fn op_binary(self, op: NumberOp) -> Outcome {
        if self.stack.len() < 2 {
            self.underflow()
        } else {
            match (self.below_top(), self.top()) {
                (LiteralView::Number(_), LiteralView::Number(_)) => self.fail(
                    op.spec_symbol(),
                    "divisor cannot be 0."@,
                ),
                (LiteralView::String(left), right) => {
                    if op == NumberOp::Add {
                        next(
                            self.advanced().with_stack(
                                self.stack.drop_last().drop_last().push(
                                    LiteralView::String(left + right.text()),
                                ),
                            ),
                        )
                    } else {
                        self.fail(op.spec_symbol(), "Operands must be two numbers"@)
                    }
                },
                _ => {
                    if op == NumberOp::Add {
                        self.fail(
                            op.spec_symbol(),
                            "Operands must be two numbers or two strings."@,
                        )
                    } else {
                        self.fail(op.spec_symbol(), "Operands must be two numbers"@)
                    }
                },
            }
        }
    }

    /// `Less` (or, with `swap`, `Greater`): both operands must be numbers.
    pub open spec fn op_compare(self, swap: bool) -> Outcome {
        if self.stack.len() < 2 {
            self.underflow()
        } else {
            match (self.below_top(), self.top()) {
                (LiteralView::Number(left), LiteralView::Number(right)) => next(
                    self.advanced().with_stack(
                        self.stack.drop_last().drop_last().push(
                            LiteralView::Bool(
                                if swap {
                                    spec_num_lt(right, left)
                                } else {
                                    spec_num_lt(left, right)
                                },
                            ),
                        ),
                    ),
                ),
                _ => self.fail(
                    if swap {
                        ">"@
                    } else {
                        "<"@
                    },
                    "Operands must be two numbers"@,
                ),
            }
        }
    }

    pub open spec fn undefined(self, name: Seq<char>) -> Outcome {
        self.fail(name, "Undefined variable `"@ + name + "`."@)
    }

    /// A compound assignment that needs nothing from outside: it fails.
    pub open spec fn op_fused(self, op: NumberOp, target: LiteralView) -> Outcome {
        if target is Number && self.top() is Number {
            self.fail(op.spec_fused_symbol(), "divisor cannot be 0."@)
        } else {
            self.fail(
                op.spec_fused_symbol(),
                "Operator '"@ + op.spec_fused_symbol() + "' can only be used on number"@,
            )
        }
    }

    /// `Call(argc)`: the callee lies under its `argc` arguments; a frame for
    /// it is pushed, its slot 0 being the callee.
    pub open spec fn op_call(self, argc: usize) -> Outcome {
        if self.stack.len() < argc + 1 {
            self.underflow()
        } else {
            match self.stack[self.stack.len() - argc - 1] {
                LiteralView::Function(callee) => {
                    if callee.arity != argc {
                        self.fail(
                            callee.name@,
                            "Expect "@ + decimal(callee.arity as nat) + " arguments but got "@
                                + decimal(argc as nat) + "."@,
                        )
                    } else {
                        next(
                            Machine {
                                frames: self.advanced().frames.push(
                                    CallFrame {
                                        function: callee,
                                        ip: 0,
                                        slot: (self.stack.len() - argc - 1) as usize,
                                    },
                                ),
                                ..self
                            },
                        )
                    }
                },
                _ => self.fail("("@, "Expect a callable type(Function, Lambda, Class)!"@),
            }
        }
    }

    /// A jump to the instruction at `target`.
    pub open spec fn op_jump(self, target: int) -> Outcome {
        if 0 <= target <= usize::MAX {
            next(self.jumped(target))
        } else {
            self.broken("Jump out of range."@)
        }
    }

    /// The outcome of an instruction that needs nothing from outside.
    pub open spec fn execute(self, code: OpCode) -> Outcome {
        let after = self.frames.last().ip + 1;
        match code {
            OpCode::Return => self.op_return(),
            OpCode::Load(value) => next(self.advanced().with_stack(self.stack.push(value@))),
            OpCode::Negate => {
                if self.stack.len() < 1 {
                    self.underflow()
                } else {
                    match self.top() {
                        LiteralView::Number(n) => next(
                            self.advanced().with_stack(
                                self.stack.drop_last().push(LiteralView::Number(spec_negate(n))),
                            ),
                        ),
                        _ => self.fail("-"@, "Operator `-`'s Operand must be number!"@),
                    }
                }
            },
            OpCode::Add => self.op_binary(NumberOp::Add),
            OpCode::Sub => self.op_binary(NumberOp::Sub),
            OpCode::Mul => self.op_binary(NumberOp::Mul),
            OpCode::Div => self.op_binary(NumberOp::Div),
            OpCode::Mod => self.op_binary(NumberOp::Mod),
            OpCode::Not => {
                if self.stack.len() < 1 {
                    self.underflow()
                } else {
                    next(
                        self.advanced().with_stack(
                            self.stack.drop_last().push(LiteralView::Bool(!self.top().truthy())),
                        ),
                    )
                }
            },
            OpCode::Eq => {
                if self.stack.len() < 2 {
                    self.underflow()
                } else {
                    next(
                        self.advanced().with_stack(
                            self.stack.drop_last().drop_last().push(
                                LiteralView::Bool(self.below_top().equals(self.top())),
                            ),
                        ),
                    )
                }
            },
            OpCode::Less => self.op_compare(false),
            OpCode::Greater => self.op_compare(true),
            OpCode::Print => {
                if self.stack.len() < 1 {
                    self.underflow()
                } else {
                    Outcome {
                        machine: self.advanced().with_stack(self.stack.drop_last()),
                        result: Ok(EffectView::Output(self.line(self.top().text()))),
                    }
                }
            },
            OpCode::Pop => {
                if self.stack.len() < 1 {
                    next(self.advanced())
                } else {
                    next(self.advanced().with_stack(self.stack.drop_last()))
                }
            },
            OpCode::DefineGlobal(name) => {
                if self.stack.len() < 1 {
                    self.underflow()
                } else {
                    next(
                        Machine {
                            stack: self.stack.drop_last(),
                            globals: self.globals.insert(name@, self.top()),
                            ..self.advanced()
                        },
                    )
                }
            },
            OpCode::GetGlobal(name) => {
                if self.globals.dom().contains(name@) {
                    next(self.advanced().with_stack(self.stack.push(self.globals[name@])))
                } else {
                    self.undefined(name@)
                }
            },
            OpCode::SetGlobal(name) => {
                if !self.globals.dom().contains(name@) {
                    self.undefined(name@)
                } else if self.stack.len() < 1 {
                    self.underflow()
                } else {
                    next(
                        Machine {
                            globals: self.globals.insert(name@, self.top()),
                            ..self.advanced()
                        },
                    )
                }
            },
            OpCode::GetLocal(slot) => {
                if self.base() + slot < self.stack.len() {
                    next(
                        self.advanced().with_stack(
                            self.stack.push(self.stack[self.base() + slot]),
                        ),
                    )
                } else {
                    self.broken("Local slot out of range."@)
                }
            },
            OpCode::SetLocal(slot) => {
                if self.base() + slot < self.stack.len() {
                    next(
                        self.advanced().with_stack(
                            self.stack.update(self.base() + slot, self.top()),
                        ),
                    )
                } else {
                    self.broken("Local slot out of range."@)
                }
            },
            OpCode::Jump(offset) => self.op_jump(after + offset),
            OpCode::JumpForward(offset) => self.op_jump(after - offset),
            OpCode::JumpIfTrue(offset) => {
                if self.stack.len() < 1 {
                    self.underflow()
                } else if self.top().truthy() {
                    self.op_jump(after + offset)
                } else {
                    next(self.advanced())
                }
            },
            OpCode::JumpIfFalse(offset) => {
                if self.stack.len() < 1 {
                    self.underflow()
                } else if !self.top().truthy() {
                    self.op_jump(after + offset)
                } else {
                    next(self.advanced())
                }
            },
            OpCode::Call(argc) => self.op_call(argc),
            OpCode::AddIGlobal(_) | OpCode::SubIGlobal(_) | OpCode::MulIGlobal(_)
            | OpCode::DivIGlobal(_) | OpCode::ModIGlobal(_) => {
                let (op, name) = fused_global(code)->0;
                if !self.globals.dom().contains(name) {
                    self.undefined(name)
                } else if self.stack.len() < 1 {
                    self.underflow()
                } else {
                    self.op_fused(op, self.globals[name])
                }
            },
            OpCode::AddILocal(_) | OpCode::SubILocal(_) | OpCode::MulILocal(_)
            | OpCode::DivILocal(_) | OpCode::ModILocal(_) => {
                let (op, slot) = fused_local(code)->0;
                if self.base() + slot < self.stack.len() {
                    self.op_fused(op, self.stack[self.base() + slot])
                } else {
                    self.broken("Local slot out of range."@)
                }
            },
        }
    }

    /// One instruction: the machine after it, and what it did or why it
    /// failed. `supply` is the answer to `request()`; it is not looked at
    /// when nothing was asked for. A machine with nothing left to run
    /// halts.
    pub open spec fn step(self, supply: SupplyView) -> Outcome {
        match self.fetch() {
            None => Outcome { machine: self.stopped(), result: Ok(EffectView::Halt) },
            Some(code) => match self.request() {
                Request::Arithmetic { .. } => match supply {
                    SupplyView::Number(number) => next(self.store_number(code, number)),
                    _ => self.broken("The number that was asked for was not supplied."@),
                },
                Request::Display { .. } => match supply {
                    SupplyView::Text(text) => self.use_text(code, text),
                    _ => self.broken("The text that was asked for was not supplied."@),
                },
                Request::Nothing => self.execute(code),
            },
        }
    }
    /// The result of `step` as a reason for `run` to come back, where it is
    /// one.
    pub open spec fn paused(outcome: Outcome) -> Result<PauseView, ErrorView> {
        match outcome.result {
            Ok(EffectView::Output(text)) => Ok(PauseView::Output(text)),
            Ok(_) => Ok(PauseView::Halted),
            Err(e) => Err(e),
        }
    }

    /// Up to `fuel` instructions, one after the other, for as long as they
    /// need nothing from outside, write nothing, and neither end the
    /// program nor fail: the machine where that stops, and why it stops.
    pub open spec fn run(self, fuel: nat) -> (Machine, Result<PauseView, ErrorView>)
        decreases fuel,
    {
        if fuel == 0 {
            (self, Ok(PauseView::Suspended))
        } else if self.request() != Request::Nothing {
            (self, Ok(PauseView::Needs(self.request())))
        } else {
            let outcome = self.step(SupplyView::Nothing);
            if outcome.result == Ok::<EffectView, ErrorView>(EffectView::Continue) {
                outcome.machine.run((fuel - 1) as nat)
            } else {
                (outcome.machine, Self::paused(outcome))
            }
        }
    }

    /// The machine made ready to run `function` as a program: the function
    /// itself is pushed, and a frame for it whose slot 0 is the stack slot
    /// above.
    pub open spec fn loaded(self, function: Function) -> Machine {
        Machine {
            stack: self.stack.push(LiteralView::Function(Rc::new(function))),
            frames: self.frames.push(
                CallFrame {
                    function: Rc::new(function),
                    ip: 0,
                    slot: (self.stack.len() + 1) as usize,
                },
            ),
            ..self
        }
    }

    /// One instruction with the answer to its request, and then `run`.
    pub open spec fn resume(self, supply: SupplyView, fuel: nat) -> (
        Machine,
        Result<PauseView, ErrorView>,
    ) {
        let outcome = self.step(supply);
        if outcome.result == Ok::<EffectView, ErrorView>(EffectView::Continue) {
            outcome.machine.run(fuel)
        } else {
            (outcome.machine, Self::paused(outcome))
        }
    }
}


pub struct VirtualMachine {
    stack: Vec<Literal>,
    globals: Globals,
    is_repl: bool,
    frames: Vec<CallFrame>,
}

impl View for VirtualMachine {
    type V = Machine;

    closed spec fn view(&self) -> Machine {
        Machine {
            stack: self.stack@.map_values(|value: Literal| value@),
            globals: self.globals@,
            frames: self.frames@,
            is_repl: self.is_repl,
        }
    }
}

/// The arithmetic of a two-operand instruction.
fn binary_of(code: &OpCode) -> (res: Option<NumberOp>)
    ensures
        res == binary_op(*code),
{
    match code {
        OpCode::Add => Some(NumberOp::Add),
        OpCode::Sub => Some(NumberOp::Sub),
        OpCode::Mul => Some(NumberOp::Mul),
        OpCode::Div => Some(NumberOp::Div),
        OpCode::Mod => Some(NumberOp::Mod),
        _ => None,
    }
}

/// The arithmetic and the variable of a compound assignment to a global.
fn fused_global_of(code: &OpCode) -> (res: Option<(NumberOp, &String)>)
    ensures
        match res {
            Some((op, name)) => fused_global(*code) == Some((op, name@)),
            None => fused_global(*code) is None,
        },
{
    match code {
        OpCode::AddIGlobal(name) => Some((NumberOp::Add, name)),
        OpCode::SubIGlobal(name) => Some((NumberOp::Sub, name)),
        OpCode::MulIGlobal(name) => Some((NumberOp::Mul, name)),
        OpCode::DivIGlobal(name) => Some((NumberOp::Div, name)),
        OpCode::ModIGlobal(name) => Some((NumberOp::Mod, name)),
        _ => None,
    }
}

/// The arithmetic and the slot of a compound assignment to a local.
fn fused_local_of(code: &OpCode) -> (res: Option<(NumberOp, usize)>)
    ensures
        res == fused_local(*code),
{
    match code {
        OpCode::AddILocal(slot) => Some((NumberOp::Add, *slot)),
        OpCode::SubILocal(slot) => Some((NumberOp::Sub, *slot)),
        OpCode::MulILocal(slot) => Some((NumberOp::Mul, *slot)),
        OpCode::DivILocal(slot) => Some((NumberOp::Div, *slot)),
        OpCode::ModILocal(slot) => Some((NumberOp::Mod, *slot)),
        _ => None,
    }
}

/// The line of an error report that names `frame`.
fn frame_text(frame: &CallFrame) -> (res: String)
    ensures
        res@ == frame_line(*frame),
{
    let position = match frame.function.chunk.get_position(frame.ip) {
        Some(position) => position,
        None => (0, 0),
    };
    let mut text = String::from_str("[");
    text.append(usize_to_string_width2(position.0).as_str());
    text.append(",");
    text.append(usize_to_string_width2(position.1).as_str());
    text.append("] Error in ");
    match frame.function.func_type {
        FuncType::Lambda => {
            text.append("Lambda");
        },
        _ => {
            text.append("function `");
            text.append(frame.function.name.as_str());
            text.append("`");
        },
    }
    text
}

/// What a compound assignment needs when its variable holds `target` and
/// `top` lies on top of the stack.
fn fused_request_for(op: NumberOp, target: &Literal, top: &Literal) -> (res: Request)
    ensures
        res == (match (target@, top@) {
            (LiteralView::Number(left), LiteralView::Number(right)) => {
                if op.refuses(right) {
                    Request::Nothing
                } else {
                    Request::Arithmetic { op, left, right }
                }
            },
            _ => Request::Nothing,
        }),
{
    match target {
        Literal::Number(left) => match top {
            Literal::Number(right) => {
                if op.rejects(*right) {
                    Request::Nothing
                } else {
                    Request::Arithmetic { op, left: *left, right: *right }
                }
            },
            _ => Request::Nothing,
        },
        _ => Request::Nothing,
    }
}

impl VirtualMachine {
    /// The table of globals is in order.
    pub closed spec fn wf(&self) -> bool {
        self.globals.wf()
    }

    /// A machine at rest with no globals. `is_repl` says whether printed
    /// lines carry the mark of the interactive prompt.
    pub fn new(is_repl: bool) -> (res: Self)
        ensures
            res.wf(),
            res@ == (Machine {
                stack: Seq::empty(),
                globals: Map::empty(),
                frames: Seq::empty(),
                is_repl,
            }),
            forall|labels: spec_fn(FunctionView) -> Seq<int>| #[trigger] in_order(res@, labels),
    {
        let res = VirtualMachine {
            stack: Vec::new(),
            globals: Globals::new(),
            is_repl,
            frames: Vec::new(),
        };
        assert(res.stack@.map_values(|value: Literal| value@) =~= Seq::empty());
        res
    }

    /// How many values lie on the stack.
    pub fn stack_len(&self) -> (res: usize)
        ensures
            res == self@.stack.len(),
    {
        self.stack.len()
    }

    /// How many functions are running or waiting for a call to return.
    pub fn frame_count(&self) -> (res: usize)
        ensures
            res == self@.frames.len(),
    {
        self.frames.len()
    }

    fn push(&mut self, value: Literal)
        requires
            old(self).wf(),
        ensures
            final(self).wf(),
            final(self)@ == old(self)@.with_stack(old(self)@.stack.push(value@)),
    {
        self.stack.push(value);
        assert(self.stack@.map_values(|value: Literal| value@) =~= old(self).stack@.map_values(
            |value: Literal| value@,
        ).push(value@));
    }

    fn pop(&mut self) -> (value: Literal)
        requires
            old(self).wf(),
            old(self)@.stack.len() > 0,
        ensures
            final(self).wf(),
            final(self)@ == old(self)@.with_stack(old(self)@.stack.drop_last()),
            value@ == old(self)@.top(),
    {
        let value = self.stack.pop().unwrap();
        assert(self.stack@.map_values(|value: Literal| value@) =~= old(self).stack@.map_values(
            |value: Literal| value@,
        ).drop_last());
        value
    }

    fn depth(&self) -> (res: usize)
        ensures
            res == self@.stack.len(),
    {
        self.stack.len()
    }

    fn value_at(&self, at: usize) -> (value: &Literal)
        requires
            at < self@.stack.len(),
        ensures
            value@ == self@.stack[at as int],
    {
        &self.stack[at]
    }

    fn set_value(&mut self, at: usize, value: Literal)
        requires
            old(self).wf(),
            at < old(self)@.stack.len(),
        ensures
            final(self).wf(),
            final(self)@ == old(self)@.with_stack(old(self)@.stack.update(at as int, value@)),
    {
        self.stack.set(at, value);
        assert(self.stack@.map_values(|value: Literal| value@) =~= old(self).stack@.map_values(
            |value: Literal| value@,
        ).update(at as int, value@));
    }

    fn cut(&mut self, len: usize)
        requires
            old(self).wf(),
            len <= old(self)@.stack.len(),
        ensures
            final(self).wf(),
            final(self)@ == old(self)@.with_stack(old(self)@.stack.subrange(0, len as int)),
    {
        self.stack.truncate(len);
        assert(self.stack@.map_values(|value: Literal| value@) =~= old(self).stack@.map_values(
            |value: Literal| value@,
        ).subrange(0, len as int));
    }

    fn jump(&mut self, ip: usize)
        requires
            old(self).wf(),
            old(self)@.frames.len() > 0,
        ensures
            final(self).wf(),
            final(self)@ == old(self)@.jumped(ip as int),
    {
        let frame = self.frames.pop().unwrap();
        self.frames.push(CallFrame { function: frame.function, ip, slot: frame.slot });
        assert(self.frames@ =~= old(self).frames@.update(
            old(self).frames@.len() - 1,
            CallFrame {
                function: old(self).frames@.last().function,
                ip,
                slot: old(self).frames@.last().slot,
            },
        ));
    }

    fn advance(&mut self)
        requires
            old(self).wf(),
            old(self)@.fetch() is Some,
        ensures
            final(self).wf(),
            final(self)@ == old(self)@.advanced(),
    {
        let frame = &self.frames[self.frames.len() - 1];
        let ip = frame.ip;
        let len = frame.function.chunk.codes.len();
        assert(ip < len);
        self.jump(ip + 1);
    }

    fn stop(&mut self)
        requires
            old(self).wf(),
        ensures
            final(self).wf(),
            final(self)@ == old(self)@.stopped(),
    {
        self.stack.clear();
        self.frames.clear();
        assert(self.stack@.map_values(|value: Literal| value@) =~= Seq::empty());
    }

    /// The error message `msg` followed by the lines that name the waiting
    /// frames.
    fn with_trace(&self, msg: String) -> (res: String)
        requires
            self@.frames.len() > 0,
        ensures
            res@ == msg@ + trace(self@.frames.drop_last()),
    {
        let mut text = msg;
        let mut k: usize = self.frames.len() - 1;
        assert(self.frames@.subrange(0, k as int) =~= self.frames@.drop_last());
        while k > 0
            invariant
                k < self.frames@.len(),
                text@ + trace(self.frames@.subrange(0, k as int)) == msg@ + trace(
                    self.frames@.drop_last(),
                ),
            decreases k,
        {
            let ghost before = self.frames@.subrange(0, k as int);
            let ghost text_before = text@;
            k -= 1;
            let line = frame_text(&self.frames[k]);
            text.append("\n");
            text.append(line.as_str());
            proof {
                assert(before.last() == self.frames@[k as int]);
                assert(before.drop_last() =~= self.frames@.subrange(0, k as int));
                assert(text@ + trace(self.frames@.subrange(0, k as int)) =~= text_before + trace(
                    before,
                ));
            }
        }
        assert(text@ + trace(self.frames@.subrange(0, 0)) =~= text@);
        text
    }

    fn fail(&mut self, lexeme: &str, msg: String) -> (err: LoxError)
        requires
            old(self).wf(),
            old(self)@.frames.len() > 0,
        ensures
            final(self).wf(),
            Err::<EffectView, ErrorView>(err@) == old(self)@.fail(lexeme@, msg@).result,
            final(self)@ == old(self)@.fail(lexeme@, msg@).machine,
    {
        let last = self.frames.len() - 1;
        let position = match self.frames[last].function.chunk.get_position(self.frames[last].ip) {
            Some(position) => position,
            None => (0, 0),
        };
        let msg = self.with_trace(msg);
        self.stop();
        LoxError::RuntimeError { position, lexeme: String::from_str(lexeme), msg }
    }

    fn broken(&mut self, message: &str) -> (err: LoxError)
        requires
            old(self).wf(),
        ensures
            final(self).wf(),
            Err::<EffectView, ErrorView>(err@) == old(self)@.broken(message@).result,
            final(self)@ == old(self)@.broken(message@).machine,
    {
        self.stop();
        LoxError::unexpected(message)
    }

    fn undefined(&mut self, name: &String) -> (err: LoxError)
        requires
            old(self).wf(),
            old(self)@.frames.len() > 0,
        ensures
            final(self).wf(),
            Err::<EffectView, ErrorView>(err@) == old(self)@.undefined(name@).result,
            final(self)@ == old(self)@.undefined(name@).machine,
    {
        let msg = String::from_str("Undefined variable `").concat(name.as_str()).concat("`.");
        self.fail(name.as_str(), msg)
    }

    /// What the next instruction, `code`, needs from outside.
    fn request_for(&self, code: &OpCode) -> (res: Request)
        requires
            self.wf(),
            self@.fetch() == Some(*code),
        ensures
            res == self@.request(),
    {
        let len = self.depth();
        if let Some(op) = binary_of(code) {
            if len < 2 {
                return Request::Nothing;
            }
            match self.value_at(len - 2) {
                Literal::Number(left) => match self.value_at(len - 1) {
                    Literal::Number(right) => {
                        if op.rejects(*right) {
                            Request::Nothing
                        } else {
                            Request::Arithmetic { op, left: *left, right: *right }
                        }
                    },
                    _ => Request::Nothing,
                },
                Literal::String(_) => match self.value_at(len - 1) {
                    Literal::Number(right) => match op {
                        NumberOp::Add => Request::Display { number: *right },
                        _ => Request::Nothing,
                    },
                    _ => Request::Nothing,
                },
                _ => Request::Nothing,
            }
        } else if let OpCode::Print = code {
            if len >= 1 {
                match self.value_at(len - 1) {
                    Literal::Number(number) => Request::Display { number: *number },
                    _ => Request::Nothing,
                }
            } else {
                Request::Nothing
            }
        } else if let Some((op, name)) = fused_global_of(code) {
            if len >= 1 {
                match self.globals.get(name) {
                    Some(target) => fused_request_for(op, target, self.value_at(len - 1)),
                    None => Request::Nothing,
                }
            } else {
                Request::Nothing
            }
        } else if let Some((op, slot)) = fused_local_of(code) {
            let base = self.frames[self.frames.len() - 1].slot;
            if slot < len && base < len - slot {
                fused_request_for(op, self.value_at(base + slot), self.value_at(len - 1))
            } else {
                Request::Nothing
            }
        } else {
            Request::Nothing
        }
    }

    /// What the next instruction needs from outside before `step` can carry
    /// it out.
    pub fn request(&self) -> (res: Request)
        requires
            self.wf(),
        ensures
            res == self@.request(),
    {
        if self.frames.len() == 0 {
            return Request::Nothing;
        }
        let frame = &self.frames[self.frames.len() - 1];
        match frame.function.chunk.get(frame.ip) {
            Some(code) => self.request_for(code),
            None => Request::Nothing,
        }
    }

    /// The line that `print` writes for a value whose text is `text`.
    fn line(&self, text: String) -> (res: String)
        ensures
            res@ == self@.line(text@),
    {
        if self.is_repl {
            String::from_str("\x1b[1;34m[REPL]: \x1b[0m").concat(text.as_str())
        } else {
            text
        }
    }

    /// Carries out an instruction that asked for arithmetic, given the
    /// result.
    fn store_number(&mut self, code: &OpCode, number: u64)
        requires
            old(self).wf(),
            old(self)@.fetch() == Some(*code),
            old(self)@.request() is Arithmetic,
        ensures
            final(self).wf(),
            final(self)@ == old(self)@.store_number(*code, number),
    {
        if let Some(_) = binary_of(code) {
            self.pop();
            self.pop();
            self.push(Literal::Number(number));
            self.advance();
        } else if let Some((_, name)) = fused_global_of(code) {
            self.globals.insert(name.clone(), Literal::Number(number));
            self.advance();
        } else if let Some((_, slot)) = fused_local_of(code) {
            let base = self.frames[self.frames.len() - 1].slot;
            let len = self.depth();
            proof {
                assert(binary_op(*code) is None);
                assert(fused_global(*code) is None);
                assert(!(*code is Print));
                assert(self@.base() + slot < self@.stack.len());
            }
            self.set_value(base + slot, Literal::Number(number));
            self.advance();
        }
    }

    /// Carries out an instruction that asked for the text of a number,
    /// given the text.
    fn use_text(&mut self, code: &OpCode, text: String) -> (res: Result<Effect, LoxError>)
        requires
            old(self).wf(),
            old(self)@.fetch() == Some(*code),
            old(self)@.request() is Display,
        ensures
            final(self).wf(),
            final(self)@ == old(self)@.use_text(*code, text@).machine,
            effect_view(res) == old(self)@.use_text(*code, text@).result,
    {
        if let OpCode::Print = code {
            self.pop();
            self.advance();
            Ok(Effect::Output(self.line(text)))
        } else {
            self.pop();
            let left = self.pop();
            match left {
                Literal::String(left) => {
                    self.push(Literal::String(left.concat(text.as_str())));
                    self.advance();
                    Ok(Effect::Continue)
                },
                _ => {
                    assert(false);
                    Ok(Effect::Continue)
                },
            }
        }
    }

    fn do_return(&mut self) -> (res: Result<Effect, LoxError>)
        requires
            old(self).wf(),
            old(self)@.fetch() is Some,
        ensures
            final(self).wf(),
            final(self)@ == old(self)@.op_return().machine,
            effect_view(res) == old(self)@.op_return().result,
    {
        if self.depth() < 1 {
            return Err(self.broken("Stack underflow."));
        }
        if self.frames.len() == 1 {
            self.stop();
            return Ok(Effect::Halt);
        }
        let base = self.frames[self.frames.len() - 1].slot;
        if base > self.depth() - 1 {
            return Err(self.broken("Frame base out of range."));
        }
        let value = self.pop();
        self.cut(base);
        self.push(value);
        self.frames.pop();
        proof {
            assert(self.frames@ =~= old(self).frames@.drop_last());
            assert(old(self)@.stack.drop_last().subrange(0, base as int) =~= old(self)@.stack.subrange(
                0,
                base as int,
            ));
        }
        Ok(Effect::Continue)
    }

    fn do_binary(&mut self, op: NumberOp) -> (res: Result<Effect, LoxError>)
        requires
            old(self).wf(),
            old(self)@.fetch() is Some,
        ensures
            final(self).wf(),
            final(self)@ == old(self)@.op_binary(op).machine,
            effect_view(res) == old(self)@.op_binary(op).result,
    {
        let len = self.depth();
        if len < 2 {
            return Err(self.broken("Stack underflow."));
        }
        let is_add = match op {
            NumberOp::Add => true,
            _ => false,
        };
        let joined: Option<String> = match self.value_at(len - 2) {
            Literal::Number(_) => {
                if self.value_at(len - 1).is_num() {
                    return Err(self.fail(op.symbol(), String::from_str("divisor cannot be 0.")));
                }
                None
            },
            Literal::String(left) => {
                if is_add {
                    let text = match self.value_at(len - 1).to_text() {
                        Some(text) => text,
                        None => String::new(),
                    };
                    Some(left.clone().concat(text.as_str()))
                } else {
                    return Err(
                        self.fail(op.symbol(), String::from_str("Operands must be two numbers")),
                    );
                }
            },
            _ => None,
        };
        match joined {
            Some(joined) => {
                self.pop();
                self.pop();
                self.push(Literal::String(joined));
                self.advance();
                Ok(Effect::Continue)
            },
            None => {
                if is_add {
                    Err(
                        self.fail(
                            op.symbol(),
                            String::from_str("Operands must be two numbers or two strings."),
                        ),
                    )
                } else {
                    Err(self.fail(op.symbol(), String::from_str("Operands must be two numbers")))
                }
            },
        }
    }

    fn do_compare(&mut self, swap: bool) -> (res: Result<Effect, LoxError>)
        requires
            old(self).wf(),
            old(self)@.fetch() is Some,
        ensures
            final(self).wf(),
            final(self)@ == old(self)@.op_compare(swap).machine,
            effect_view(res) == old(self)@.op_compare(swap).result,
    {
        let len = self.depth();
        if len < 2 {
            return Err(self.broken("Stack underflow."));
        }
        let outcome: Option<bool> = match self.value_at(len - 2) {
            Literal::Number(left) => match self.value_at(len - 1) {
                Literal::Number(right) => Some(
                    if swap {
                        num_lt(*right, *left)
                    } else {
                        num_lt(*left, *right)
                    },
                ),
                _ => None,
            },
            _ => None,
        };
        match outcome {
            Some(less) => {
                self.pop();
                self.pop();
                self.push(Literal::Bool(less));
                self.advance();
                Ok(Effect::Continue)
            },
            None => Err(
                self.fail(
                    if swap {
                        ">"
                    } else {
                        "<"
                    },
                    String::from_str("Operands must be two numbers"),
                ),
            ),
        }
    }

    fn do_fused(&mut self, op: NumberOp, target: &Literal) -> (res: Result<Effect, LoxError>)
        requires
            old(self).wf(),
            old(self)@.fetch() is Some,
            old(self)@.stack.len() > 0,
        ensures
            final(self).wf(),
            final(self)@ == old(self)@.op_fused(op, target@).machine,
            effect_view(res) == old(self)@.op_fused(op, target@).result,
    {
        let len = self.depth();
        if target.is_num() && self.value_at(len - 1).is_num() {
            Err(self.fail(op.fused_symbol(), String::from_str("divisor cannot be 0.")))
        } else {
            let msg = String::from_str("Operator '").concat(op.fused_symbol()).concat(
                "' can only be used on number",
            );
            Err(self.fail(op.fused_symbol(), msg))
        }
    }

    fn do_call(&mut self, argc: usize) -> (res: Result<Effect, LoxError>)
        requires
            old(self).wf(),
            old(self)@.fetch() is Some,
        ensures
            final(self).wf(),
            final(self)@ == old(self)@.op_call(argc).machine,
            effect_view(res) == old(self)@.op_call(argc).result,
    {
        let len = self.depth();
        if len <= argc {
            return Err(self.broken("Stack underflow."));
        }
        let callee: Option<Rc<Function>> = match self.value_at(len - argc - 1) {
            Literal::Function(function) => Some(share_function(function)),
            _ => None,
        };
        match callee {
            Some(callee) => {
                if callee.arity != argc {
                    let msg = String::from_str("Expect ").concat(
                        usize_to_string(callee.arity).as_str(),
                    ).concat(" arguments but got ").concat(usize_to_string(argc).as_str()).concat(
                        ".",
                    );
                    Err(self.fail(callee.name.as_str(), msg))
                } else {
                    self.advance();
                    self.frames.push(CallFrame { function: callee, ip: 0, slot: len - argc - 1 });
                    Ok(Effect::Continue)
                }
            },
            None => Err(
                self.fail(
                    "(",
                    String::from_str("Expect a callable type(Function, Lambda, Class)!"),
                ),
            ),
        }
    }

    /// Jumps `offset` instructions on from the instruction after the
    /// running one, or, if `back`, that many back.
    fn do_jump(&mut self, offset: usize, back: bool) -> (res: Result<Effect, LoxError>)
        requires
            old(self).wf(),
            old(self)@.fetch() is Some,
        ensures
            final(self).wf(),
            final(self)@ == old(self)@.op_jump(
                if back {
                    old(self)@.frames.last().ip + 1 - offset
                } else {
                    old(self)@.frames.last().ip + 1 + offset
                },
            ).machine,
            effect_view(res) == old(self)@.op_jump(
                if back {
                    old(self)@.frames.last().ip + 1 - offset
                } else {
                    old(self)@.frames.last().ip + 1 + offset
                },
            ).result,
    {
        let frame = &self.frames[self.frames.len() - 1];
        let len = frame.function.chunk.codes.len();
        assert(frame.ip < len);
        let after = frame.ip + 1;
        if back {
            if offset > after {
                Err(self.broken("Jump out of range."))
            } else {
                self.jump(after - offset);
                Ok(Effect::Continue)
            }
        } else {
            if offset > usize::MAX - after {
                Err(self.broken("Jump out of range."))
            } else {
                self.jump(after + offset);
                Ok(Effect::Continue)
            }
        }
    }

    /// Carries out an instruction that needs nothing from outside.
    fn execute(&mut self, code: &OpCode) -> (res: Result<Effect, LoxError>)
        requires
            old(self).wf(),
            old(self)@.fetch() == Some(*code),
        ensures
            final(self).wf(),
            final(self)@ == old(self)@.execute(*code).machine,
            effect_view(res) == old(self)@.execute(*code).result,
    {
        let len = self.depth();
        let base = self.frames[self.frames.len() - 1].slot;
        match code {
            OpCode::Return => self.do_return(),
            OpCode::Load(value) => {
                self.push(value.clone());
                self.advance();
                Ok(Effect::Continue)
            },
            OpCode::Negate => {
                if len < 1 {
                    return Err(self.broken("Stack underflow."));
                }
                match self.value_at(len - 1) {
                    Literal::Number(n) => {
                        let negated = negate(*n);
                        self.pop();
                        self.push(Literal::Number(negated));
                        self.advance();
                        Ok(Effect::Continue)
                    },
                    _ => Err(
                        self.fail(
                            "-",
                            String::from_str("Operator `-`'s Operand must be number!"),
                        ),
                    ),
                }
            },
            OpCode::Add => self.do_binary(NumberOp::Add),
            OpCode::Sub => self.do_binary(NumberOp::Sub),
            OpCode::Mul => self.do_binary(NumberOp::Mul),
            OpCode::Div => self.do_binary(NumberOp::Div),
            OpCode::Mod => self.do_binary(NumberOp::Mod),
            OpCode::Not => {
                if len < 1 {
                    return Err(self.broken("Stack underflow."));
                }
                let value = self.pop();
                self.push(Literal::Bool(!value.is_true()));
                self.advance();
                Ok(Effect::Continue)
            },
            OpCode::Eq => {
                if len < 2 {
                    return Err(self.broken("Stack underflow."));
                }
                let right = self.pop();
                let left = self.pop();
                self.push(Literal::Bool(left.equals(&right)));
                self.advance();
                Ok(Effect::Continue)
            },
            OpCode::Less => self.do_compare(false),
            OpCode::Greater => self.do_compare(true),
            OpCode::Print => {
                if len < 1 {
                    return Err(self.broken("Stack underflow."));
                }
                let value = self.pop();
                let text = match value.to_text() {
                    Some(text) => text,
                    None => String::new(),
                };
                self.advance();
                Ok(Effect::Output(self.line(text)))
            },
            OpCode::Pop => {
                if len >= 1 {
                    self.pop();
                }
                self.advance();
                Ok(Effect::Continue)
            },
            OpCode::DefineGlobal(name) => {
                if len < 1 {
                    return Err(self.broken("Stack underflow."));
                }
                let value = self.pop();
                self.globals.insert(name.clone(), value);
                self.advance();
                Ok(Effect::Continue)
            },
            OpCode::GetGlobal(name) => {
                let found: Option<Literal> = match self.globals.get(name) {
                    Some(value) => Some(value.clone()),
                    None => None,
                };
                match found {
                    Some(value) => {
                        self.push(value);
                        self.advance();
                        Ok(Effect::Continue)
                    },
                    None => Err(self.undefined(name)),
                }
            },
            OpCode::SetGlobal(name) => {
                if !self.globals.contains_key(name) {
                    return Err(self.undefined(name));
                }
                if len < 1 {
                    return Err(self.broken("Stack underflow."));
                }
                let value = self.value_at(len - 1).clone();
                self.globals.insert(name.clone(), value);
                self.advance();
                Ok(Effect::Continue)
            },
            OpCode::GetLocal(slot) => {
                if *slot < len && base < len - *slot {
                    let value = self.value_at(base + *slot).clone();
                    self.push(value);
                    self.advance();
                    Ok(Effect::Continue)
                } else {
                    Err(self.broken("Local slot out of range."))
                }
            },
            OpCode::SetLocal(slot) => {
                if *slot < len && base < len - *slot {
                    let value = self.value_at(len - 1).clone();
                    self.set_value(base + *slot, value);
                    self.advance();
                    Ok(Effect::Continue)
                } else {
                    Err(self.broken("Local slot out of range."))
                }
            },
            OpCode::Jump(offset) => self.do_jump(*offset, false),
            OpCode::JumpForward(offset) => self.do_jump(*offset, true),
            OpCode::JumpIfTrue(offset) => {
                if len < 1 {
                    return Err(self.broken("Stack underflow."));
                }
                if self.value_at(len - 1).is_true() {
                    self.do_jump(*offset, false)
                } else {
                    self.advance();
                    Ok(Effect::Continue)
                }
            },
            OpCode::JumpIfFalse(offset) => {
                if len < 1 {
                    return Err(self.broken("Stack underflow."));
                }
                if !self.value_at(len - 1).is_true() {
                    self.do_jump(*offset, false)
                } else {
                    self.advance();
                    Ok(Effect::Continue)
                }
            },
            OpCode::Call(argc) => self.do_call(*argc),
            OpCode::AddIGlobal(_) | OpCode::SubIGlobal(_) | OpCode::MulIGlobal(_)
            | OpCode::DivIGlobal(_) | OpCode::ModIGlobal(_) => {
                match fused_global_of(code) {
                    Some((op, name)) => {
                        let target: Option<Literal> = match self.globals.get(name) {
                            Some(value) => Some(value.clone()),
                            None => None,
                        };
                        match target {
                            None => Err(self.undefined(name)),
                            Some(target) => {
                                if len < 1 {
                                    return Err(self.broken("Stack underflow."));
                                }
                                self.do_fused(op, &target)
                            },
                        }
                    },
                    None => {
                        assert(false);
                        Ok(Effect::Continue)
                    },
                }
            },
            OpCode::AddILocal(_) | OpCode::SubILocal(_) | OpCode::MulILocal(_)
            | OpCode::DivILocal(_) | OpCode::ModILocal(_) => {
                match fused_local_of(code) {
                    Some((op, slot)) => {
                        if slot < len && base < len - slot {
                            let target = self.value_at(base + slot).clone();
                            self.do_fused(op, &target)
                        } else {
                            Err(self.broken("Local slot out of range."))
                        }
                    },
                    None => {
                        assert(false);
                        Ok(Effect::Continue)
                    },
                }
            },
        }
    }

    /// Carries out one instruction. `supply` is the answer to what
    /// `request` asked for; where nothing was asked for it is not looked
    /// at. After an error, and at the end of the program, the machine is at
    /// rest: the stack and the frames are empty and the globals are kept.
    /// A machine in order stays in order.
    pub fn step(&mut self, supply: Supply) -> (res: Result<Effect, LoxError>)
        requires
            old(self).wf(),
        ensures
            final(self).wf(),
            final(self)@ == old(self)@.step(supply@).machine,
            effect_view(res) == old(self)@.step(supply@).result,
            keeps_order(old(self)@, final(self)@),
    {
        let ghost given = supply@;
        let ghost before = self@;
        assert(before.stack.len() <= usize::MAX) by {
            assert(self.stack@.len() == self.stack.len());
        }
        let res = self.carry_out(supply);
        proof {
            assert forall|labels: spec_fn(FunctionView) -> Seq<int>|
                crate::running::labels_valid(labels) && #[trigger] in_order(
                    before,
                    labels,
                ) implies in_order(self@, labels) by {
                lemma_step_keeps_order(before, given, labels);
            }
        }
        res
    }

    /// One instruction, as `step` carries it out.
    fn carry_out(&mut self, supply: Supply) -> (res: Result<Effect, LoxError>)
        requires
            old(self).wf(),
        ensures
            final(self).wf(),
            final(self)@ == old(self)@.step(supply@).machine,
            effect_view(res) == old(self)@.step(supply@).result,
    {
        if self.frames.len() == 0 {
            self.stop();
            return Ok(Effect::Halt);
        }
        let last = self.frames.len() - 1;
        let function = share_function(&self.frames[last].function);
        let ip = self.frames[last].ip;
        match function.chunk.get(ip) {
            None => {
                self.stop();
                Ok(Effect::Halt)
            },
            Some(code) => {
                match self.request_for(code) {
                    Request::Arithmetic { .. } => match supply {
                        Supply::Number(number) => {
                            self.store_number(code, number);
                            Ok(Effect::Continue)
                        },
                        _ => Err(self.broken("The number that was asked for was not supplied.")),
                    },
                    Request::Display { .. } => match supply {
                        Supply::Text(text) => self.use_text(code, text),
                        _ => Err(self.broken("The text that was asked for was not supplied.")),
                    },
                    Request::Nothing => self.execute(code),
                }
            },
        }
    }

    /// Carries out instructions until one needs something from outside or
    /// writes a line, the program ends or fails, or `fuel` instructions
    /// have been carried out. A machine in order stays in order.
    pub fn run(&mut self, fuel: u64) -> (res: Result<Pause, LoxError>)
        requires
            old(self).wf(),
        ensures
            final(self).wf(),
            final(self)@ == old(self)@.run(fuel as nat).0,
            pause_view(res) == old(self)@.run(fuel as nat).1,
            keeps_order(old(self)@, final(self)@),
    {
        let mut left: u64 = fuel;
        while left > 0
            invariant
                self.wf(),
                self@.run(left as nat) == old(self)@.run(fuel as nat),
                keeps_order(old(self)@, self@),
            decreases left,
        {
            let request = self.request();
            match request {
                Request::Nothing => {},
                _ => {
                    return Ok(Pause::Needs(request));
                },
            }
            match self.step(Supply::Nothing) {
                Ok(Effect::Continue) => {
                    left -= 1;
                },
                Ok(Effect::Output(text)) => {
                    return Ok(Pause::Output(text));
                },
                Ok(Effect::Halt) => {
                    return Ok(Pause::Halted);
                },
                Err(e) => {
                    return Err(e);
                },
            }
        }
        Ok(Pause::Suspended)
    }

    /// Makes the machine ready to run `function` as a program and runs it
    /// as `run` does. A machine without frames that is in order, given a
    /// disciplined program, stays in order.
    pub fn interpret(&mut self, function: Function, fuel: u64) -> (res: Result<Pause, LoxError>)
        requires
            old(self).wf(),
        ensures
            final(self).wf(),
            final(self)@ == old(self)@.loaded(function).run(fuel as nat).0,
            pause_view(res) == old(self)@.loaded(function).run(fuel as nat).1,
            starts_in_order(old(self)@, function, final(self)@),
    {
        let ghost program = function;
        let handle = Rc::new(function);
        self.push(Literal::Function(share_function(&handle)));
        let slot = self.depth();
        self.frames.push(CallFrame { function: handle, ip: 0, slot });
        assert(self@ == old(self)@.loaded(function));
        proof {
            assert(old(self)@.stack.len() < usize::MAX) by {
                assert(self.stack@.len() == self.stack.len());
            }
            if old(self)@.frames.len() == 0 && crate::heights::disciplined(
                crate::bytecode::function_view(program),
            ) && program.func_type == FuncType::Main {
                assert forall|labels: spec_fn(FunctionView) -> Seq<int>|
                    crate::running::labels_valid(labels) && #[trigger] in_order(
                        old(self)@,
                        labels,
                    ) implies in_order(self@, labels) by {
                    lemma_loaded_in_order(old(self)@, program, labels);
                }
            }
        }
        self.run(fuel)
    }

    /// Carries out one instruction with the answer to its request, and
    /// then runs on as `run` does. A machine in order stays in order.
    pub fn resume(&mut self, supply: Supply, fuel: u64) -> (res: Result<Pause, LoxError>)
        requires
            old(self).wf(),
        ensures
            final(self).wf(),
            final(self)@ == old(self)@.resume(supply@, fuel as nat).0,
            pause_view(res) == old(self)@.resume(supply@, fuel as nat).1,
            keeps_order(old(self)@, final(self)@),
    {
        match self.step(supply) {
            Ok(Effect::Continue) => self.run(fuel),
            Ok(Effect::Output(text)) => Ok(Pause::Output(text)),
            Ok(Effect::Halt) => Ok(Pause::Halted),
            Err(e) => Err(e),
        }
    }
}

/// Whether a machine went from `before` to `after`, with `res`, by
/// starting `function` as a program and running it for at most `fuel`
/// instructions.
pub open spec fn started(
    before: Machine,
    function: Function,
    fuel: nat,
    after: Machine,
    res: Result<PauseView, ErrorView>,
) -> bool {
    after == before.loaded(function).run(fuel).0 && res == before.loaded(function).run(fuel).1
}

/// A call that goes through enters a function that takes exactly as many
/// arguments as the call passes: the new frame belongs to the value that
/// lies under the arguments, starts at its first instruction, and has that
/// value's stack slot as its slot 0. The stack itself is left as it was.
pub proof fn lemma_call_enters_callee(machine: Machine, supply: SupplyView, argc: usize)
    requires
        machine.stack.len() <= usize::MAX,
        machine.fetch() == Some(OpCode::Call(argc)),
        machine.step(supply).result is Ok,
    ensures
        machine.stack.len() >= argc + 1,
        machine.stack[machine.stack.len() - argc - 1] is Function,
        machine.step(supply).machine.frames.len() == machine.frames.len() + 1,
        machine.step(supply).machine.frames.last().function
            == machine.stack[machine.stack.len() - argc - 1]->Function_0,
        machine.step(supply).machine.frames.last().function.arity == argc,
        machine.step(supply).machine.frames.last().ip == 0,
        machine.step(supply).machine.frames.last().slot == machine.stack.len() - argc - 1,
        machine.step(supply).machine.stack == machine.stack,
{
}

/// A `Return` into a waiting caller removes the callee's frame, cuts the
/// stack down to the callee's slot 0 and puts the returned value there.
pub proof fn lemma_return_restores_caller(machine: Machine, supply: SupplyView)
    requires
        machine.fetch() == Some(OpCode::Return),
        machine.frames.len() > 1,
        machine.step(supply).result is Ok,
    ensures
        machine.step(supply).machine.frames == machine.frames.drop_last(),
        machine.step(supply).machine.stack.len() == machine.base() + 1,
        machine.step(supply).machine.stack.last() == machine.top(),
        forall|i: int|
            0 <= i < machine.base() ==> machine.step(supply).machine.stack[i] == machine.stack[i],
{
}

/// When the function entered by a `Call(argc)` returns, the stack is
/// shorter than it was before the call by the `argc` arguments: the callee
/// and its arguments are gone and the returned value stands in their place.
pub proof fn lemma_return_balances_call(
    caller: Machine,
    argc: usize,
    callee: Machine,
    call_supply: SupplyView,
    return_supply: SupplyView,
)
    requires
        caller.stack.len() <= usize::MAX,
        caller.fetch() == Some(OpCode::Call(argc)),
        caller.step(call_supply).result is Ok,
        callee.fetch() == Some(OpCode::Return),
        callee.frames.len() > 1,
        callee.frames.last().slot == caller.step(call_supply).machine.frames.last().slot,
        callee.step(return_supply).result is Ok,
    ensures
        callee.step(return_supply).machine.stack.len() == caller.stack.len() - argc - 1 + 1,
{
    lemma_call_enters_callee(caller, call_supply, argc);
    lemma_return_restores_caller(callee, return_supply);
}

/// By how much an instruction other than `Return` makes the stack grow
/// when it goes through.
pub open spec fn stack_effect(code: OpCode) -> int {
    match code {
        OpCode::Load(_) | OpCode::GetGlobal(_) | OpCode::GetLocal(_) => 1,
        OpCode::Add
        | OpCode::Sub
        | OpCode::Mul
        | OpCode::Div
        | OpCode::Mod
        | OpCode::Eq
        | OpCode::Less
        | OpCode::Greater
        | OpCode::Print
        | OpCode::Pop
        | OpCode::DefineGlobal(_) => -1,
        _ => 0,
    }
}

/// Every instruction but `Return` changes the depth of the stack by a
/// fixed amount when it goes through: a load or a read of a variable adds
/// one value; a two-operand instruction, `Print`, `Pop` and the definition
/// of a global take one away; negation, `Not`, assignments, jumps, calls
/// and compound assignments leave the depth as it is. (`Pop` on an empty
/// stack does nothing.)
pub proof fn lemma_stack_effect(machine: Machine, supply: SupplyView, code: OpCode)
    requires
        machine.fetch() == Some(code),
        !(code is Return),
        !(code is Pop && machine.stack.len() == 0),
        machine.step(supply).result is Ok,
    ensures
        machine.step(supply).machine.stack.len() == machine.stack.len() + stack_effect(code),
{
}

/// After an error, and when the program has ended, the machine is at rest:
/// no frames, an empty stack, the globals as they were.
pub proof fn lemma_rest_after_end(machine: Machine, supply: SupplyView)
    requires
        machine.step(supply).result is Err || machine.step(supply).result == Ok::<
            EffectView,
            ErrorView,
        >(EffectView::Halt),
    ensures
        machine.step(supply).machine == machine.stopped(),
{
}

} // verus!
