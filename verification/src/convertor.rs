//! The single-pass compiler: from the syntax tree to the code of a
//! function.

use vstd::prelude::*;
use vstd::string::*;
use std::rc::Rc;
use crate::bytecode::{code_view, function_view, lemma_code_view_push, lemma_code_view_update};
use crate::bytecode::{lemma_op_views, op_view, ConstView, OpView};
use crate::chunk::Chunk;
use crate::emitter::{c_expr, c_exprs, c_function, c_stmt, c_stmts, Emitter};
use crate::emitter::{lemma_c_exprs_stops, lemma_c_stmts_stops, lemma_declare_all_stops};
use crate::environment::{all_pops, Scopes};
use crate::error::{ErrorView, LoxError, Position};
use crate::expr::{expr_views, lemma_expr_views_len, Expression};
use crate::opcode::OpCode;
use crate::stmt::{lemma_stmt_views_len, stmt_views, Statement, StmtView};
use crate::token::{token_views, Token};
use crate::types::{FuncType, Function, Literal, TokenType};

verus! {

/// Whether the instruction at `i`, if it is a jump, leads to an instruction
/// of the same code or to its end.
pub open spec fn lands_within(codes: Seq<OpCode>, i: int) -> bool {
    match codes[i] {
        OpCode::Jump(offset) => i + 1 + offset <= codes.len(),
        OpCode::JumpIfTrue(offset) => i + 1 + offset <= codes.len(),
        OpCode::JumpIfFalse(offset) => i + 1 + offset <= codes.len(),
        OpCode::JumpForward(offset) => offset <= i + 1,
        _ => true,
    }
}

/// Whether the instruction at `i`, if it is a jump, leads to an instruction
/// of the same code.
pub open spec fn lands_on_code(codes: Seq<OpCode>, i: int) -> bool {
    match codes[i] {
        OpCode::Jump(offset) => i + 1 + offset < codes.len(),
        OpCode::JumpIfTrue(offset) => i + 1 + offset < codes.len(),
        OpCode::JumpIfFalse(offset) => i + 1 + offset < codes.len(),
        OpCode::JumpForward(offset) => offset <= i + 1,
        _ => true,
    }
}

/// No jump leads out of the code.
pub open spec fn jumps_within(codes: Seq<OpCode>) -> bool {
    forall|i: int| 0 <= i < codes.len() ==> lands_within(codes, i)
}

/// Every jump leads to an instruction.
pub open spec fn jumps_on_code(codes: Seq<OpCode>) -> bool {
    forall|i: int| 0 <= i < codes.len() ==> lands_on_code(codes, i)
}

/// Whether the code of `function` is sound: every instruction has its
/// position, no jump leads out of the code, and the same holds of every
/// function that the code loads.
pub open spec fn sound(function: Function) -> bool
    decreases function, 0nat,
{
    &&& function.chunk.wf()
    &&& jumps_within(function.chunk.codes@)
    &&& loads_sound(function.chunk.codes@, function.chunk.codes@.len() as int)
}

/// Whether every function that the first `n` instructions load is sound.
pub open spec fn loads_sound(codes: Seq<OpCode>, n: int) -> bool
    decreases codes, n,
{
    if n <= 0 || n > codes.len() {
        true
    } else {
        &&& loads_sound(codes, n - 1)
        &&& match codes[n - 1] {
            OpCode::Load(Literal::Function(inner)) => sound(*inner),
            _ => true,
        }
    }
}

/// Whether the instructions differ at most in where their jumps lead.
pub open spec fn same_loads(a: Seq<OpCode>, b: Seq<OpCode>) -> bool {
    &&& a.len() == b.len()
    &&& forall|i: int| 0 <= i < a.len() ==> (a[i] is Load || b[i] is Load) ==> a[i] == b[i]
}

/// Code that loads the same functions as sound code loads only sound
/// functions.
pub proof fn lemma_loads_sound_kept(a: Seq<OpCode>, b: Seq<OpCode>, n: int)
    requires
        same_loads(a, b),
        loads_sound(a, n),
        0 <= n <= a.len(),
    ensures
        loads_sound(b, n),
    decreases n,
{
    if n > 0 {
        lemma_loads_sound_kept(a, b, n - 1);
    }
}

/// Sound code with one instruction more is sound if the instruction loads
/// no function or a sound one.
pub proof fn lemma_loads_sound_push(codes: Seq<OpCode>, code: OpCode)
    requires
        loads_sound(codes, codes.len() as int),
        code matches OpCode::Load(Literal::Function(inner)) ==> sound(*inner),
    ensures
        loads_sound(codes.push(code), codes.len() as int + 1),
{
    lemma_loads_sound_prefix(codes, codes.push(code), codes.len() as int);
}

proof fn lemma_loads_sound_prefix(a: Seq<OpCode>, b: Seq<OpCode>, n: int)
    requires
        0 <= n <= a.len(),
        n <= b.len(),
        forall|i: int| 0 <= i < n ==> a[i] == b[i],
        loads_sound(a, n),
    ensures
        loads_sound(b, n),
    decreases n,
{
    if n > 0 {
        lemma_loads_sound_prefix(a, b, n - 1);
    }
}

/// Whether a `return` statement stands in the statement, outside the
/// functions that the statement declares.
pub open spec fn has_return(stmt: StmtView) -> bool
    decreases stmt, 0nat,
{
    match stmt {
        StmtView::Return { key_word, value } => true,
        StmtView::MultiVar { vars } => any_has_return(vars, vars.len() as int),
        StmtView::Block { statements } => any_has_return(
            statements,
            statements.len() as int,
        ),
        StmtView::Branch { condition, then_branch, else_branch } => has_return(
            *then_branch,
        ) || (match else_branch {
            Some(else_branch) => has_return(*else_branch),
            None => false,
        }),
        StmtView::While { condition, body, increment } => has_return(*body) || (
        match increment {
            Some(increment) => has_return(*increment),
            None => false,
        }),
        _ => false,
    }
}

/// Whether a `return` statement stands in one of the first `n` statements.
pub open spec fn any_has_return(stmts: Seq<StmtView>, n: int) -> bool
    decreases stmts, n,
{
    if n <= 0 || n > stmts.len() {
        false
    } else {
        any_has_return(stmts, n - 1) || has_return(stmts[n - 1])
    }
}

/// Whether the code ends with the two instructions that return `nil`.
pub open spec fn ends_with_nil_return(codes: Seq<OpCode>) -> bool {
    codes.len() >= 2 && codes[codes.len() - 2] == OpCode::Load(Literal::Nil) && codes[codes.len()
        - 1] is Return
}

/// One function being compiled.
pub struct Convertor {
    function: Function,
    func_type: FuncType,
    scopes: Scopes,
    /// Indices of the jumps of `break` statements that still wait for the
    /// end of their loop.
    break_position: Vec<usize>,
    /// Indices of the jumps of `continue` statements that still wait for
    /// the end of their loop's body.
    continue_position: Vec<usize>,
    /// The depth at which the innermost loop stands.
    loop_body_depth: usize,
    /// Whether a `return` statement has been compiled.
    is_returned: bool,
    /// How many functions without a name have been given one.
    lambdas: usize,
}

impl View for Convertor {
    type V = Emitter;

    closed spec fn view(&self) -> Emitter {
        Emitter {
            name: self.function.name@,
            func_type: self.func_type,
            codes: code_view(self.function.chunk.codes@),
            positions: self.function.chunk.positions@,
            scopes: self.scopes@,
            breaks: self.break_position@,
            continues: self.continue_position@,
            loop_body_depth: self.loop_body_depth,
            is_returned: self.is_returned,
            lambdas: self.lambdas,
        }
    }
}

/// Whether `res` and `emitter` are what `wanted` says: the state of the
/// compilation if it went on, the error if it stopped.
pub open spec fn agrees(res: Result<(), LoxError>, emitter: Emitter, wanted: Result<
    Emitter,
    ErrorView,
>) -> bool {
    match wanted {
        Ok(state) => res is Ok && emitter == state,
        Err(error) => res matches Err(found) && found@ == error,
    }
}

impl Default for Convertor {
    /// The compiler of a program: the function `__main__`.
    fn default() -> (res: Self)
        ensures
            res.wf(),
            res@ == Emitter::started("__main__"@, FuncType::Main, 0),
    {
        Convertor::new("__main__", FuncType::Main)
    }
}

impl Convertor {
    /// The code is well formed: every instruction has its position, no
    /// jump leads out of the code, and every function that the code loads
    /// is sound; the table of locals is in order.
    pub closed spec fn wf(&self) -> bool {
        &&& self.function.chunk.wf()
        &&& self.function.func_type == self.func_type
        &&& self.function.arity == 0
        &&& self.scopes.wf()
        &&& jumps_within(self.function.chunk.codes@)
        &&& loads_sound(self.function.chunk.codes@, self.function.chunk.codes@.len() as int)
    }

    /// Whether the two stand in the same function at the same depth, inside
    /// the same loop.
    spec fn same_place(&self, other: &Self) -> bool {
        &&& self.scopes.depth == other.scopes.depth
        &&& self.loop_body_depth == other.loop_body_depth
        &&& self.function.name == other.function.name
        &&& self.func_type == other.func_type
        &&& self.function.chunk.codes@.len() >= other.function.chunk.codes@.len()
    }

    /// A compiler for the function `func_name`. The program itself, of kind
    /// `Main`, starts with no locals at depth 0. Any other function starts
    /// at depth 1 with its slot 0 taken by the function itself, under its
    /// own name.
    pub fn new(func_name: &str, func_type: FuncType) -> (res: Self)
        ensures
            res.wf(),
            res@ == Emitter::started(func_name@, func_type, 0),
    {
        Convertor::with_lambdas(func_name, func_type, 0)
    }

    fn with_lambdas(func_name: &str, func_type: FuncType, lambdas: usize) -> (res: Self)
        ensures
            res.wf(),
            res@ == Emitter::started(func_name@, func_type, lambdas),
    {
        let mut scopes = Scopes::new();
        match func_type {
            FuncType::Main => {},
            _ => {
                let defined = scopes.define_variable(String::from_str(func_name), 0);
                assert(defined is Ok);
                scopes.begin_scope();
                assert(scopes@.variables =~= seq![(func_name@, 0usize)]);
            },
        }
        let res = Convertor {
            function: Function::new(String::from_str(func_name), Chunk::new(), 0, func_type),
            func_type,
            scopes,
            break_position: Vec::new(),
            continue_position: Vec::new(),
            loop_body_depth: 0,
            is_returned: false,
            lambdas,
        };
        proof {
            let wanted = Emitter::started(func_name@, func_type, lambdas);
            assert(res@.codes =~= wanted.codes);
            assert(res@.positions =~= wanted.positions);
            assert(res@.breaks =~= wanted.breaks);
            assert(res@.continues =~= wanted.continues);
            assert(res@.scopes.variables =~= wanted.scopes.variables);
        }
        res
    }

    /// Appends an instruction and returns its index.
    fn emit(&mut self, code: OpCode, position: Position) -> (index: usize)
        requires
            old(self).wf(),
            !(code is Jump || code is JumpIfTrue || code is JumpIfFalse || code is JumpForward),
            code matches OpCode::Load(Literal::Function(inner)) ==> sound(*inner),
        ensures
            final(self).wf(),
            index == old(self)@.codes.len(),
            index == old(self).function.chunk.codes@.len(),
            final(self)@ == old(self)@.emit(op_view(code), position),
            final(self).function.chunk.codes@ == old(self).function.chunk.codes@.push(code),
            final(self).same_place(old(self)),
            final(self).is_returned == old(self).is_returned,
    {
        let index = self.function.chunk.write(code, position);
        proof {
            lemma_loads_sound_push(old(self).function.chunk.codes@, code);
            lemma_code_view_push(old(self).function.chunk.codes@, code);
            lemma_op_views(
                old(self).function.chunk.codes@,
                old(self).function.chunk.codes@.len() as int,
            );
            let codes = self.function.chunk.codes@;
            assert forall|i: int| 0 <= i < codes.len() implies lands_within(codes, i) by {
                if i < codes.len() - 1 {
                    assert(lands_within(old(self).function.chunk.codes@, i));
                }
            }
        }
        index
    }

    /// Appends a forward jump that for now leads to the instruction behind
    /// it, and returns its index.
    fn emit_jump(&mut self, code: OpCode, position: Position) -> (index: usize)
        requires
            old(self).wf(),
            code == OpCode::Jump(0) || code == OpCode::JumpIfTrue(0) || code == OpCode::JumpIfFalse(
                0,
            ),
        ensures
            final(self).wf(),
            index == old(self)@.codes.len(),
            index == old(self).function.chunk.codes@.len(),
            final(self)@ == old(self)@.emit(op_view(code), position),
            final(self).function.chunk.codes@ == old(self).function.chunk.codes@.push(code),
            final(self).same_place(old(self)),
            final(self).is_returned == old(self).is_returned,
    {
        let index = self.function.chunk.write(code, position);
        proof {
            lemma_loads_sound_push(old(self).function.chunk.codes@, code);
            lemma_code_view_push(old(self).function.chunk.codes@, code);
            lemma_op_views(
                old(self).function.chunk.codes@,
                old(self).function.chunk.codes@.len() as int,
            );
            let codes = self.function.chunk.codes@;
            assert forall|i: int| 0 <= i < codes.len() implies lands_within(codes, i) by {
                if i < codes.len() - 1 {
                    assert(lands_within(old(self).function.chunk.codes@, i));
                }
            }
        }
        index
    }

    /// Appends the jump that leads back to the instruction at `target`.
    fn emit_loop(&mut self, target: usize) -> (res: Result<(), LoxError>)
        requires
            old(self).wf(),
            target <= old(self).function.chunk.codes@.len(),
        ensures
            final(self).wf(),
            agrees(
                res,
                final(self)@,
                if old(self)@.codes.len() - target >= usize::MAX {
                    Err(ErrorView::Unexpected { message: "The code is too long."@ })
                } else {
                    Ok(
                        old(self)@.emit(
                            OpView::JumpForward((old(self)@.codes.len() - target + 1) as usize),
                            (0, 0),
                        ),
                    )
                },
            ),
            res is Ok ==> final(self).same_place(old(self)),
            res is Ok ==> final(self).is_returned == old(self).is_returned,
    {
        proof {
            lemma_op_views(
                old(self).function.chunk.codes@,
                old(self).function.chunk.codes@.len() as int,
            );
        }
        let distance = self.function.chunk.len() - target;
        if distance == usize::MAX {
            return Err(LoxError::unexpected("The code is too long."));
        }
        self.function.chunk.write(OpCode::JumpForward(distance + 1), (0, 0));
        proof {
            lemma_loads_sound_push(
                old(self).function.chunk.codes@,
                OpCode::JumpForward((distance + 1) as usize),
            );
            lemma_code_view_push(
                old(self).function.chunk.codes@,
                OpCode::JumpForward((distance + 1) as usize),
            );
            let codes = self.function.chunk.codes@;
            assert forall|i: int| 0 <= i < codes.len() implies lands_within(codes, i) by {
                if i < codes.len() - 1 {
                    assert(lands_within(old(self).function.chunk.codes@, i));
                }
            }
        }
        Ok(())
    }

    /// Makes the forward jump at `index` lead to the instruction that will
    /// be written next. An instruction that is no forward jump is left as
    /// it is.
    fn patch_jump_opcode(&mut self, index: usize)
        requires
            old(self).wf(),
        ensures
            final(self).wf(),
            final(self)@ == old(self)@.patched(index as int),
            final(self).same_place(old(self)),
            final(self).is_returned == old(self).is_returned,
            final(self)@.codes.len() == old(self)@.codes.len(),
    {
        proof {
            lemma_op_views(
                old(self).function.chunk.codes@,
                old(self).function.chunk.codes@.len() as int,
            );
        }
        let len = self.function.chunk.len();
        if index >= len {
            return ;
        }
        let offset = len - 1 - index;
        let patched: Option<OpCode> = match &self.function.chunk.codes[index] {
            OpCode::Jump(_) => Some(OpCode::Jump(offset)),
            OpCode::JumpIfTrue(_) => Some(OpCode::JumpIfTrue(offset)),
            OpCode::JumpIfFalse(_) => Some(OpCode::JumpIfFalse(offset)),
            _ => None,
        };
        if let Some(code) = patched {
            self.function.chunk.codes.set(index, code);
            proof {
                lemma_loads_sound_kept(
                    old(self).function.chunk.codes@,
                    self.function.chunk.codes@,
                    old(self).function.chunk.codes@.len() as int,
                );
                lemma_code_view_update(old(self).function.chunk.codes@, index as int, code);
                let codes = self.function.chunk.codes@;
                assert forall|i: int| 0 <= i < codes.len() implies lands_within(codes, i) by {
                    if i != index {
                        assert(lands_within(old(self).function.chunk.codes@, i));
                    }
                }
            }
        }
    }

    /// Writes, at no position of the source, as many instructions `Pop` as
    /// `codes` holds.
    fn emit_pops(&mut self, codes: Vec<OpCode>)
        requires
            old(self).wf(),
            all_pops(codes@),
        ensures
            final(self).wf(),
            final(self)@ == old(self)@.pops(codes@.len()),
            final(self).same_place(old(self)),
            final(self).is_returned == old(self).is_returned,
    {
        let count = codes.len();
        let mut i: usize = 0;
        while i < count
            invariant
                self.wf(),
                self.same_place(old(self)),
                self.is_returned == old(self).is_returned,
                i <= count,
                self@ == old(self)@.pops(i as nat),
            decreases count - i,
        {
            self.emit(OpCode::Pop, (0, 0));
            i += 1;
        }
    }

    /// Makes every waiting jump of `continue` from `mark` on lead to the
    /// instruction that will be written next, and takes them off the list.
    fn settle_continues(&mut self, mark: usize)
        requires
            old(self).wf(),
        ensures
            final(self).wf(),
            final(self).same_place(old(self)),
            final(self).is_returned == old(self).is_returned,
            final(self)@ == (Emitter {
                continues: crate::emitter::cut(old(self)@.continues, mark as int),
                ..old(self)@.patched_all(
                    old(self)@.continues,
                    mark as int,
                    old(self)@.continues.len() as int,
                )
            }),
    {
        let mut i: usize = mark;
        while i < self.continue_position.len()
            invariant
                self.wf(),
                self.same_place(old(self)),
                self.is_returned == old(self).is_returned,
                mark <= i,
                self.continue_position@ == old(self).continue_position@,
                i <= self.continue_position@.len() || i == mark,
                self@ == old(self)@.patched_all(old(self)@.continues, mark as int, i as int),
            decreases self.continue_position@.len() - i,
        {
            let index = self.continue_position[i];
            self.patch_jump_opcode(index);
            i += 1;
        }
        self.continue_position.truncate(mark);
    }

    /// Makes every waiting jump of `break` from `mark` on lead to the
    /// instruction that will be written next, and takes them off the list.
    fn settle_breaks(&mut self, mark: usize)
        requires
            old(self).wf(),
        ensures
            final(self).wf(),
            final(self).same_place(old(self)),
            final(self).is_returned == old(self).is_returned,
            final(self)@ == (Emitter {
                breaks: crate::emitter::cut(old(self)@.breaks, mark as int),
                ..old(self)@.patched_all(
                    old(self)@.breaks,
                    mark as int,
                    old(self)@.breaks.len() as int,
                )
            }),
    {
        let mut i: usize = mark;
        while i < self.break_position.len()
            invariant
                self.wf(),
                self.same_place(old(self)),
                self.is_returned == old(self).is_returned,
                mark <= i,
                self.break_position@ == old(self).break_position@,
                i <= self.break_position@.len() || i == mark,
                self@ == old(self)@.patched_all(old(self)@.breaks, mark as int, i as int),
            decreases self.break_position@.len() - i,
        {
            let index = self.break_position[i];
            self.patch_jump_opcode(index);
            i += 1;
        }
        self.break_position.truncate(mark);
    }

    /// The error for a part of the language that has no code.
    fn unsupported(token: &Token) -> (res: LoxError)
        ensures
            res@ == crate::emitter::unsupported(token@),
    {
        LoxError::create_runtime_error(
            token,
            String::from_str("Classes are not supported by the bytecode compiler."),
        )
    }

    fn refuse(token: &Token, msg: &str) -> (res: LoxError)
        ensures
            res@ == crate::emitter::refused(token@, msg@),
    {
        LoxError::create_runtime_error(token, String::from_str(msg))
    }

    /// Declares a local at the current depth, in the next slot.
    fn declare(&mut self, name: &Token) -> (res: Result<(), LoxError>)
        requires
            old(self).wf(),
        ensures
            final(self).wf(),
            agrees(res, final(self)@, old(self)@.declare(name@)),
            res is Ok ==> final(self).same_place(old(self)),
            res is Ok ==> final(self).is_returned == old(self).is_returned,
    {
        let depth = self.scopes.depth;
        match self.scopes.define_variable(name.lexeme.clone(), depth) {
            Ok(_) => Ok(()),
            Err(_) => Err(Self::refuse(name, "Already a variable with this name in this scope.")),
        }
    }

    /// Declares the parameters of the function being compiled, each in
    /// the next slot.
    fn declare_parameters(&mut self, params: &Vec<Token>) -> (res: Result<(), LoxError>)
        requires
            old(self).wf(),
        ensures
            final(self).wf(),
            agrees(
                res,
                final(self)@,
                old(self)@.declare_all(token_views(params@), params@.len() as int),
            ),
            res is Ok ==> final(self).same_place(old(self)),
            res is Ok ==> final(self).is_returned == old(self).is_returned,
    {
        let mut i: usize = 0;
        while i < params.len()
            invariant
                self.wf(),
                self.same_place(old(self)),
                self.is_returned == old(self).is_returned,
                i <= params@.len(),
                old(self)@.declare_all(token_views(params@), i as int) == Ok::<Emitter, ErrorView>(
                    self@,
                ),
            decreases params@.len() - i,
        {
            match self.declare(&params[i]) {
                Ok(_) => {},
                Err(error) => {
                    proof {
                        lemma_declare_all_stops(
                            old(self)@,
                            token_views(params@),
                            i as int + 1,
                            params@.len() as int,
                        );
                    }
                    return Err(error);
                },
            }
            i += 1;
        }
        Ok(())
    }

    /// Ends the function: unless a `return` statement was compiled, the
    /// code is made to end by returning `nil`.
    fn finish(self, arity: usize) -> (function: Function)
        requires
            self.wf(),
        ensures
            sound(function),
            function_view(function) == self@.finished(arity),
            function.name == self.function.name,
            function.func_type == self.func_type,
            !self@.is_returned ==> ends_with_nil_return(function.chunk.codes@) && jumps_on_code(
                function.chunk.codes@,
            ),
    {
        let mut this = self;
        if !this.is_returned {
            this.emit(OpCode::Load(Literal::Nil), (0, 0));
            this.emit(OpCode::Return, (0, 0));
            proof {
                let codes = this.function.chunk.codes@;
                assert forall|i: int| 0 <= i < codes.len() implies lands_on_code(codes, i) by {
                    if i < codes.len() - 2 {
                        assert(lands_within(self.function.chunk.codes@, i));
                    }
                }
            }
        }
        let mut function = this.function;
        function.arity = arity;
        function
    }

    /// Compiles a function from its parameters and its body.
    #[verifier::spinoff_prover]
    fn convert_function(
        name: &str,
        params: &Vec<Token>,
        body: &Vec<Statement>,
        func_type: FuncType,
        lambdas: usize,
    ) -> (res: Result<(Function, usize), LoxError>)
        ensures
            match c_function(
                name@,
                token_views(params@),
                stmt_views(body@, body@.len() as int),
                func_type,
                lambdas,
            ) {
                Ok(compiled) => res matches Ok(found) && function_view(found.0) == compiled.0
                    && found.1 == compiled.1 && sound(found.0),
                Err(error) => res matches Err(found) && found@ == error,
            },
        decreases body, body@.len() + 1,
    {
        proof {
            reveal(c_function);
            lemma_stmt_views_len(body@, body@.len() as int);
        }
        let mut inner = Convertor::with_lambdas(name, func_type, lambdas);
        inner.declare_parameters(params)?;
        inner.convert_statements(body)?;
        let lambdas = inner.lambdas;
        let function = inner.finish(params.len());
        Ok((function, lambdas))
    }

    /// Writes the instructions of the operator of a two-operand expression
    /// whose operands have been compiled.
    fn convert_binary_operator(&mut self, op: &Token) -> (res: Result<(), LoxError>)
        requires
            old(self).wf(),
        ensures
            final(self).wf(),
            agrees(
                res,
                final(self)@,
                match old(self)@.binary(op.token_type, op.position) {
                    Some(after) => Ok(after),
                    None => Err(crate::emitter::refused(op@, "Unexpected operator"@)),
                },
            ),
            res is Ok ==> final(self).same_place(old(self)),
            res is Ok ==> final(self).is_returned == old(self).is_returned,
    {
        let position = op.position;
        match op.token_type {
            TokenType::Plus => {
                self.emit(OpCode::Add, position);
            },
            TokenType::Minus => {
                self.emit(OpCode::Sub, position);
            },
            TokenType::Star => {
                self.emit(OpCode::Mul, position);
            },
            TokenType::Slash => {
                self.emit(OpCode::Div, position);
            },
            TokenType::Mod => {
                self.emit(OpCode::Mod, position);
            },
            TokenType::BangEqual => {
                self.emit(OpCode::Eq, position);
                self.emit(OpCode::Not, position);
            },
            TokenType::EqualEqual => {
                self.emit(OpCode::Eq, position);
            },
            TokenType::Greater => {
                self.emit(OpCode::Greater, position);
            },
            TokenType::GreaterEqual => {
                self.emit(OpCode::Less, position);
                self.emit(OpCode::Not, position);
            },
            TokenType::Less => {
                self.emit(OpCode::Less, position);
            },
            TokenType::LessEqual => {
                self.emit(OpCode::Greater, position);
                self.emit(OpCode::Not, position);
            },
            _ => {
                return Err(Self::refuse(op, "Unexpected operator"));
            },
        }
        Ok(())
    }

    /// Loads a compiled function.
    fn emit_function(&mut self, function: Function, position: Position)
        requires
            old(self).wf(),
            sound(function),
        ensures
            final(self).wf(),
            final(self)@ == old(self)@.emit(
                OpView::Load(ConstView::Function(function_view(function))),
                position,
            ),
            final(self).same_place(old(self)),
            final(self).is_returned == old(self).is_returned,
    {
        let code = OpCode::Load(Literal::Function(Rc::new(function)));
        proof {
            assert(crate::bytecode::const_view(Literal::Function(Rc::new(function)))
                == ConstView::Function(function_view(function)));
            assert(op_view(code) == OpView::Load(ConstView::Function(function_view(function))));
        }
        self.emit(code, position);
    }

    /// Compiles an expression: the code written leaves the value of the
    /// expression on the stack.
    #[verifier::spinoff_prover]
    #[verifier::rlimit(80)]
    fn convert_expression(&mut self, expr: &Expression) -> (res: Result<(), LoxError>)
        requires
            old(self).wf(),
        ensures
            final(self).wf(),
            agrees(res, final(self)@, c_expr(expr@, old(self)@)),
            res is Ok ==> final(self).same_place(old(self)),
            res is Ok ==> final(self).is_returned == old(self).is_returned,
        decreases expr, 0nat,
    {
        proof {
            reveal(c_expr);
        }
        match expr {
            Expression::AssignExpression { name, value } => {
                self.convert_expression(value)?;
                match self.scopes.find_variable(&name.lexeme) {
                    Ok(slot) => {
                        self.emit(OpCode::SetLocal(slot), name.position);
                    },
                    Err(_) => {
                        self.emit(OpCode::SetGlobal(name.lexeme.clone()), name.position);
                    },
                }
                Ok(())
            },
            Expression::BinaryExpression { left, op, right } => {
                self.convert_expression(left)?;
                self.convert_expression(right)?;
                self.convert_binary_operator(op)
            },
            Expression::CallExpression { callee, paren, arguments } => {
                proof {
                    lemma_expr_views_len(arguments@, arguments@.len() as int);
                }
                self.convert_expression(callee)?;
                self.convert_expressions(arguments)?;
                self.emit(OpCode::Call(arguments.len()), paren.position);
                Ok(())
            },
            Expression::GroupingExpression { expression } => self.convert_expression(expression),
            Expression::LiteralExpression { value, token } => {
                match value {
                    Literal::Function(_) => Err(
                        Self::refuse(token, "A function cannot stand as a constant."),
                    ),
                    _ => {
                        assert(op_view(OpCode::Load(*value)) == OpView::Load(
                            crate::bytecode::const_view(*value),
                        ));
                        assert(crate::emitter::constant(value@) == Some(
                            crate::bytecode::const_view(*value),
                        ));
                        self.emit(OpCode::Load(value.clone()), token.position);
                        Ok(())
                    },
                }
            },
            Expression::LogicalExpression { left, op, right } => {
                let jump = match op.token_type {
                    TokenType::And => OpCode::JumpIfFalse(0),
                    TokenType::Or => OpCode::JumpIfTrue(0),
                    _ => {
                        return Err(Self::refuse(op, "Unexpected operator"));
                    },
                };
                self.convert_expression(left)?;
                let index = self.emit_jump(jump, op.position);
                self.emit(OpCode::Pop, (0, 0));
                self.convert_expression(right)?;
                self.patch_jump_opcode(index);
                Ok(())
            },
            Expression::TernaryExpression { condition, true_value, false_value } => {
                self.convert_expression(condition)?;
                let jump_false = self.emit_jump(OpCode::JumpIfFalse(0), (0, 0));
                self.emit(OpCode::Pop, (0, 0));
                self.convert_expression(true_value)?;
                let jump = self.emit_jump(OpCode::Jump(0), (0, 0));
                self.patch_jump_opcode(jump_false);
                self.emit(OpCode::Pop, (0, 0));
                self.convert_expression(false_value)?;
                self.patch_jump_opcode(jump);
                Ok(())
            },
            Expression::UnaryExpression { op, right } => {
                self.convert_expression(right)?;
                match op.token_type {
                    TokenType::Minus => {
                        self.emit(OpCode::Negate, op.position);
                        Ok(())
                    },
                    TokenType::Bang => {
                        self.emit(OpCode::Not, op.position);
                        Ok(())
                    },
                    _ => Err(Self::refuse(op, "Operand must be number or bool")),
                }
            },
            Expression::VariableExpression { name } => {
                match self.scopes.find_variable(&name.lexeme) {
                    Ok(slot) => {
                        self.emit(OpCode::GetLocal(slot), name.position);
                    },
                    Err(_) => {
                        self.emit(OpCode::GetGlobal(name.lexeme.clone()), name.position);
                    },
                }
                Ok(())
            },
            Expression::LambdaExpression { keyword, params, body } => {
                if self.lambdas == usize::MAX {
                    return Err(LoxError::unexpected("Too many functions without a name."));
                }
                let name = Function::lambda_name(self.lambdas + 1);
                let (function, lambdas) = Self::convert_function(
                    name.as_str(),
                    params,
                    body,
                    FuncType::Lambda,
                    self.lambdas + 1,
                )?;
                self.lambdas = lambdas;
                self.emit_function(function, keyword.position);
                Ok(())
            },
            Expression::OperateAndAssignExpression { name, op, value } => {
                self.convert_expression(value)?;
                let found = self.scopes.find_variable(&name.lexeme);
                let code = match found {
                    Ok(slot) => match op.token_type {
                        TokenType::PlusEqual => OpCode::AddILocal(slot),
                        TokenType::MinusEqual => OpCode::SubILocal(slot),
                        TokenType::StarEqual => OpCode::MulILocal(slot),
                        TokenType::SlashEqual => OpCode::DivILocal(slot),
                        TokenType::ModEqual => OpCode::ModILocal(slot),
                        _ => {
                            return Err(Self::refuse(op, "Unexpected operator"));
                        },
                    },
                    Err(_) => match op.token_type {
                        TokenType::PlusEqual => OpCode::AddIGlobal(name.lexeme.clone()),
                        TokenType::MinusEqual => OpCode::SubIGlobal(name.lexeme.clone()),
                        TokenType::StarEqual => OpCode::MulIGlobal(name.lexeme.clone()),
                        TokenType::SlashEqual => OpCode::DivIGlobal(name.lexeme.clone()),
                        TokenType::ModEqual => OpCode::ModIGlobal(name.lexeme.clone()),
                        _ => {
                            return Err(Self::refuse(op, "Unexpected operator"));
                        },
                    },
                };
                self.emit(code, op.position);
                Ok(())
            },
            Expression::GetExpression { object: _, name } => Err(Self::unsupported(name)),
            Expression::SetExpression { object: _, name, value: _ } => Err(Self::unsupported(name)),
            Expression::SuperExpression { keyword, method: _ } => Err(Self::unsupported(keyword)),
            Expression::SelfExpression { keyword } => Err(Self::unsupported(keyword)),
        }
    }

    /// Compiles the expressions one after the other.
    #[verifier::spinoff_prover]
    fn convert_expressions(&mut self, exprs: &Vec<Expression>) -> (res: Result<(), LoxError>)
        requires
            old(self).wf(),
        ensures
            final(self).wf(),
            agrees(
                res,
                final(self)@,
                c_exprs(expr_views(exprs@, exprs@.len() as int), exprs@.len() as int, old(self)@),
            ),
            res is Ok ==> final(self).same_place(old(self)),
            res is Ok ==> final(self).is_returned == old(self).is_returned,
        decreases exprs, exprs@.len(),
    {
        proof {
            reveal(c_exprs);
        }
        let mut i: usize = 0;
        while i < exprs.len()
            invariant
                self.wf(),
                self.same_place(old(self)),
                self.is_returned == old(self).is_returned,
                i <= exprs@.len(),
                c_exprs(expr_views(exprs@, exprs@.len() as int), i as int, old(self)@) == Ok::<
                    Emitter,
                    ErrorView,
                >(self@),
            decreases exprs@.len() - i,
        {
            proof {
                reveal(c_exprs);
                vstd::std_specs::vec::axiom_vec_index_decreases(*exprs, i as int);
                lemma_expr_views_len(exprs@, exprs@.len() as int);
            }
            match self.convert_expression(&exprs[i]) {
                Ok(_) => {},
                Err(error) => {
                    proof {
                        lemma_c_exprs_stops(
                            expr_views(exprs@, exprs@.len() as int),
                            i as int + 1,
                            exprs@.len() as int,
                            old(self)@,
                        );
                    }
                    return Err(error);
                },
            }
            i += 1;
        }
        Ok(())
    }

    #[verifier::spinoff_prover]
    fn convert_statements(&mut self, statements: &Vec<Statement>) -> (res: Result<(), LoxError>)
        requires
            old(self).wf(),
        ensures
            final(self).wf(),
            agrees(
                res,
                final(self)@,
                c_stmts(
                    stmt_views(statements@, statements@.len() as int),
                    statements@.len() as int,
                    old(self)@,
                ),
            ),
            res is Ok ==> final(self).same_place(old(self)),
            res is Ok ==> final(self).is_returned == (old(self).is_returned || any_has_return(
                stmt_views(statements@, statements@.len() as int),
                statements@.len() as int,
            )),
        decreases statements, statements@.len(),
    {
        proof {
            reveal(c_stmts);
        }
        let mut i: usize = 0;
        while i < statements.len()
            invariant
                self.wf(),
                self.same_place(old(self)),
                self.is_returned == (old(self).is_returned || any_has_return(
                    stmt_views(statements@, statements@.len() as int),
                    i as int,
                )),
                i <= statements@.len(),
                c_stmts(stmt_views(statements@, statements@.len() as int), i as int, old(self)@)
                    == Ok::<Emitter, ErrorView>(self@),
            decreases statements@.len() - i,
        {
            proof {
                reveal(c_stmts);
                vstd::std_specs::vec::axiom_vec_index_decreases(*statements, i as int);
                lemma_stmt_views_len(statements@, statements@.len() as int);
            }
            match self.convert_statement(&statements[i]) {
                Ok(_) => {},
                Err(error) => {
                    proof {
                        lemma_c_stmts_stops(
                            stmt_views(statements@, statements@.len() as int),
                            i as int + 1,
                            statements@.len() as int,
                            old(self)@,
                        );
                    }
                    return Err(error);
                },
            }
            i += 1;
        }
        Ok(())
    }

    /// Compiles a loop.
    #[verifier::spinoff_prover]
    #[verifier::rlimit(80)]
    fn convert_while(&mut self, stmt: &Statement) -> (res: Result<(), LoxError>)
        requires
            old(self).wf(),
            *stmt is WhileStatement,
        ensures
            final(self).wf(),
            agrees(res, final(self)@, c_stmt(stmt@, old(self)@)),
            res is Ok ==> final(self).same_place(old(self)),
            res is Ok ==> final(self).is_returned == (old(self).is_returned || has_return(stmt@)),
        decreases stmt, 0nat,
    {
        proof {
            reveal(c_stmt);
            lemma_op_views(
                old(self).function.chunk.codes@,
                old(self).function.chunk.codes@.len() as int,
            );
        }
        match stmt {
            Statement::WhileStatement { condition, body, increment } => {
                let loop_start = self.function.chunk.len();
                let outer_depth = self.loop_body_depth;
                let break_mark = self.break_position.len();
                let continue_mark = self.continue_position.len();
                self.loop_body_depth = self.scopes.depth;
                self.convert_expression(condition)?;
                let jump_false = self.emit_jump(OpCode::JumpIfFalse(0), (0, 0));
                self.emit(OpCode::Pop, (0, 0));
                self.convert_statement(body)?;
                self.settle_continues(continue_mark);
                if let Some(increment) = increment {
                    self.convert_statement(increment)?;
                }
                self.emit_loop(loop_start)?;
                self.patch_jump_opcode(jump_false);
                self.emit(OpCode::Pop, (0, 0));
                self.settle_breaks(break_mark);
                self.loop_body_depth = outer_depth;
                Ok(())
            },
            _ => Ok(()),
        }
    }

    /// Compiles a branch.
    #[verifier::spinoff_prover]
    #[verifier::rlimit(80)]
    fn convert_branch(&mut self, stmt: &Statement) -> (res: Result<(), LoxError>)
        requires
            old(self).wf(),
            *stmt is BranchStatement,
        ensures
            final(self).wf(),
            agrees(res, final(self)@, c_stmt(stmt@, old(self)@)),
            res is Ok ==> final(self).same_place(old(self)),
            res is Ok ==> final(self).is_returned == (old(self).is_returned || has_return(stmt@)),
        decreases stmt, 0nat,
    {
        proof {
            reveal(c_stmt);
            lemma_op_views(
                old(self).function.chunk.codes@,
                old(self).function.chunk.codes@.len() as int,
            );
        }
        match stmt {
            Statement::BranchStatement { condition, then_branch, else_branch } => {
                self.convert_expression(condition)?;
                let jump_false = self.emit_jump(OpCode::JumpIfFalse(0), (0, 0));
                self.emit(OpCode::Pop, (0, 0));
                self.convert_statement(then_branch)?;
                let jump = self.emit_jump(OpCode::Jump(0), (0, 0));
                self.patch_jump_opcode(jump_false);
                self.emit(OpCode::Pop, (0, 0));
                if let Some(else_branch) = else_branch {
                    self.convert_statement(else_branch)?;
                }
                self.patch_jump_opcode(jump);
                Ok(())
            },
            _ => Ok(()),
        }
    }

    /// Compiles a statement: the code written leaves the stack as it found
    /// it, but for the slots of the locals that the statement declares.
    #[verifier::spinoff_prover]
    #[verifier::rlimit(80)]
    fn convert_statement(&mut self, stmt: &Statement) -> (res: Result<(), LoxError>)
        requires
            old(self).wf(),
        ensures
            final(self).wf(),
            agrees(res, final(self)@, c_stmt(stmt@, old(self)@)),
            res is Ok ==> final(self).same_place(old(self)),
            res is Ok ==> final(self).is_returned == (old(self).is_returned || has_return(stmt@)),
        decreases stmt, 1nat,
    {
        proof {
            reveal(c_stmt);
            lemma_op_views(
                old(self).function.chunk.codes@,
                old(self).function.chunk.codes@.len() as int,
            );
        }
        match stmt {
            Statement::ExpressionStatement { expression, end } => {
                self.convert_expression(expression)?;
                self.emit(OpCode::Pop, end.position);
                Ok(())
            },
            Statement::PrintStatement { expression, keyword } => {
                self.convert_expression(expression)?;
                self.emit(OpCode::Print, keyword.position);
                Ok(())
            },
            Statement::VarStatement { name, initializer } => {
                match initializer {
                    Some(init) => {
                        self.convert_expression(init)?;
                    },
                    None => {
                        self.emit(OpCode::Load(Literal::Nil), name.position);
                    },
                }
                if self.scopes.depth > 0 {
                    self.declare(name)
                } else {
                    self.emit(OpCode::DefineGlobal(name.lexeme.clone()), name.position);
                    Ok(())
                }
            },
            Statement::MultiVarStatement { vars } => {
                proof {
                    lemma_stmt_views_len(vars@, vars@.len() as int);
                }
                self.convert_statements(vars)
            },
            Statement::BlockStatement { statements } => {
                proof {
                    lemma_stmt_views_len(statements@, statements@.len() as int);
                }
                if self.scopes.depth == usize::MAX {
                    return Err(LoxError::unexpected("Blocks are nested too deep."));
                }
                self.scopes.begin_scope();
                self.convert_statements(statements)?;
                let pops = self.scopes.end_scope();
                self.emit_pops(pops);
                Ok(())
            },
            Statement::BranchStatement { .. } => self.convert_branch(stmt),
            Statement::WhileStatement { .. } => self.convert_while(stmt),
            Statement::ContinueStatement { token } => {
                let pops = self.scopes.will_delete_var_by_depth(self.loop_body_depth);
                self.emit_pops(pops);
                let index = self.emit_jump(OpCode::Jump(0), token.position);
                self.continue_position.push(index);
                Ok(())
            },
            Statement::BreakStatement { token } => {
                let pops = self.scopes.will_delete_var_by_depth(self.loop_body_depth);
                self.emit_pops(pops);
                let index = self.emit_jump(OpCode::Jump(0), token.position);
                self.break_position.push(index);
                Ok(())
            },
            Statement::FunctionStatement { name, params, body, function_type: _ } => {
                let (function, lambdas) = Self::convert_function(
                    name.lexeme.as_str(),
                    params,
                    body,
                    FuncType::Normal,
                    self.lambdas,
                )?;
                self.lambdas = lambdas;
                self.emit_function(function, name.position);
                if self.scopes.depth == 0 {
                    self.emit(OpCode::DefineGlobal(name.lexeme.clone()), name.position);
                    Ok(())
                } else {
                    self.declare(name)
                }
            },
            Statement::ReturnStatement { key_word, value } => {
                self.is_returned = true;
                match value {
                    Some(value) => {
                        self.convert_expression(value)?;
                    },
                    None => {
                        self.emit(OpCode::Load(Literal::Nil), key_word.position);
                    },
                }
                self.emit(OpCode::Return, key_word.position);
                Ok(())
            },
            Statement::ClassStatement { name, methods: _, static_methods: _ } => Err(
                Self::unsupported(name),
            ),
        }
    }

    /// Compiles the statements as the body of the function and ends it.
    /// The compiler stops at the first error.
    pub fn convert(self, statements: &Vec<Statement>) -> (res: Result<Function, LoxError>)
        requires
            self.wf(),
        ensures
            match c_stmts(
                stmt_views(statements@, statements@.len() as int),
                statements@.len() as int,
                self@,
            ) {
                Ok(compiled) => res matches Ok(function) && function_view(function)
                    == compiled.finished(0) && sound(function) && function.name@ == self@.name
                    && function.func_type == self@.func_type && (!self@.is_returned
                    && !any_has_return(
                stmt_views(statements@, statements@.len() as int),
                statements@.len() as int,
            )
                    ==> ends_with_nil_return(function.chunk.codes@) && jumps_on_code(
                    function.chunk.codes@,
                )),
                Err(error) => res matches Err(found) && found@ == error,
            },
    {
        let mut this = self;
        this.convert_statements(statements)?;
        Ok(this.finish(0))
    }
}

} // verus!
