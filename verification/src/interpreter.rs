//! Running a syntax tree: the tree is compiled, and the code is run on a
//! stack machine that lives on from one tree to the next.

use vstd::prelude::*;
use crate::bytecode::function_view;
use crate::convertor::{sound, Convertor};
use crate::emitter::c_program;
use crate::error::LoxError;
use crate::heights::{lemma_program_in_step, tidy_stmts};
use crate::running::keeps_order;
use crate::stmt::{lemma_stmt_views_len, stmt_views, Statement};
use crate::types::{FuncType, Function};
use crate::vm::{pause_view, started, Machine, Pause, Supply, VirtualMachine};

verus! {

pub struct Interpreter {
    vm: VirtualMachine,
}

impl Interpreter {
    /// The machine of this interpreter.
    pub closed spec fn machine(&self) -> Machine {
        self.vm@
    }

    pub closed spec fn wf(&self) -> bool {
        self.vm.wf()
    }

    /// An interpreter with a fresh machine. `is_repl` says whether the
    /// trees come from the interactive prompt.
    pub fn new(is_repl: bool) -> (res: Self)
        ensures
            res.wf(),
            res.machine() == (Machine {
                stack: Seq::empty(),
                globals: Map::empty(),
                frames: Seq::empty(),
                is_repl,
            }),
    {
        Interpreter { vm: VirtualMachine::new(is_repl) }
    }

    /// Compiles the statements as a program and starts it. Where the
    /// compiler stops at an error, the error is returned and the machine
    /// is left as it was. A machine without frames that is in order, given
    /// tidy statements, stays in order.
    pub fn interpret(&mut self, statements: &Vec<Statement>, fuel: u64) -> (res: Result<
        Pause,
        LoxError,
    >)
        requires
            old(self).wf(),
        ensures
            final(self).wf(),
            match c_program(stmt_views(statements@, statements@.len() as int)) {
                Err(error) => res matches Err(found) && found@ == error && final(self).machine()
                    == old(self).machine(),
                Ok(code) => exists|function: Function|
                    function_view(function) == code && sound(function) && #[trigger] started(
                        old(self).machine(),
                        function,
                        fuel as nat,
                        final(self).machine(),
                        pause_view(res),
                    ),
            },
            tidy_stmts(
                stmt_views(statements@, statements@.len() as int),
                statements@.len() as int,
                false,
            ) && old(self).machine().frames.len() == 0 ==> keeps_order(
                old(self).machine(),
                final(self).machine(),
            ),
    {
        proof {
            lemma_stmt_views_len(statements@, statements@.len() as int);
            if tidy_stmts(
                stmt_views(statements@, statements@.len() as int),
                statements@.len() as int,
                false,
            ) {
                lemma_program_in_step(stmt_views(statements@, statements@.len() as int));
            }
        }
        match Convertor::new("__main__", FuncType::Main).convert(statements) {
            Err(error) => Err(error),
            Ok(function) => {
                let res = self.vm.interpret(function, fuel);
                assert(started(
                    old(self).machine(),
                    function,
                    fuel as nat,
                    self.machine(),
                    pause_view(res),
                ));
                res
            },
        }
    }

    /// Goes on with a program that has paused without asking for anything,
    /// as `VirtualMachine::run` does.
    pub fn proceed(&mut self, fuel: u64) -> (res: Result<Pause, LoxError>)
        requires
            old(self).wf(),
        ensures
            final(self).wf(),
            final(self).machine() == old(self).machine().run(fuel as nat).0,
            pause_view(res) == old(self).machine().run(fuel as nat).1,
            keeps_order(old(self).machine(), final(self).machine()),
    {
        self.vm.run(fuel)
    }

    /// Goes on with a program that has paused, as `VirtualMachine::resume`
    /// does.
    pub fn resume(&mut self, supply: Supply, fuel: u64) -> (res: Result<Pause, LoxError>)
        requires
            old(self).wf(),
        ensures
            final(self).wf(),
            final(self).machine() == old(self).machine().resume(supply@, fuel as nat).0,
            pause_view(res) == old(self).machine().resume(supply@, fuel as nat).1,
            keeps_order(old(self).machine(), final(self).machine()),
    {
        self.vm.resume(supply, fuel)
    }
}

} // verus!
