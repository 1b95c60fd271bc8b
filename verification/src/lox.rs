//! The driver: the phases strung together, the lines in which errors are
//! reported, and the machine that lives on from one input to the next.

use vstd::prelude::*;
use vstd::string::*;
use crate::bytecode::{function_view, FunctionView};
use crate::convertor::{any_has_return, ends_with_nil_return, has_return, jumps_on_code};
use crate::convertor::{sound, Convertor};
use crate::emitter::c_program;
use crate::error::{error_views, ErrorView, LoxError, Position};
use crate::grammar::{g_program, normalized, Parse};
use crate::heights::{disciplined, lemma_program_in_step, tidy_stmts};
use crate::emitter::Emitter;
use crate::running::{
    at_place, between, in_order, keeps_order, labels_valid, lemma_program_leaves_nothing,
    starts_in_order,
};
use crate::vm::Machine;
use crate::shape::{lemma_program_is_shaped, lemma_tidy_stmts, looped_stmts};
use crate::parser::Parser;
use crate::resolver::{check_expr, check_stmt, check_stmts, name_views, unused, Context, Findings};
use crate::resolver::{lemma_check_expr_keeps_errors, lemma_check_stmt_keeps_errors};
use crate::resolver::{lemma_check_stmts_keeps_errors, Resolver};
use crate::stmt::{lemma_stmt_views_len, stmt_views, StmtView};
use crate::text::{decimal_width2, usize_to_string_width2};
use crate::token::{token_views, Token, TokenView};
use crate::types::{ClassType, FuncType, Function, TokenType};
use crate::vm::{pause_view, started, Pause, PauseView, Supply, VirtualMachine};

verus! {

/// A program ready to run, and the names of the variables that the source
/// declares and never reads.
pub struct Program {
    pub function: Function,
    pub unused: Vec<String>,
}

pub struct Lox {
    vm: VirtualMachine,
    failed: bool,
}

/// The place of an error as it is written in front of a report: line and
/// column, each filling two columns, or a row of dashes for an error that
/// has no place in the source.
pub open spec fn place_text(position: Position) -> Seq<char> {
    if position.0 == 0 && position.1 == 0 {
        "[----------------]"@
    } else {
        "["@ + decimal_width2(position.0 as nat) + ", "@ + decimal_width2(position.1 as nat)
            + "]"@
    }
}

/// The line that reports an error: its place, the word `LoxError`, what it
/// stands at if that is known, and the message.
pub open spec fn report_line(position: Position, err_pos: Seq<char>, msg: Seq<char>) -> Seq<char> {
    if err_pos.len() == 0 {
        place_text(position) + " LoxError: "@ + msg
    } else {
        place_text(position) + " LoxError "@ + err_pos + ": "@ + msg
    }
}

/// What an error stands at: a token by its text, or the end of the input.
pub open spec fn standing_at(lexeme: Seq<char>, at_end: bool) -> Seq<char> {
    if at_end {
        "at end"@
    } else {
        "at '"@ + lexeme + "'"@
    }
}

/// The line that reports `error`.
pub open spec fn diagnostic(error: ErrorView) -> Seq<char> {
    match error {
        ErrorView::Parse { position, lexeme, token_type, msg } => report_line(
            position,
            standing_at(lexeme, token_type == TokenType::Eof),
            msg,
        ),
        ErrorView::Runtime { position, lexeme, msg } => report_line(
            position,
            standing_at(lexeme, false),
            msg,
        ),
        ErrorView::Io { msg } => report_line((0, 0), Seq::empty(), msg),
        ErrorView::ParseToken { position, msg } => report_line(position, Seq::empty(), msg),
        ErrorView::Unexpected { message } => report_line((0, 0), Seq::empty(), message),
    }
}

/// The statements and the errors that the grammar makes of the tokens.
pub open spec fn parsed(tokens: Seq<TokenView>) -> Parse {
    g_program(tokens, 0, Parse { statements: Seq::empty(), errors: Seq::empty() })
}

/// What the static checks find in a program.
pub open spec fn checked(statements: Seq<StmtView>) -> Findings {
    check_stmts(
        statements,
        statements.len() as int,
        Context {
            function_type: FuncType::Main,
            class_type: ClassType::Outside,
            is_in_while: false,
        },
        Findings { table: Seq::empty(), errors: Seq::empty() },
    )
}

/// What a program compiles to: its code and the names of the variables
/// that it declares and never reads.
pub struct Compiled {
    pub function: FunctionView,
    pub unused: Seq<Seq<char>>,
}

/// What the tokens compile to, or the errors of the first phase that fails
/// on them: the errors of the grammar, or those of the static checks, or
/// the one error at which the compiler stops.
pub open spec fn compiled(tokens: Seq<TokenView>) -> Result<Compiled, Seq<ErrorView>> {
    let tree = parsed(tokens);
    let findings = checked(tree.statements);
    if tree.errors.len() > 0 {
        Err(tree.errors)
    } else if findings.errors.len() > 0 {
        Err(findings.errors)
    } else {
        match c_program(tree.statements) {
            Err(error) => Err(seq![error]),
            Ok(function) => Ok(
                Compiled { function, unused: unused(findings.table, findings.table.len() as int) },
            ),
        }
    }
}

/// Whether `res` is what compiling the tokens gives.
pub open spec fn compile_outcome(tokens: Seq<TokenView>, res: Result<Program, Vec<LoxError>>) -> bool {
    match compiled(tokens) {
        Ok(wanted) => res matches Ok(program) && wanted == (Compiled {
            function: function_view(program.function),
            unused: name_views(program.unused@),
        }),
        Err(errors) => res matches Err(found) && error_views(found@) == errors,
    }
}

/// Whether the statements that the grammar makes of the tokens are tidy.
pub open spec fn tidy_program(tokens: Seq<TokenView>) -> bool {
    tidy_stmts(parsed(tokens).statements, parsed(tokens).statements.len() as int, false)
}

/// Whether, in the statements that the grammar makes of the tokens, every
/// `break` and `continue` stands in a loop of the function that holds it.
pub open spec fn jumps_stand_in_loops(tokens: Seq<TokenView>) -> bool {
    looped_stmts(parsed(tokens).statements, parsed(tokens).statements.len() as int, false)
}

/// What the grammar makes of tokens in which every `break` and `continue`
/// stands in a loop of its function is tidy.
pub proof fn lemma_grammar_is_tidy(tokens: Seq<TokenView>)
    requires
        jumps_stand_in_loops(tokens),
    ensures
        tidy_program(tokens),
{
    lemma_program_is_shaped(tokens, 0, Parse { statements: Seq::empty(), errors: Seq::empty() });
    lemma_tidy_stmts(parsed(tokens).statements, parsed(tokens).statements.len() as int, false);
}

/// The program that tidy statements compile to is disciplined: its code
/// is in step with the stack, and so is the code of every function in it.
pub proof fn lemma_tidy_program_is_disciplined(tokens: Seq<TokenView>)
    requires
        compiled(tokens) is Ok,
        tidy_program(tokens),
    ensures
        disciplined(compiled(tokens)->Ok_0.function),
        compiled(tokens)->Ok_0.function.func_type == FuncType::Main,
{
    lemma_program_in_step(parsed(tokens).statements);
}

/// While a program runs in a machine in order, the stack of the program
/// is empty between any two of its statements, in front of the first and
/// behind the last: every statement has left the stack as it found it.
/// In front of and behind every statement that one of them holds, the
/// stack is as high as there are locals in scope at that place. This
/// holds of every program that compiles and in which every `break` and
/// `continue` stands in a loop of the function that holds it. The heights
/// under which the machine is in order are returned; they are valid.
pub proof fn lemma_statements_leave_nothing(tokens: Seq<TokenView>) -> (labels: spec_fn(
    FunctionView,
) -> Seq<int>)
    requires
        compiled(tokens) is Ok,
        jumps_stand_in_loops(tokens),
    ensures
        labels_valid(labels),
        forall|machine: Machine, n: int|
            in_order(machine, labels) && #[trigger] between(
                machine,
                compiled(tokens)->Ok_0.function,
                parsed(tokens).statements,
                n,
                Emitter::started("__main__"@, FuncType::Main, 0),
            ) ==> machine.stack.len() == machine.frames.last().slot,
        forall|machine: Machine, locals: int|
            in_order(machine, labels) && #[trigger] at_place(
                machine,
                compiled(tokens)->Ok_0.function,
                parsed(tokens).statements,
                Emitter::started("__main__"@, FuncType::Main, 0),
                locals,
            ) ==> machine.stack.len() == machine.frames.last().slot + locals,
{
    lemma_grammar_is_tidy(tokens);
    lemma_program_leaves_nothing(parsed(tokens).statements)
}

/// Determinism. Whatever compiling the same tokens gives, it gives every
/// time: the same code, instruction for instruction and position for
/// position, and the same unused variables; or the same errors.
pub proof fn lemma_compile_is_determined(
    tokens: Seq<TokenView>,
    first: Result<Program, Vec<LoxError>>,
    second: Result<Program, Vec<LoxError>>,
)
    requires
        compile_outcome(tokens, first),
        compile_outcome(tokens, second),
    ensures
        match (first, second) {
            (Ok(a), Ok(b)) => function_view(a.function) == function_view(b.function)
                && name_views(a.unused@) == name_views(b.unused@),
            (Err(a), Err(b)) => error_views(a@) == error_views(b@),
            _ => false,
        },
{
}

/// A `return` statement outside every function is found by the static
/// checks.
pub proof fn lemma_return_is_found(stmt: StmtView, context: Context, found: Findings)
    requires
        context.function_type == FuncType::Main,
        has_return(stmt),
    ensures
        check_stmt(stmt, context, found).errors.len() > found.errors.len(),
    decreases stmt, 0nat,
{
    match stmt {
        StmtView::MultiVar { vars } => {
            lemma_any_return_is_found(vars, vars.len() as int, context, found);
        },
        StmtView::Block { statements } => {
            lemma_any_return_is_found(statements, statements.len() as int, context, found);
        },
        StmtView::Branch { condition, then_branch, else_branch } => {
            lemma_check_expr_keeps_errors(condition, context, found);
            let first = check_expr(condition, context, found);
            lemma_check_stmt_keeps_errors(*then_branch, context, first);
            let second = check_stmt(*then_branch, context, first);
            if has_return(*then_branch) {
                lemma_return_is_found(*then_branch, context, first);
            }
            match else_branch {
                Some(else_branch) => {
                    lemma_check_stmt_keeps_errors(*else_branch, context, second);
                    if has_return(*else_branch) {
                        lemma_return_is_found(*else_branch, context, second);
                    }
                },
                None => {},
            }
        },
        StmtView::While { condition, body, increment } => {
            lemma_check_expr_keeps_errors(condition, context, found);
            let first = check_expr(condition, context, found);
            lemma_check_stmt_keeps_errors(*body, context.in_loop(true), first);
            let second = check_stmt(*body, context.in_loop(true), first);
            if has_return(*body) {
                lemma_return_is_found(*body, context.in_loop(true), first);
            }
            match increment {
                Some(increment) => {
                    lemma_check_stmt_keeps_errors(*increment, context, second);
                    if has_return(*increment) {
                        lemma_return_is_found(*increment, context, second);
                    }
                },
                None => {},
            }
        },
        _ => {},
    }
}

/// A `return` statement outside every function, in one of the first `n`
/// statements, is found by the static checks. So a program in which they
/// find no error has none, and its code ends by returning `nil`, every jump
/// in it leading to an instruction.
pub proof fn lemma_any_return_is_found(
    stmts: Seq<StmtView>,
    n: int,
    context: Context,
    found: Findings,
)
    requires
        context.function_type == FuncType::Main,
        any_has_return(stmts, n),
    ensures
        check_stmts(stmts, n, context, found).errors.len() > found.errors.len(),
    decreases stmts, n,
{
    if 0 < n <= stmts.len() {
        lemma_check_stmts_keeps_errors(stmts, n - 1, context, found);
        let before = check_stmts(stmts, n - 1, context, found);
        lemma_check_stmt_keeps_errors(stmts[n - 1], context, before);
        if any_has_return(stmts, n - 1) {
            lemma_any_return_is_found(stmts, n - 1, context, found);
        } else {
            lemma_return_is_found(stmts[n - 1], context, before);
        }
    }
}

/// The result of a run as the machine gives it: the first of the errors
/// stands for them all.
pub open spec fn alone(res: Result<Pause, Vec<LoxError>>) -> Result<PauseView, ErrorView> {
    match res {
        Ok(pause) => Ok(pause@),
        Err(errors) => Err(errors@[0]@),
    }
}

fn standing(lexeme: &str, at_end: bool) -> (res: String)
    ensures
        res@ == standing_at(lexeme@, at_end),
{
    if at_end {
        String::from_str("at end")
    } else {
        String::from_str("at '").concat(lexeme).concat("'")
    }
}

impl Lox {
    /// The machine of this driver.
    pub closed spec fn machine(&self) -> crate::vm::Machine {
        self.vm@
    }

    /// Whether an error has been noted since the flag was last cleared.
    pub closed spec fn failed(&self) -> bool {
        self.failed
    }

    pub closed spec fn wf(&self) -> bool {
        self.vm.wf()
    }

    /// A driver with a fresh machine. `is_repl` says whether the program
    /// comes from the interactive prompt.
    pub fn new(is_repl: bool) -> (res: Self)
        ensures
            res.wf(),
            !res.failed(),
            res.machine() == (crate::vm::Machine {
                stack: Seq::empty(),
                globals: Map::empty(),
                frames: Seq::empty(),
                is_repl,
            }),
            forall|labels: spec_fn(FunctionView) -> Seq<int>|
                #[trigger] in_order(res.machine(), labels),
    {
        Lox { vm: VirtualMachine::new(is_repl), failed: false }
    }

    pub fn is_error(&self) -> (res: bool)
        ensures
            res == self.failed(),
    {
        self.failed
    }

    /// Clears the error flag.
    pub fn no_error(&mut self)
        ensures
            !final(self).failed(),
            final(self).machine() == old(self).machine(),
            old(self).wf() ==> final(self).wf(),
    {
        self.failed = false;
    }

    /// Sets the error flag.
    pub fn had_error(&mut self)
        ensures
            final(self).failed(),
            final(self).machine() == old(self).machine(),
            old(self).wf() ==> final(self).wf(),
    {
        self.failed = true;
    }

    /// The line that reports an error at `position` with the message `msg`;
    /// `err_pos` says what the error stands at and may be empty.
    pub fn report(position: Position, err_pos: &str, msg: &str) -> (res: String)
        ensures
            res@ == report_line(position, err_pos@, msg@),
    {
        let mut line = if position.0 == 0 && position.1 == 0 {
            String::from_str("[----------------]")
        } else {
            let mut place = String::from_str("[");
            place.append(usize_to_string_width2(position.0).as_str());
            place.append(", ");
            place.append(usize_to_string_width2(position.1).as_str());
            place.append("]");
            place
        };
        if err_pos.unicode_len() == 0 {
            line.append(" LoxError: ");
            line.append(msg);
        } else {
            line.append(" LoxError ");
            line.append(err_pos);
            line.append(": ");
            line.append(msg);
        }
        line
    }

    /// The line that reports an error with the message `msg` at `token`.
    pub fn token_error(token: &Token, msg: &str) -> (res: String)
        ensures
            res@ == report_line(
                token.position,
                standing_at(token.lexeme@, token.token_type == TokenType::Eof),
                msg@,
            ),
    {
        let at_end = match token.token_type {
            TokenType::Eof => true,
            _ => false,
        };
        let at = standing(token.lexeme.as_str(), at_end);
        Self::report(token.position, at.as_str(), msg)
    }

    /// The line that reports `error`.
    pub fn error(error: &LoxError) -> (res: String)
        ensures
            res@ == diagnostic(error@),
    {
        match error {
            LoxError::ParseError { position, lexeme, token_type, msg } => {
                let at_end = match token_type {
                    TokenType::Eof => true,
                    _ => false,
                };
                let at = standing(lexeme.as_str(), at_end);
                Self::report(*position, at.as_str(), msg.as_str())
            },
            LoxError::RuntimeError { position, lexeme, msg } => {
                let at = standing(lexeme.as_str(), false);
                Self::report(*position, at.as_str(), msg.as_str())
            },
            LoxError::IoError { msg } => {
                let none = String::new();
                Self::report((0, 0), none.as_str(), msg.as_str())
            },
            LoxError::ParseTokenError { position, msg } => {
                let none = String::new();
                Self::report(*position, none.as_str(), msg)
            },
            LoxError::UnexpectedError { message } => {
                let none = String::new();
                Self::report((0, 0), none.as_str(), message.as_str())
            },
        }
    }

    /// Parses, checks and compiles a program: the result is what the
    /// tokens compile to, or every error of the first phase that fails; the
    /// later phases are not entered. The code of a program that compiles is
    /// sound; it ends by returning `nil`, and every jump in it leads to an
    /// instruction. Where every `break` and `continue` stands in a loop of
    /// the function that holds it, the program is disciplined.
    pub fn compile(tokens: Vec<Token>) -> (res: Result<Program, Vec<LoxError>>)
        ensures
            compile_outcome(normalized(token_views(tokens@)), res),
            res matches Err(errors) ==> errors@.len() >= 1,
            res matches Ok(program) ==> sound(program.function) && program.function.name@
                == "__main__"@ && program.function.func_type == FuncType::Main
                && ends_with_nil_return(program.function.chunk.codes@) && jumps_on_code(
                program.function.chunk.codes@,
            ),
            res matches Ok(program) ==> (jumps_stand_in_loops(normalized(token_views(tokens@)))
                ==> disciplined(function_view(program.function))),
    {
        let mut parser = Parser::new(tokens);
        let statements = parser.parse()?;
        proof {
            lemma_stmt_views_len(statements@, statements@.len() as int);
        }
        let mut resolver = Resolver::new();
        resolver.resolve(&statements)?;
        let unused = resolver.unused_variables();
        proof {
            let tree = stmt_views(statements@, statements@.len() as int);
            if any_has_return(tree, tree.len() as int) {
                lemma_any_return_is_found(
                    tree,
                    tree.len() as int,
                    Context {
                        function_type: FuncType::Main,
                        class_type: ClassType::Outside,
                        is_in_while: false,
                    },
                    Findings { table: Seq::empty(), errors: Seq::empty() },
                );
            }
        }
        let convertor = Convertor::new("__main__", FuncType::Main);
        match convertor.convert(&statements) {
            Ok(function) => {
                proof {
                    if jumps_stand_in_loops(normalized(token_views(tokens@))) {
                        lemma_grammar_is_tidy(normalized(token_views(tokens@)));
                        lemma_tidy_program_is_disciplined(normalized(token_views(tokens@)));
                    }
                }
                Ok(Program { function, unused })
            },
            Err(error) => {
                let mut errors: Vec<LoxError> = Vec::new();
                errors.push(error);
                assert(error_views(errors@) =~= seq![error@]);
                Err(errors)
            },
        }
    }

    /// Starts a compiled program on the machine of this driver, as
    /// `VirtualMachine::interpret` does. An error sets the error flag.
    pub fn start(&mut self, function: Function, fuel: u64) -> (res: Result<Pause, LoxError>)
        requires
            old(self).wf(),
        ensures
            final(self).wf(),
            final(self).failed() == (old(self).failed() || res is Err),
            final(self).machine() == old(self).machine().loaded(function).run(fuel as nat).0,
            pause_view(res) == old(self).machine().loaded(function).run(fuel as nat).1,
            starts_in_order(old(self).machine(), function, final(self).machine()),
    {
        let result = self.vm.interpret(function, fuel);
        if result.is_err() {
            self.failed = true;
        }
        result
    }

    /// Compiles a program and starts it on the machine of this driver.
    /// Where the tokens do not compile, the errors are returned and the
    /// machine is left as it was; an error of the running program is
    /// returned alone. An error sets the error flag. A machine without
    /// frames that is in order stays in order, where every `break` and
    /// `continue` of the program stands in a loop of its function.
    pub fn run(&mut self, tokens: Vec<Token>, fuel: u64) -> (res: Result<Pause, Vec<LoxError>>)
        requires
            old(self).wf(),
        ensures
            final(self).wf(),
            final(self).failed() == (old(self).failed() || res is Err),
            res matches Err(errors) ==> errors@.len() >= 1,
            match compiled(normalized(token_views(tokens@))) {
                Err(errors) => res matches Err(found) && error_views(found@) == errors
                    && final(self).machine() == old(self).machine(),
                Ok(wanted) => exists|function: Function|
                    function_view(function) == wanted.function && #[trigger] started(
                        old(self).machine(),
                        function,
                        fuel as nat,
                        final(self).machine(),
                        alone(res),
                    ),
            },
            jumps_stand_in_loops(normalized(token_views(tokens@))) && old(
                self,
            ).machine().frames.len() == 0 ==> keeps_order(
                old(self).machine(),
                final(self).machine(),
            ),
    {
        match Self::compile(tokens) {
            Ok(program) => {
                let function = program.function;
                match self.start(function, fuel) {
                    Ok(pause) => {
                        let res = Ok(pause);
                        assert(started(
                            old(self).machine(),
                            function,
                            fuel as nat,
                            self.machine(),
                            alone(res),
                        ));
                        res
                    },
                    Err(error) => {
                        let mut errors: Vec<LoxError> = Vec::new();
                        errors.push(error);
                        let res = Err(errors);
                        assert(started(
                            old(self).machine(),
                            function,
                            fuel as nat,
                            self.machine(),
                            alone(res),
                        ));
                        res
                    },
                }
            },
            Err(errors) => {
                self.failed = true;
                Err(errors)
            },
        }
    }

    /// Goes on with a program that has paused without asking for anything,
    /// as `VirtualMachine::run` does. An error sets the error flag.
    pub fn proceed(&mut self, fuel: u64) -> (res: Result<Pause, LoxError>)
        requires
            old(self).wf(),
        ensures
            final(self).wf(),
            final(self).machine() == old(self).machine().run(fuel as nat).0,
            pause_view(res) == old(self).machine().run(fuel as nat).1,
            final(self).failed() == (old(self).failed() || res is Err),
            keeps_order(old(self).machine(), final(self).machine()),
    {
        let result = self.vm.run(fuel);
        if result.is_err() {
            self.failed = true;
        }
        result
    }

    /// Goes on with a program that has paused, as `VirtualMachine::resume`
    /// does. An error sets the error flag.
    pub fn resume(&mut self, supply: Supply, fuel: u64) -> (res: Result<Pause, LoxError>)
        requires
            old(self).wf(),
        ensures
            final(self).wf(),
            final(self).machine() == old(self).machine().resume(supply@, fuel as nat).0,
            pause_view(res) == old(self).machine().resume(supply@, fuel as nat).1,
            final(self).failed() == (old(self).failed() || res is Err),
            keeps_order(old(self).machine(), final(self).machine()),
    {
        let result = self.vm.resume(supply, fuel);
        if result.is_err() {
            self.failed = true;
        }
        result
    }
}

} // verus!
