use rlox::chunk::Chunk;
use rlox::error::LoxError;
use rlox::globals::Globals;
use rlox::opcode::OpCode;
use rlox::types::{FuncType, Function, Literal};
use rlox::vm::{Effect, NumberOp, Pause, Request, Supply, VirtualMachine};
use std::rc::Rc;

fn number(value: f64) -> Literal {
    Literal::Number(value.to_bits())
}

fn function(name: &str, arity: usize, func_type: FuncType, codes: Vec<OpCode>) -> Function {
    let mut chunk = Chunk::new();
    for (at, code) in codes.into_iter().enumerate() {
        chunk.write(code, (1, at));
    }
    Function::new(name.to_string(), chunk, arity, func_type)
}

fn program(codes: Vec<OpCode>) -> Function {
    function("__main__", 0, FuncType::Main, codes)
}

fn answer(request: Request) -> Supply {
    match request {
        Request::Nothing => Supply::Nothing,
        Request::Display { number } => Supply::Text(f64::from_bits(number).to_string()),
        Request::Arithmetic { op, left, right } => {
            let left = f64::from_bits(left);
            let right = f64::from_bits(right);
            Supply::Number(
                match op {
                    NumberOp::Add => left + right,
                    NumberOp::Sub => left - right,
                    NumberOp::Mul => left * right,
                    NumberOp::Div => left / right,
                    NumberOp::Mod => (left as i64).wrapping_rem(right as i64) as f64,
                }
                .to_bits(),
            )
        }
    }
}

fn run(codes: Vec<OpCode>) -> (Vec<String>, Option<LoxError>) {
    let mut vm = VirtualMachine::new(false);
    let mut lines = Vec::new();
    let mut state = vm.interpret(program(codes), 1000);
    for _ in 0..10_000 {
        state = match state {
            Ok(Pause::Halted) => return (lines, None),
            Ok(Pause::Output(line)) => {
                lines.push(line);
                vm.run(1000)
            }
            Ok(Pause::Needs(request)) => vm.resume(answer(request), 1000),
            Ok(Pause::Suspended) => vm.run(1000),
            Err(error) => return (lines, Some(error)),
        };
    }
    panic!("the program does not end");
}

#[test]
fn arithmetic_is_asked_of_the_host() {
    let mut vm = VirtualMachine::new(false);
    let state = vm.interpret(
        program(vec![OpCode::Load(number(1.0)), OpCode::Load(number(2.0)), OpCode::Add, OpCode::Print]),
        10,
    );
    let request = match state {
        Ok(Pause::Needs(request)) => request,
        other => panic!("unexpected state: {:?}", other),
    };
    assert_eq!(
        request,
        Request::Arithmetic { op: NumberOp::Add, left: 1f64.to_bits(), right: 2f64.to_bits() }
    );
    assert_eq!(vm.request(), request);
    let state = vm.resume(Supply::Number(3f64.to_bits()), 10);
    match state {
        Ok(Pause::Needs(Request::Display { number })) => assert_eq!(number, 3f64.to_bits()),
        other => panic!("unexpected state: {:?}", other),
    }
    match vm.resume(Supply::Text("3".to_string()), 10) {
        Ok(Pause::Output(line)) => assert_eq!(line, "3"),
        other => panic!("unexpected state: {:?}", other),
    }
    assert!(matches!(vm.run(10), Ok(Pause::Halted)));
}

#[test]
fn a_wrong_answer_is_an_internal_error() {
    let mut vm = VirtualMachine::new(false);
    let state = vm.interpret(
        program(vec![OpCode::Load(number(1.0)), OpCode::Load(number(2.0)), OpCode::Mul]),
        10,
    );
    assert!(matches!(state, Ok(Pause::Needs(_))));
    match vm.step(Supply::Text("3".to_string())) {
        Err(LoxError::UnexpectedError { message }) => {
            assert_eq!(message, "The number that was asked for was not supplied.")
        }
        other => panic!("unexpected result: {:?}", other),
    }
    assert!(matches!(vm.step(Supply::Nothing), Ok(Effect::Halt)));
}

#[test]
fn comparison_negation_and_equality_need_no_host() {
    let (lines, error) = run(vec![
        OpCode::Load(number(1.0)),
        OpCode::Load(number(2.0)),
        OpCode::Less,
        OpCode::Print,
        OpCode::Load(number(1.0)),
        OpCode::Load(number(2.0)),
        OpCode::Greater,
        OpCode::Print,
        OpCode::Load(number(0.0)),
        OpCode::Negate,
        OpCode::Load(number(0.0)),
        OpCode::Eq,
        OpCode::Print,
        OpCode::Load(Literal::Nil),
        OpCode::Not,
        OpCode::Print,
    ]);
    assert!(error.is_none());
    assert_eq!(lines, vec!["true", "false", "true", "true"]);
}

#[test]
fn fuel_bounds_the_instructions_of_one_run() {
    let mut vm = VirtualMachine::new(false);
    let state = vm.interpret(program(vec![OpCode::Load(Literal::Nil), OpCode::JumpForward(2)]), 7);
    assert!(matches!(state, Ok(Pause::Suspended)));
    assert!(matches!(vm.run(0), Ok(Pause::Suspended)));
    assert!(matches!(vm.run(3), Ok(Pause::Suspended)));
}

#[test]
fn code_that_runs_off_its_end_halts() {
    let (lines, error) = run(vec![OpCode::Load(Literal::Bool(true)), OpCode::Print]);
    assert!(error.is_none());
    assert_eq!(lines, vec!["true"]);
}

#[test]
fn jumps_look_at_the_top_without_taking_it() {
    let (lines, error) = run(vec![
        OpCode::Load(Literal::Bool(false)),
        OpCode::JumpIfFalse(2),
        OpCode::Load(Literal::String("skipped".to_string())),
        OpCode::Print,
        OpCode::Print,
        OpCode::Load(Literal::Bool(false)),
        OpCode::JumpIfTrue(1),
        OpCode::Print,
        OpCode::Jump(1),
        OpCode::Print,
        OpCode::Load(Literal::Nil),
        OpCode::Return,
    ]);
    assert!(error.is_none());
    assert_eq!(lines, vec!["false", "false"]);
}

#[test]
fn a_call_enters_the_callee_and_return_restores_the_caller() {
    let callee = Rc::new(function(
        "f",
        2,
        FuncType::Normal,
        vec![OpCode::GetLocal(1), OpCode::GetLocal(2), OpCode::Less, OpCode::Return],
    ));
    let mut vm = VirtualMachine::new(false);
    let state = vm.interpret(
        program(vec![
            OpCode::Load(Literal::String("below".to_string())),
            OpCode::Load(Literal::Function(callee)),
            OpCode::Load(number(1.0)),
            OpCode::Load(number(2.0)),
            OpCode::Call(2),
            OpCode::Print,
            OpCode::Print,
            OpCode::Load(Literal::Nil),
            OpCode::Return,
        ]),
        4,
    );
    assert!(matches!(state, Ok(Pause::Suspended)));
    assert_eq!(vm.stack_len(), 5);
    assert_eq!(vm.frame_count(), 1);
    assert!(matches!(vm.step(Supply::Nothing), Ok(Effect::Continue)));
    assert_eq!(vm.stack_len(), 5);
    assert_eq!(vm.frame_count(), 2);
    assert!(matches!(vm.run(3), Ok(Pause::Suspended)));
    assert_eq!(vm.stack_len(), 6);
    assert!(matches!(vm.step(Supply::Nothing), Ok(Effect::Continue)));
    assert_eq!(vm.frame_count(), 1);
    assert_eq!(vm.stack_len(), 5 - 2);
    match vm.run(10) {
        Ok(Pause::Output(line)) => assert_eq!(line, "true"),
        other => panic!("unexpected state: {:?}", other),
    }
    match vm.run(10) {
        Ok(Pause::Output(line)) => assert_eq!(line, "below"),
        other => panic!("unexpected state: {:?}", other),
    }
    assert!(matches!(vm.run(10), Ok(Pause::Halted)));
    assert_eq!(vm.stack_len(), 0);
    assert_eq!(vm.frame_count(), 0);
}

#[test]
fn a_call_checks_the_arity() {
    let callee = Rc::new(function("f", 1, FuncType::Normal, vec![OpCode::Load(Literal::Nil), OpCode::Return]));
    let (_, error) = run(vec![OpCode::Load(Literal::Function(callee)), OpCode::Call(0)]);
    match error {
        Some(LoxError::RuntimeError { position, lexeme, msg }) => {
            assert_eq!(position, (1, 1));
            assert_eq!(lexeme, "f");
            assert_eq!(msg, "Expect 1 arguments but got 0.");
        }
        other => panic!("unexpected error: {:?}", other),
    }
}

#[test]
fn errors_in_functions_without_a_name_say_so() {
    let inner = Rc::new(function("$-1", 0, FuncType::Lambda, vec![OpCode::GetGlobal("x".to_string())]));
    let outer = Rc::new(function(
        "$-2",
        0,
        FuncType::Lambda,
        vec![OpCode::Load(Literal::Function(inner)), OpCode::Call(0), OpCode::Return],
    ));
    let (_, error) = run(vec![OpCode::Load(Literal::Function(outer)), OpCode::Call(0), OpCode::Pop]);
    match error {
        Some(LoxError::RuntimeError { msg, .. }) => assert_eq!(
            msg,
            "Undefined variable `x`.\n[ 1, 2] Error in Lambda\n[ 1, 2] Error in function `__main__`"
        ),
        other => panic!("unexpected error: {:?}", other),
    }
}

#[test]
fn what_compiled_code_never_does_is_an_internal_error() {
    for (codes, wanted) in [
        (vec![OpCode::Pop, OpCode::Negate], "Stack underflow."),
        (vec![OpCode::Pop, OpCode::Print], "Stack underflow."),
        (vec![OpCode::Pop, OpCode::Not], "Stack underflow."),
        (vec![OpCode::Add], "Stack underflow."),
        (vec![OpCode::Eq], "Stack underflow."),
        (vec![OpCode::Less], "Stack underflow."),
        (vec![OpCode::Call(3)], "Stack underflow."),
        (vec![OpCode::Pop, OpCode::Return], "Stack underflow."),
        (vec![OpCode::Pop, OpCode::DefineGlobal("a".to_string())], "Stack underflow."),
        (vec![OpCode::Pop, OpCode::JumpIfTrue(0)], "Stack underflow."),
        (vec![OpCode::GetLocal(5)], "Local slot out of range."),
        (vec![OpCode::Load(Literal::Nil), OpCode::SetLocal(5)], "Local slot out of range."),
        (vec![OpCode::JumpForward(9)], "Jump out of range."),
        (vec![OpCode::Jump(usize::MAX)], "Jump out of range."),
    ] {
        match run(codes).1 {
            Some(LoxError::UnexpectedError { message }) => assert_eq!(message, wanted),
            other => panic!("unexpected error: {:?}", other),
        }
    }
}

#[test]
fn pop_on_an_empty_stack_does_nothing() {
    let mut vm = VirtualMachine::new(false);
    assert!(matches!(vm.step(Supply::Nothing), Ok(Effect::Halt)));
    let state = vm.interpret(program(vec![OpCode::Pop, OpCode::Pop, OpCode::Load(Literal::Nil)]), 2);
    assert!(matches!(state, Ok(Pause::Suspended)));
    assert_eq!(vm.stack_len(), 0);
}

#[test]
fn globals_are_defined_read_and_written() {
    let (lines, error) = run(vec![
        OpCode::Load(Literal::String("one".to_string())),
        OpCode::DefineGlobal("a".to_string()),
        OpCode::Load(Literal::String("two".to_string())),
        OpCode::SetGlobal("a".to_string()),
        OpCode::Pop,
        OpCode::GetGlobal("a".to_string()),
        OpCode::Print,
        OpCode::Load(Literal::String("three".to_string())),
        OpCode::DefineGlobal("a".to_string()),
        OpCode::GetGlobal("a".to_string()),
        OpCode::Print,
    ]);
    assert!(error.is_none());
    assert_eq!(lines, vec!["two", "three"]);
}

#[test]
fn chunks_keep_instructions_and_positions_together() {
    let mut chunk = Chunk::new();
    assert_eq!(chunk.len(), 0);
    assert_eq!(chunk.write(OpCode::Pop, (3, 4)), 0);
    assert_eq!(chunk.write(OpCode::Return, (5, 6)), 1);
    assert_eq!(chunk.len(), 2);
    assert!(matches!(chunk.get(0), Some(OpCode::Pop)));
    assert!(matches!(chunk.get(1), Some(OpCode::Return)));
    assert!(chunk.get(2).is_none());
    assert_eq!(chunk.get_position(1), Some((5, 6)));
    assert_eq!(chunk.get_position(2), None);
    assert!(matches!(chunk.get_with_position(0), Some((OpCode::Pop, (3, 4)))));
    assert!(chunk.get_with_position(2).is_none());
}

#[test]
fn the_table_of_globals_binds_names_to_values() {
    let mut globals = Globals::new();
    let a = "a".to_string();
    let b = "b".to_string();
    assert!(!globals.contains_key(&a));
    assert!(globals.get(&a).is_none());
    globals.insert(a.clone(), number(1.0));
    globals.insert(b.clone(), Literal::Bool(true));
    assert!(globals.contains_key(&a) && globals.contains_key(&b));
    assert!(matches!(globals.get(&a), Some(Literal::Number(bits)) if *bits == 1f64.to_bits()));
    globals.insert(a.clone(), Literal::Nil);
    assert!(matches!(globals.get(&a), Some(Literal::Nil)));
    assert!(matches!(globals.get(&b), Some(Literal::Bool(true))));
    assert!(!globals.contains_key(&"c".to_string()));
}
