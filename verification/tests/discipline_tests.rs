use rlox::error::LoxError;
use rlox::lox::Lox;
use rlox::scanner::Scanner;
use rlox::types::{Literal, TokenType};
use rlox::vm::{NumberOp, Pause, Request, Supply, VirtualMachine};

fn host(request: Request) -> Supply {
    match request {
        Request::Nothing => Supply::Nothing,
        Request::Display { number } => Supply::Text(f64::from_bits(number).to_string()),
        Request::Arithmetic { op, left, right } => {
            let left = f64::from_bits(left);
            let right = f64::from_bits(right);
            let result = match op {
                NumberOp::Add => left + right,
                NumberOp::Sub => left - right,
                NumberOp::Mul => left * right,
                NumberOp::Div => left / right,
                NumberOp::Mod => (left as i64).wrapping_rem(right as i64) as f64,
            };
            Supply::Number(result.to_bits())
        }
    }
}

/// Runs the program and tells, for every line it prints, the line, the
/// height of the stack behind the `print` and the number of frames.
fn heights_at_prints(source: &str) -> Vec<(String, usize, usize)> {
    let mut scanner = Scanner::new(source.to_string());
    assert!(scanner.scan_tokens().is_ok());
    let mut tokens = scanner.into_tokens();
    for token in tokens.iter_mut() {
        if token.token_type == TokenType::Number {
            let value: f64 = token.lexeme.parse().unwrap();
            token.literal = Some(Literal::Number(value.to_bits()));
        }
    }
    let program = Lox::compile(tokens).ok().expect("the program compiles");
    let mut vm = VirtualMachine::new(false);
    let mut seen = Vec::new();
    let mut state = vm.interpret(program.function, 1_000).expect("no error");
    for _ in 0..10_000 {
        state = match state {
            Pause::Halted => return seen,
            Pause::Output(line) => {
                seen.push((line, vm.stack_len(), vm.frame_count()));
                vm.run(1_000).expect("no error")
            }
            Pause::Needs(request) => vm.resume(host(request), 1_000).expect("no error"),
            Pause::Suspended => vm.run(1_000).expect("no error"),
        };
    }
    panic!("the program does not end");
}

fn seen(line: &str, height: usize, frames: usize) -> (String, usize, usize) {
    (line.to_string(), height, frames)
}

#[test]
fn at_the_top_of_a_program_the_stack_holds_the_program_alone() {
    let found = heights_at_prints("let a = 1; print a; a = a + 1; print a; print a * 2;");
    assert_eq!(found, vec![seen("1", 1, 1), seen("2", 1, 1), seen("4", 1, 1)]);
}

#[test]
fn in_a_block_the_stack_holds_the_locals_in_scope() {
    let found = heights_at_prints(
        "print 1; { let a = 2; print a; { let b = 3; print a + b; } print a; } print 4;",
    );
    assert_eq!(
        found,
        vec![seen("1", 1, 1), seen("2", 2, 1), seen("5", 3, 1), seen("2", 2, 1), seen("4", 1, 1)]
    );
}

#[test]
fn in_a_function_the_stack_holds_its_arguments_and_locals() {
    let found = heights_at_prints(
        "func f(x) { print x; let y = x + 1; print y; { let z = y; print z; } print x; } \
         { let a = 7; f(5); print a; } print 0;",
    );
    assert_eq!(
        found,
        vec![
            seen("5", 4, 2),
            seen("6", 5, 2),
            seen("6", 6, 2),
            seen("5", 5, 2),
            seen("7", 2, 1),
            seen("0", 1, 1),
        ]
    );
}

#[test]
fn loops_and_their_jumps_leave_the_stack_as_they_found_it() {
    let found = heights_at_prints(
        "{ let k = 0; \
           while (k < 3) { k = k + 1; let m = k; if (m == 2) { let n = m; continue; } print m; } \
           print k; \
           while (true) { let p = 1; { let q = 2; if (q == 2) break; } } \
           print k; } \
         print 9;",
    );
    assert_eq!(
        found,
        vec![
            seen("1", 3, 1),
            seen("3", 3, 1),
            seen("3", 2, 1),
            seen("3", 2, 1),
            seen("9", 1, 1),
        ]
    );
}

#[test]
fn both_ways_through_a_choice_leave_one_value() {
    let found = heights_at_prints(
        "{ let a = 1; print a == 1 ? 10 : 20; print a == 2 ? 10 : 20; \
           print a == 1 and a == 2; print a == 1 or a == 2; \
           if (a == 1) print 1; else print 2; if (a == 2) print 1; print a; }",
    );
    let heights: Vec<usize> = found.iter().map(|entry| entry.1).collect();
    assert_eq!(heights, vec![2, 2, 2, 2, 2, 2]);
    let lines: Vec<&str> = found.iter().map(|entry| entry.0.as_str()).collect();
    assert_eq!(lines, vec!["10", "20", "false", "true", "1", "1"]);
}

#[test]
fn a_break_outside_the_loops_of_its_function_takes_its_locals_away() {
    let source = "while (true) { func f(a) { break; print a; } f(1); break; }";
    let mut scanner = Scanner::new(source.to_string());
    assert!(scanner.scan_tokens().is_ok());
    let mut tokens = scanner.into_tokens();
    for token in tokens.iter_mut() {
        if token.token_type == TokenType::Number {
            let value: f64 = token.lexeme.parse().unwrap();
            token.literal = Some(Literal::Number(value.to_bits()));
        }
    }
    let program = Lox::compile(tokens).ok().expect("the program compiles");
    let mut vm = VirtualMachine::new(false);
    let mut state = vm.interpret(program.function, 1_000);
    for _ in 0..100 {
        state = match state {
            Ok(Pause::Needs(request)) => vm.resume(host(request), 1_000),
            Ok(Pause::Suspended) => vm.run(1_000),
            other => {
                state = other;
                break;
            }
        };
    }
    match state {
        Err(LoxError::UnexpectedError { message }) => {
            assert_eq!(message, "Local slot out of range.");
        }
        other => panic!("expected an internal error, found {:?}", other),
    }
    assert_eq!(vm.stack_len(), 0);
    assert_eq!(vm.frame_count(), 0);
}
