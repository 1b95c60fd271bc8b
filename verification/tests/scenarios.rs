use rlox::error::LoxError;
use rlox::lox::Lox;
use rlox::scanner::Scanner;
use rlox::token::Token;
use rlox::types::{Literal, TokenType};
use rlox::vm::{NumberOp, Pause, Request, Supply};

const FUEL: u64 = 100_000;

fn scan(source: &str) -> (Vec<Token>, Vec<LoxError>) {
    let mut scanner = Scanner::new(source.to_string());
    let errors = match scanner.scan_tokens() {
        Ok(()) => Vec::new(),
        Err(errors) => errors,
    };
    let mut tokens = scanner.into_tokens();
    for token in tokens.iter_mut() {
        if token.token_type == TokenType::Number {
            let value: f64 = token.lexeme.parse().unwrap();
            token.literal = Some(Literal::Number(value.to_bits()));
        }
    }
    (tokens, errors)
}

fn answer(request: Request) -> Supply {
    match request {
        Request::Nothing => Supply::Nothing,
        Request::Display { number } => Supply::Text(f64::from_bits(number).to_string()),
        Request::Arithmetic { op, left, right } => {
            let left = f64::from_bits(left);
            let right = f64::from_bits(right);
            let result = match op {
                NumberOp::Add => left + right,
                NumberOp::Sub => left - right,
                NumberOp::Mul => left * right,
                NumberOp::Div => left / right,
                NumberOp::Mod => (left as i64).wrapping_rem(right as i64) as f64,
            };
            Supply::Number(result.to_bits())
        }
    }
}

fn drive(lox: &mut Lox, source: &str) -> (Vec<String>, Vec<LoxError>) {
    let (tokens, mut errors) = scan(source);
    let mut lines = Vec::new();
    if !errors.is_empty() {
        return (lines, errors);
    }
    let mut state = match lox.run(tokens, FUEL) {
        Ok(pause) => pause,
        Err(found) => {
            errors.extend(found);
            return (lines, errors);
        }
    };
    let mut rounds = 0;
    loop {
        rounds += 1;
        assert!(rounds < 10_000, "the program does not end");
        let next = match state {
            Pause::Halted => break,
            Pause::Output(line) => {
                lines.push(line);
                lox.proceed(FUEL)
            }
            Pause::Needs(request) => lox.resume(answer(request), FUEL),
            Pause::Suspended => lox.proceed(FUEL),
        };
        state = match next {
            Ok(pause) => pause,
            Err(error) => {
                errors.push(error);
                break;
            }
        };
    }
    (lines, errors)
}

fn run(source: &str) -> (Vec<String>, Vec<LoxError>) {
    let mut lox = Lox::new(false);
    drive(&mut lox, source)
}

fn output(source: &str) -> Vec<String> {
    let (lines, errors) = run(source);
    let reports: Vec<String> = errors.iter().map(Lox::error).collect();
    assert!(reports.is_empty(), "unexpected errors: {:?}", reports);
    lines
}

#[test]
fn arithmetic_and_precedence() {
    assert_eq!(output("print 1 + 2 * 3;"), vec!["7"]);
}

#[test]
fn globals_with_assignment() {
    assert_eq!(output("let a = 1; a = a + 2; print a;"), vec!["3"]);
}

#[test]
fn block_scoping_and_shadowing() {
    assert_eq!(
        output("let x = \"outer\"; { let x = \"inner\"; print x; } print x;"),
        vec!["inner", "outer"]
    );
}

#[test]
fn control_flow_with_continue() {
    assert_eq!(
        output("for (let i = 0; i < 5; i = i + 1) { if (i == 2) continue; print i; }"),
        vec!["0", "1", "3", "4"]
    );
}

#[test]
fn function_with_call_frame() {
    assert_eq!(output("func add(a, b) { return a + b; } print add(2, 3);"), vec!["5"]);
}

#[test]
fn division_by_zero_is_a_runtime_error() {
    let (lines, errors) = run("print 1 / 0;");
    assert!(lines.is_empty());
    assert_eq!(errors.len(), 1);
    match &errors[0] {
        LoxError::RuntimeError { position, lexeme, msg } => {
            assert_eq!(*position, (1, 8));
            assert_eq!(lexeme, "/");
            assert!(msg.contains("divisor cannot be 0"));
        }
        other => panic!("unexpected error: {:?}", other),
    }
    assert_eq!(Lox::error(&errors[0]), "[ 1,  8] LoxError at '/': divisor cannot be 0.");
}

#[test]
fn if_without_else_leaves_the_stack_balanced() {
    assert_eq!(
        output("func f(a) { if (a) print 1; return a; } print f(true); print f(false);"),
        vec!["1", "true", "false"]
    );
}

#[test]
fn if_else_takes_one_branch() {
    assert_eq!(
        output("let a = 3; if (a > 2) print \"big\"; else print \"small\"; if (a < 2) print \"tiny\"; else print \"fine\";"),
        vec!["big", "fine"]
    );
}

#[test]
fn while_loop_with_break() {
    assert_eq!(
        output("let i = 0; while (true) { if (i >= 3) break; print i; i = i + 1; } print \"done\";"),
        vec!["0", "1", "2", "done"]
    );
}

#[test]
fn break_unwinds_locals_of_inner_scopes() {
    assert_eq!(
        output("func f() { let n = 0; while (n < 10) { let a = n; { let b = a * 2; if (b > 4) break; } n = n + 1; } return n; } print f();"),
        vec!["3"]
    );
}

#[test]
fn nested_loops_keep_their_own_jumps() {
    assert_eq!(
        output("for (let i = 0; i < 3; i = i + 1) { for (let j = 0; j < 3; j = j + 1) { if (j == 1) continue; if (j == 2) break; print i * 10 + j; } }"),
        vec!["0", "10", "20"]
    );
}

#[test]
fn logical_operators_short_circuit() {
    assert_eq!(
        output("print nil or \"yes\"; print false and 1; print 1 and 2; print 0 or 2;"),
        vec!["yes", "false", "2", "0"]
    );
}

#[test]
fn ternary_is_right_associative() {
    assert_eq!(output("print false ? 1 : true ? 2 : 3;"), vec!["2"]);
    assert_eq!(output("print true ? 1 : true ? 2 : 3;"), vec!["1"]);
}

#[test]
fn string_concatenation_stringifies_the_right_operand() {
    assert_eq!(
        output("print \"a\" + \"b\"; print \"n=\" + 1.5; print \"b=\" + true; print \"v=\" + nil;"),
        vec!["ab", "n=1.5", "b=true", "v=nil"]
    );
}

#[test]
fn number_plus_string_is_an_error() {
    let (lines, errors) = run("print 1 + \"a\";");
    assert!(lines.is_empty());
    assert_eq!(
        Lox::error(&errors[0]),
        "[ 1,  8] LoxError at '+': Operands must be two numbers or two strings."
    );
}

#[test]
fn modulo_truncates_its_operands() {
    assert_eq!(output("print 7.9 % 3.2; print 10 % 4;"), vec!["1", "2"]);
    let (_, errors) = run("print 5 % 0.5;");
    assert_eq!(Lox::error(&errors[0]), "[ 1,  8] LoxError at '%': divisor cannot be 0.");
}

#[test]
fn comparison_and_equality() {
    assert_eq!(
        output("print 1 < 2; print 2 <= 2; print 3 > 4; print 4 >= 5; print 1 == 1; print 1 != 1; print \"a\" == \"a\"; print nil == false; print 1 == \"1\";"),
        vec!["true", "true", "false", "false", "true", "false", "true", "false", "false"]
    );
}

#[test]
fn comparing_other_than_numbers_is_an_error() {
    let (_, errors) = run("print \"a\" < 1;");
    assert_eq!(Lox::error(&errors[0]), "[ 1, 10] LoxError at '<': Operands must be two numbers");
}

#[test]
fn unary_operators() {
    assert_eq!(output("print -3; print !true; print !nil; print --2;"), vec!["-3", "false", "true", "2"]);
    let (_, errors) = run("print -\"a\";");
    assert_eq!(
        Lox::error(&errors[0]),
        "[ 1,  6] LoxError at '-': Operator `-`'s Operand must be number!"
    );
}

#[test]
fn compound_assignment_on_globals_and_locals() {
    assert_eq!(
        output("let a = 10; a += 5; print a; a -= 3; print a; a *= 2; print a; a /= 4; print a; a %= 4; print a;"),
        vec!["15", "12", "24", "6", "2"]
    );
    assert_eq!(
        output("{ let a = 10; a += 5; print a; a -= 3; print a; a *= 2; print a; a /= 4; print a; a %= 4; print a; }"),
        vec!["15", "12", "24", "6", "2"]
    );
}

#[test]
fn compound_assignment_checks_type_and_zero() {
    let (_, errors) = run("let a = \"x\"; a += 1;");
    assert_eq!(
        Lox::error(&errors[0]),
        "[ 1, 15] LoxError at '+=': Operator '+=' can only be used on number"
    );
    let (_, errors) = run("let a = 1; a /= 0;");
    assert_eq!(Lox::error(&errors[0]), "[ 1, 13] LoxError at '/=': divisor cannot be 0.");
    let (_, errors) = run("b -= 1;");
    assert_eq!(Lox::error(&errors[0]), "[ 1,  2] LoxError at 'b': Undefined variable `b`.");
}

#[test]
fn undefined_variable_is_a_runtime_error() {
    let (lines, errors) = run("print 1; print missing;");
    assert_eq!(lines, vec!["1"]);
    assert_eq!(
        Lox::error(&errors[0]),
        "[ 1, 15] LoxError at 'missing': Undefined variable `missing`."
    );
    let (_, errors) = run("missing = 1;");
    assert_eq!(
        Lox::error(&errors[0]),
        "[ 1,  0] LoxError at 'missing': Undefined variable `missing`."
    );
}

#[test]
fn arity_mismatch_is_a_runtime_error() {
    let (_, errors) = run("func f(a) { return a; } print f(1, 2);");
    match &errors[0] {
        LoxError::RuntimeError { lexeme, msg, .. } => {
            assert_eq!(lexeme, "f");
            assert_eq!(msg, "Expect 1 arguments but got 2.");
        }
        other => panic!("unexpected error: {:?}", other),
    }
}

#[test]
fn calling_what_is_no_function_is_a_runtime_error() {
    let (_, errors) = run("let a = 1; a();");
    match &errors[0] {
        LoxError::RuntimeError { msg, .. } => {
            assert_eq!(msg, "Expect a callable type(Function, Lambda, Class)!");
        }
        other => panic!("unexpected error: {:?}", other),
    }
}

#[test]
fn runtime_error_lists_the_waiting_frames() {
    let (_, errors) = run("func inner() { return 1 / 0; }\nfunc outer() { return inner(); }\nprint outer();");
    match &errors[0] {
        LoxError::RuntimeError { position, msg, .. } => {
            assert_eq!(*position, (1, 24));
            let lines: Vec<&str> = msg.split('\n').collect();
            assert_eq!(lines.len(), 3);
            assert_eq!(lines[0], "divisor cannot be 0.");
            assert!(lines[1].ends_with("Error in function `outer`"));
            assert!(lines[2].ends_with("Error in function `__main__`"));
        }
        other => panic!("unexpected error: {:?}", other),
    }
}

#[test]
fn recursion_through_slot_zero() {
    assert_eq!(
        output("func fib(n) { if (n < 2) return n; else return fib(n - 1) + fib(n - 2); } print fib(10);"),
        vec!["55"]
    );
}

#[test]
fn lambdas_are_values() {
    assert_eq!(
        output("let twice = func (x) { return x * 2; }; print twice(21); print twice;"),
        vec!["42", "<func Lambda>"]
    );
}

#[test]
fn functions_print_by_name() {
    assert_eq!(output("func f() { return nil; } print f; print f();"), vec!["<func f>", "nil"]);
}

#[test]
fn function_without_return_gives_nil() {
    assert_eq!(output("func f() { let a = 1; } print f();"), vec!["nil"]);
}

#[test]
fn local_functions_live_in_slots() {
    assert_eq!(
        output("func outer() { func inner(a) { return a + 1; } return inner(1); } print outer();"),
        vec!["2"]
    );
}

#[test]
fn multiple_variables_in_one_let() {
    assert_eq!(output("let a = 1, b = 2, c; print a + b; print c;"), vec!["3", "nil"]);
}

#[test]
fn redeclaring_a_local_is_an_error() {
    let (_, errors) = run("{ let a = 1; let a = 2; }");
    assert_eq!(
        Lox::error(&errors[0]),
        "[ 1, 17] LoxError at 'a': Already a variable with this name in this scope."
    );
    assert_eq!(output("let a = 1; let a = 2; print a;"), vec!["2"]);
    assert_eq!(output("{ let a = 1; { let a = 2; print a; } print a; }"), vec!["2", "1"]);
}

#[test]
fn comments_and_blank_lines_are_skipped() {
    assert_eq!(output("// nothing here\nprint 1; // one\n\n// the end"), vec!["1"]);
}

#[test]
fn globals_persist_between_inputs() {
    let mut lox = Lox::new(false);
    let (lines, errors) = drive(&mut lox, "let a = 1; func inc(x) { return x + 1; }");
    assert!(lines.is_empty() && errors.is_empty());
    let (lines, errors) = drive(&mut lox, "print missing;");
    assert!(lines.is_empty());
    assert_eq!(errors.len(), 1);
    assert!(lox.is_error());
    lox.no_error();
    assert!(!lox.is_error());
    let (lines, errors) = drive(&mut lox, "a = inc(a); print a;");
    assert!(errors.is_empty());
    assert_eq!(lines, vec!["2"]);
}

#[test]
fn prompt_mode_marks_printed_lines() {
    let mut lox = Lox::new(true);
    let (lines, errors) = drive(&mut lox, "print 1; print \"a\";");
    assert!(errors.is_empty());
    assert_eq!(lines, vec!["\x1b[1;34m[REPL]: \x1b[0m1", "\x1b[1;34m[REPL]: \x1b[0ma"]);
}

#[test]
fn parse_errors_are_all_reported() {
    let (lines, errors) = run("print ; let = 3; print 1");
    assert!(lines.is_empty());
    assert_eq!(errors.len(), 3);
    assert_eq!(Lox::error(&errors[0]), "[ 1,  6] LoxError at ';': Expect expression.");
    assert_eq!(Lox::error(&errors[1]), "[ 1, 12] LoxError at '=': Expect a variable name.");
    assert_eq!(Lox::error(&errors[2]), "[ 1, 24] LoxError at end: Expect ';' after value");
}

#[test]
fn static_errors_are_all_reported() {
    let (lines, errors) = run("break; return 1; continue;");
    assert!(lines.is_empty());
    assert_eq!(errors.len(), 3);
    assert_eq!(
        Lox::error(&errors[0]),
        "[ 1,  0] LoxError at 'break': `break` can only be used in `while` or `for` statements"
    );
    assert_eq!(
        Lox::error(&errors[1]),
        "[ 1,  7] LoxError at 'return': `return` can only be used in a function."
    );
    assert_eq!(
        Lox::error(&errors[2]),
        "[ 1, 17] LoxError at 'continue': `continue` can only be used in `while` or `for` statements"
    );
}

#[test]
fn invalid_assignment_target() {
    let (_, errors) = run("1 = 2;");
    assert_eq!(Lox::error(&errors[0]), "[ 1,  2] LoxError at '=': Invalid assignment target");
}

#[test]
fn question_mark_needs_its_colon() {
    let (_, errors) = run("print true ? 1;");
    assert_eq!(Lox::error(&errors[0]), "[ 1, 14] LoxError at ';': Expected ':' after expression");
}

#[test]
fn same_source_gives_the_same_result() {
    let source = "let f = func (x) { return x + 1; }; print f(1); print func () { return 2; };";
    assert_eq!(output(source), output(source));
}
