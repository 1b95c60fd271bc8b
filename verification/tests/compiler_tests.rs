use rlox::convertor::Convertor;
use rlox::error::LoxError;
use rlox::expr::Expression;
use rlox::lox::Lox;
use rlox::opcode::OpCode;
use rlox::scanner::Scanner;
use rlox::stmt::Statement;
use rlox::token::Token;
use rlox::types::{FuncType, Function, Literal, TokenType};

fn tokens_of(source: &str) -> Vec<Token> {
    let mut scanner = Scanner::new(source.to_string());
    assert!(scanner.scan_tokens().is_ok());
    let mut tokens = scanner.into_tokens();
    for token in tokens.iter_mut() {
        if token.token_type == TokenType::Number {
            let value: f64 = token.lexeme.parse().unwrap();
            token.literal = Some(Literal::Number(value.to_bits()));
        }
    }
    tokens
}

fn compile(source: &str) -> Function {
    match Lox::compile(tokens_of(source)) {
        Ok(program) => program.function,
        Err(errors) => panic!("unexpected errors: {:?}", errors),
    }
}

fn show(code: &OpCode) -> String {
    match code {
        OpCode::Load(Literal::Number(bits)) => format!("Load({})", f64::from_bits(*bits)),
        OpCode::Load(Literal::String(text)) => format!("Load({:?})", text),
        OpCode::Load(Literal::Bool(b)) => format!("Load({})", b),
        OpCode::Load(Literal::Nil) => "Load(nil)".to_string(),
        OpCode::Load(Literal::Function(function)) => format!("Load(<{}/{}>)", function.name, function.arity),
        other => format!("{:?}", other),
    }
}

fn listing(function: &Function) -> Vec<String> {
    function.chunk.codes.iter().map(show).collect()
}

fn inner(function: &Function, at: usize) -> std::rc::Rc<Function> {
    match &function.chunk.codes[at] {
        OpCode::Load(Literal::Function(function)) => function.clone(),
        other => panic!("unexpected instruction: {:?}", other),
    }
}

fn assert_jumps_land_on_code(function: &Function) {
    let len = function.chunk.codes.len();
    assert_eq!(function.chunk.positions.len(), len);
    for (at, code) in function.chunk.codes.iter().enumerate() {
        match code {
            OpCode::Jump(offset) | OpCode::JumpIfTrue(offset) | OpCode::JumpIfFalse(offset) => {
                assert!(at + 1 + offset < len, "jump at {} leaves the code", at)
            }
            OpCode::JumpForward(offset) => assert!(*offset <= at + 1),
            OpCode::Load(Literal::Function(function)) => {
                let len = function.chunk.codes.len();
                for (at, code) in function.chunk.codes.iter().enumerate() {
                    match code {
                        OpCode::Jump(offset)
                        | OpCode::JumpIfTrue(offset)
                        | OpCode::JumpIfFalse(offset) => assert!(at + 1 + offset <= len),
                        OpCode::JumpForward(offset) => assert!(*offset <= at + 1),
                        _ => {}
                    }
                }
            }
            _ => {}
        }
    }
}

#[test]
fn an_expression_statement_pops_its_value() {
    let function = compile("1 + 2 * 3;");
    assert_eq!(
        listing(&function),
        vec!["Load(1)", "Load(2)", "Load(3)", "Mul", "Add", "Pop", "Load(nil)", "Return"]
    );
    assert_eq!(
        function.chunk.positions,
        vec![(1, 0), (1, 4), (1, 8), (1, 6), (1, 2), (1, 9), (0, 0), (0, 0)]
    );
    assert_eq!(function.name, "__main__");
    assert_eq!(function.arity, 0);
    assert_eq!(function.func_type, FuncType::Main);
}

#[test]
fn comparisons_without_an_instruction_are_negated() {
    assert_eq!(
        listing(&compile("print 1 <= 2; print 1 >= 2; print 1 != 2;")),
        vec![
            "Load(1)", "Load(2)", "Greater", "Not", "Print", "Load(1)", "Load(2)", "Less", "Not",
            "Print", "Load(1)", "Load(2)", "Eq", "Not", "Print", "Load(nil)", "Return"
        ]
    );
}

#[test]
fn globals_go_by_name_and_locals_by_slot() {
    assert_eq!(
        listing(&compile("let a = 1; a = a + 1; { let b = a; b = b; let c; { let b = c; } }")),
        vec![
            "Load(1)",
            "DefineGlobal(\"a\")",
            "GetGlobal(\"a\")",
            "Load(1)",
            "Add",
            "SetGlobal(\"a\")",
            "Pop",
            "GetGlobal(\"a\")",
            "GetLocal(0)",
            "SetLocal(0)",
            "Pop",
            "Load(nil)",
            "GetLocal(1)",
            "Pop",
            "Pop",
            "Pop",
            "Load(nil)",
            "Return"
        ]
    );
}

#[test]
fn compound_assignment_is_one_instruction() {
    assert_eq!(
        listing(&compile("let a = 1; a += 2; { let b = 3; b %= a; }")),
        vec![
            "Load(1)",
            "DefineGlobal(\"a\")",
            "Load(2)",
            "AddIGlobal(\"a\")",
            "Pop",
            "Load(3)",
            "GetGlobal(\"a\")",
            "ModILocal(0)",
            "Pop",
            "Pop",
            "Load(nil)",
            "Return"
        ]
    );
}

#[test]
fn logical_operators_jump_over_the_right_operand() {
    assert_eq!(
        listing(&compile("print a and b; print a or b;")),
        vec![
            "GetGlobal(\"a\")",
            "JumpIfFalse(2)",
            "Pop",
            "GetGlobal(\"b\")",
            "Print",
            "GetGlobal(\"a\")",
            "JumpIfTrue(2)",
            "Pop",
            "GetGlobal(\"b\")",
            "Print",
            "Load(nil)",
            "Return"
        ]
    );
}

#[test]
fn a_ternary_pops_the_condition_on_either_path() {
    assert_eq!(
        listing(&compile("print a ? 1 : 2;")),
        vec![
            "GetGlobal(\"a\")",
            "JumpIfFalse(3)",
            "Pop",
            "Load(1)",
            "Jump(2)",
            "Pop",
            "Load(2)",
            "Print",
            "Load(nil)",
            "Return"
        ]
    );
}

#[test]
fn a_branch_pops_the_condition_on_either_path() {
    assert_eq!(
        listing(&compile("if (a) print 1; else print 2;")),
        vec![
            "GetGlobal(\"a\")",
            "JumpIfFalse(4)",
            "Pop",
            "Load(1)",
            "Print",
            "Jump(3)",
            "Pop",
            "Load(2)",
            "Print",
            "Load(nil)",
            "Return"
        ]
    );
    assert_eq!(
        listing(&compile("if (a) print 1;")),
        vec![
            "GetGlobal(\"a\")",
            "JumpIfFalse(4)",
            "Pop",
            "Load(1)",
            "Print",
            "Jump(1)",
            "Pop",
            "Load(nil)",
            "Return"
        ]
    );
}

#[test]
fn a_loop_jumps_back_to_its_condition() {
    assert_eq!(
        listing(&compile("while (a) { if (b) break; if (c) continue; print 1; }")),
        vec![
            "GetGlobal(\"a\")",
            "JumpIfFalse(16)",
            "Pop",
            "GetGlobal(\"b\")",
            "JumpIfFalse(3)",
            "Pop",
            "Jump(12)",
            "Jump(1)",
            "Pop",
            "GetGlobal(\"c\")",
            "JumpIfFalse(3)",
            "Pop",
            "Jump(4)",
            "Jump(1)",
            "Pop",
            "Load(1)",
            "Print",
            "JumpForward(18)",
            "Pop",
            "Load(nil)",
            "Return"
        ]
    );
}

#[test]
fn the_increment_of_a_for_loop_runs_after_continue() {
    assert_eq!(
        listing(&compile("for (let i = 0; i < 2; i = i + 1) { continue; }")),
        vec![
            "Load(0)",
            "GetLocal(0)",
            "Load(2)",
            "Less",
            "JumpIfFalse(8)",
            "Pop",
            "Jump(0)",
            "GetLocal(0)",
            "Load(1)",
            "Add",
            "SetLocal(0)",
            "Pop",
            "JumpForward(12)",
            "Pop",
            "Pop",
            "Load(nil)",
            "Return"
        ]
    );
}

#[test]
fn break_and_continue_unwind_the_locals_of_the_loop() {
    let function = compile("{ let a = 1; while (a) { let b = 2; { let c = 3; break; } } }");
    assert_eq!(
        listing(&function),
        vec![
            "Load(1)",
            "GetLocal(0)",
            "JumpIfFalse(9)",
            "Pop",
            "Load(2)",
            "Load(3)",
            "Pop",
            "Pop",
            "Jump(4)",
            "Pop",
            "Pop",
            "JumpForward(11)",
            "Pop",
            "Pop",
            "Load(nil)",
            "Return"
        ]
    );
    assert_jumps_land_on_code(&function);
}

#[test]
fn a_function_keeps_slot_zero_for_itself() {
    let function = compile("func add(a, b) { let c = a + b; return add(c, 1); }");
    assert_eq!(listing(&function), vec!["Load(<add/2>)", "DefineGlobal(\"add\")", "Load(nil)", "Return"]);
    let add = inner(&function, 0);
    assert_eq!(add.func_type, FuncType::Normal);
    assert_eq!(
        listing(&add),
        vec![
            "GetLocal(1)",
            "GetLocal(2)",
            "Add",
            "GetLocal(0)",
            "GetLocal(3)",
            "Load(1)",
            "Call(2)",
            "Return"
        ]
    );
}

#[test]
fn a_function_without_return_returns_nil() {
    let function = compile("func f() { print 1; }");
    assert_eq!(listing(&inner(&function, 0)), vec!["Load(1)", "Print", "Load(nil)", "Return"]);
}

#[test]
fn functions_without_a_name_are_numbered() {
    let function = compile("let f = func () { return func (x) { return x; }; }; let g = func () {};");
    assert_eq!(
        listing(&function),
        vec![
            "Load(<$-1/0>)",
            "DefineGlobal(\"f\")",
            "Load(<$-3/0>)",
            "DefineGlobal(\"g\")",
            "Load(nil)",
            "Return"
        ]
    );
    let outer = inner(&function, 0);
    assert_eq!(outer.func_type, FuncType::Lambda);
    assert_eq!(listing(&outer), vec!["Load(<$-2/1>)", "Return"]);
    assert_eq!(Function::lambda_name(12), "$-12");
}

#[test]
fn the_same_source_compiles_to_the_same_code() {
    let source = "func f(a) { while (a) { a = a - 1; if (a == 2) continue; } return func () {}; }";
    assert_eq!(format!("{:?}", compile(source)), format!("{:?}", compile(source)));
}

#[test]
fn jumps_of_compiled_programs_land_on_code() {
    for source in [
        "if (a) print 1;",
        "while (a) { if (b) break; else continue; }",
        "for (;;) { for (let i = 0; i < 3; i += 1) { if (i) break; } break; }",
        "print a and b ? c : d or e;",
        "func f(a) { if (a) return 1; while (a) { break; } }",
    ] {
        assert_jumps_land_on_code(&compile(source));
    }
}

#[test]
fn a_parameter_cannot_be_declared_twice() {
    match Lox::compile(tokens_of("func f(a, a) {}")) {
        Err(errors) => assert_eq!(
            Lox::error(&errors[0]),
            "[ 1, 10] LoxError at 'a': Already a variable with this name in this scope."
        ),
        Ok(_) => panic!("an error was expected"),
    }
}

#[test]
fn unused_variables_are_listed() {
    match Lox::compile(tokens_of("let a = 1; let b = a; let c; print b; let c;")) {
        Ok(program) => assert_eq!(program.unused, vec!["c".to_string()]),
        Err(errors) => panic!("unexpected errors: {:?}", errors),
    }
}

fn token(token_type: TokenType, lexeme: &str) -> Token {
    Token::new(token_type, lexeme.to_string(), (1, 0))
}

#[test]
fn what_has_no_code_is_refused() {
    let classes = vec![Statement::ClassStatement {
        name: token(TokenType::Identifier, "A"),
        methods: Vec::new(),
        static_methods: Vec::new(),
    }];
    match Convertor::new("__main__", FuncType::Main).convert(&classes) {
        Err(LoxError::RuntimeError { lexeme, msg, .. }) => {
            assert_eq!(lexeme, "A");
            assert_eq!(msg, "Classes are not supported by the bytecode compiler.");
        }
        other => panic!("unexpected result: {:?}", other.map(|function| function.name)),
    }
    let plus = vec![Statement::ExpressionStatement {
        expression: Expression::UnaryExpression {
            op: token(TokenType::Plus, "+"),
            right: Box::new(Expression::LiteralExpression {
                value: Literal::Nil,
                token: token(TokenType::Nil, "nil"),
            }),
        },
        end: token(TokenType::Semicolon, ";"),
    }];
    match Convertor::default().convert(&plus) {
        Err(LoxError::RuntimeError { msg, .. }) => assert_eq!(msg, "Operand must be number or bool"),
        other => panic!("unexpected result: {:?}", other.map(|function| function.name)),
    }
}
