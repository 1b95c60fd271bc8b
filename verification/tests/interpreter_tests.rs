use rlox::ast_printer::AstPrinter;
use rlox::chunk::Chunk;
use rlox::expr::Expression;
use rlox::interpreter::Interpreter;
use rlox::parser::Parser;
use rlox::scanner::Scanner;
use rlox::stmt::Statement;
use rlox::token::Token;
use rlox::types::{FuncType, Function, Literal, TokenType};
use rlox::vm::{NumberOp, Pause, Request, Supply};
use std::rc::Rc;

fn statements(source: &str) -> Vec<Statement> {
    let mut scanner = Scanner::new(source.to_string());
    assert!(scanner.scan_tokens().is_ok());
    let mut tokens = scanner.into_tokens();
    for token in tokens.iter_mut() {
        if token.token_type == TokenType::Number {
            let value: f64 = token.lexeme.parse().unwrap();
            token.literal = Some(Literal::Number(value.to_bits()));
        }
    }
    Parser::new(tokens).parse().ok().unwrap()
}

fn answer(request: Request) -> Supply {
    match request {
        Request::Nothing => Supply::Nothing,
        Request::Display { number } => Supply::Text(f64::from_bits(number).to_string()),
        Request::Arithmetic { op, left, right } => {
            let left = f64::from_bits(left);
            let right = f64::from_bits(right);
            Supply::Number(
                match op {
                    NumberOp::Add => left + right,
                    NumberOp::Sub => left - right,
                    NumberOp::Mul => left * right,
                    NumberOp::Div => left / right,
                    NumberOp::Mod => (left as i64).wrapping_rem(right as i64) as f64,
                }
                .to_bits(),
            )
        }
    }
}

fn interpret(interpreter: &mut Interpreter, source: &str) -> Vec<String> {
    let mut lines = Vec::new();
    let mut state = interpreter.interpret(&statements(source), 50);
    for _ in 0..10_000 {
        state = match state {
            Ok(Pause::Halted) => return lines,
            Ok(Pause::Output(line)) => {
                lines.push(line);
                interpreter.proceed(50)
            }
            Ok(Pause::Needs(request)) => interpreter.resume(answer(request), 50),
            Ok(Pause::Suspended) => interpreter.proceed(50),
            Err(error) => panic!("unexpected error: {:?}", error),
        };
    }
    panic!("the program does not end");
}

#[test]
fn a_tree_is_compiled_and_run() {
    let mut interpreter = Interpreter::new(false);
    assert_eq!(
        interpret(&mut interpreter, "let n = 0; for (let i = 1; i <= 100; i += 1) n += i; print n;"),
        vec!["5050"]
    );
    assert_eq!(interpret(&mut interpreter, "print n / 2;"), vec!["2525"]);
}

#[test]
fn a_tree_that_does_not_compile_leaves_the_machine_alone() {
    let mut interpreter = Interpreter::new(false);
    assert_eq!(interpret(&mut interpreter, "let a = 1;"), Vec::<String>::new());
    assert!(interpreter.interpret(&statements("{ let b; let b; }"), 50).is_err());
    assert_eq!(interpret(&mut interpreter, "print a;"), vec!["1"]);
}

fn token(token_type: TokenType, lexeme: &str) -> Token {
    Token::new(token_type, lexeme.to_string(), (1, 0))
}

#[test]
fn expressions_can_be_built_and_printed() {
    let one = || Box::new(Expression::literal(Literal::Number(1f64.to_bits()), token(TokenType::Number, "1")));
    let a = || Box::new(Expression::variable(token(TokenType::Identifier, "a")));
    let printer = AstPrinter::new();
    assert_eq!(printer.print(&Expression::assign(token(TokenType::Identifier, "a"), one())), "(= a 1)");
    assert_eq!(printer.print(&Expression::binary(a(), token(TokenType::Plus, "+"), one())), "(+ a 1)");
    assert_eq!(
        printer.print(&Expression::call(a(), token(TokenType::RightParen, ")"), vec![*one(), *a()])),
        "(call a 1 a)"
    );
    assert_eq!(printer.print(&Expression::get(a(), token(TokenType::Identifier, "b"))), "(get a b)");
    assert_eq!(printer.print(&Expression::grouping(one())), "(group 1)");
    assert_eq!(printer.print(&Expression::logical(a(), token(TokenType::Or, "or"), one())), "(or a 1)");
    assert_eq!(
        printer.print(&Expression::set(a(), token(TokenType::Identifier, "b"), one())),
        "(set a b 1)"
    );
    assert_eq!(
        printer.print(&Expression::create_super(
            token(TokenType::Super, "super"),
            token(TokenType::Identifier, "m")
        )),
        "(super m)"
    );
    assert_eq!(printer.print(&Expression::ternary(a(), one(), a())), "(ternary a 1 a)");
    assert_eq!(printer.print(&Expression::this(token(TokenType::RSelf, "self"))), "self");
    assert_eq!(printer.print(&Expression::unary(token(TokenType::Bang, "!"), a())), "(! a)");
    assert_eq!(
        printer.print(&Expression::literal(Literal::String("s t".to_string()), token(TokenType::String, "\"s t\""))),
        "s t"
    );
}

#[test]
fn function_values_are_shared_and_compared_by_name_and_arity() {
    let make = |name: &str, arity: usize, func_type: FuncType| {
        Literal::Function(Rc::new(Function::new(name.to_string(), Chunk::new(), arity, func_type)))
    };
    let f = make("f", 1, FuncType::Normal);
    let copy = f.clone();
    assert!(f.equals(&copy));
    assert!(f.equals(&make("f", 1, FuncType::Lambda)));
    assert!(!f.equals(&make("f", 2, FuncType::Normal)));
    assert!(!f.equals(&make("g", 1, FuncType::Normal)));
    assert!(f.is_true());
    match (f.get_function(), &f) {
        (Ok(handle), Literal::Function(held)) => {
            assert!(Rc::ptr_eq(&handle, held));
            assert_eq!(handle.name, "f");
            assert_eq!(handle.arity, 1);
        }
        _ => panic!("a function was expected"),
    }
    assert_eq!(f.to_text(), Some("<func f>".to_string()));
    assert_eq!(make("$-1", 0, FuncType::Lambda).to_text(), Some("<func Lambda>".to_string()));
}
