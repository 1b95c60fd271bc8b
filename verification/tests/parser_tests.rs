use rlox::ast_printer::AstPrinter;
use rlox::error::LoxError;
use rlox::expr::Expression;
use rlox::parser::Parser;
use rlox::scanner::Scanner;
use rlox::stmt::Statement;
use rlox::token::Token;
use rlox::types::{Literal, TokenType};

fn tokens_of(source: &str) -> Vec<Token> {
    let mut scanner = Scanner::new(source.to_string());
    assert!(scanner.scan_tokens().is_ok());
    let mut tokens = scanner.into_tokens();
    for token in tokens.iter_mut() {
        if token.token_type == TokenType::Number {
            let value: f64 = token.lexeme.parse().unwrap();
            token.literal = Some(Literal::Number(value.to_bits()));
        }
    }
    tokens
}

fn parse(source: &str) -> Result<Vec<Statement>, Vec<LoxError>> {
    Parser::new(tokens_of(source)).parse()
}

fn statements(source: &str) -> Vec<Statement> {
    match parse(source) {
        Ok(statements) => statements,
        Err(errors) => panic!("unexpected errors: {:?}", errors),
    }
}

fn messages(source: &str) -> Vec<String> {
    match parse(source) {
        Ok(_) => Vec::new(),
        Err(errors) => errors
            .iter()
            .map(|error| match error {
                LoxError::ParseError { msg, .. } => msg.clone(),
                other => panic!("unexpected error: {:?}", other),
            })
            .collect(),
    }
}

fn printed(source: &str) -> String {
    let mut list = statements(&format!("{};", source));
    assert_eq!(list.len(), 1);
    match list.remove(0) {
        Statement::ExpressionStatement { expression, .. } => AstPrinter::new().print(&expression),
        other => panic!("unexpected statement: {:?}", other),
    }
}

#[test]
fn factors_bind_tighter_than_terms() {
    assert_eq!(printed("1 + 2 * 3"), "(+ 1 (* 2 3))");
    assert_eq!(printed("1 * 2 + 3"), "(+ (* 1 2) 3)");
    assert_eq!(printed("1 - 2 - 3"), "(- (- 1 2) 3)");
    assert_eq!(printed("8 / 4 % 3"), "(% (/ 8 4) 3)");
}

#[test]
fn comparison_and_equality_group_to_the_left() {
    assert_eq!(printed("1 < 2 == 3 >= 4"), "(== (< 1 2) (>= 3 4))");
    assert_eq!(printed("a != b != c"), "(!= (!= a b) c)");
}

#[test]
fn unary_operators_and_grouping() {
    assert_eq!(printed("-a * !b"), "(* (- a) (! b))");
    assert_eq!(printed("(1 + 2) * 3"), "(* (group (+ 1 2)) 3)");
    assert_eq!(printed("--1"), "(- (- 1))");
    assert_eq!(printed("+1"), "(+ 1)");
}

#[test]
fn the_ternary_binds_less_than_equality_and_more_than_and() {
    assert_eq!(printed("a == b ? 1 : 2"), "(ternary (== a b) 1 2)");
    assert_eq!(printed("a ? b : c ? d : e"), "(ternary a b (ternary c d e))");
    assert_eq!(printed("a and b ? c : d"), "(and a (ternary b c d))");
    assert_eq!(printed("a or b and c"), "(or a (and b c))");
}

#[test]
fn assignment_groups_to_the_right() {
    assert_eq!(printed("a = b = 1"), "(= a (= b 1))");
    assert_eq!(printed("a += b * 2"), "(+= a (* b 2))");
    assert_eq!(printed("a = b or c"), "(= a (or b c))");
}

#[test]
fn calls_and_literals() {
    assert_eq!(printed("f(1, \"two\", nil, true)"), "(call f 1 two nil true)");
    assert_eq!(printed("f()"), "(call f)");
    assert_eq!(printed("(func (a) { return a; })"), "(group (func))");
}

#[test]
fn a_for_loop_becomes_a_while_loop_in_a_block() {
    let mut list = statements("for (let i = 0; i < 3; i = i + 1) print i;");
    assert_eq!(list.len(), 1);
    let mut inner = match list.remove(0) {
        Statement::BlockStatement { statements } => statements,
        other => panic!("unexpected statement: {:?}", other),
    };
    assert_eq!(inner.len(), 2);
    assert!(matches!(inner[0], Statement::MultiVarStatement { .. }));
    match inner.remove(1) {
        Statement::WhileStatement { condition, body, increment } => {
            assert_eq!(AstPrinter::new().print(&condition), "(< i 3)");
            assert!(matches!(*body, Statement::PrintStatement { .. }));
            match increment {
                Some(statement) => match *statement {
                    Statement::ExpressionStatement { expression, .. } => {
                        assert_eq!(AstPrinter::new().print(&expression), "(= i (+ i 1))")
                    }
                    other => panic!("unexpected statement: {:?}", other),
                },
                None => panic!("the increment is missing"),
            }
        }
        other => panic!("unexpected statement: {:?}", other),
    }
}

#[test]
fn a_for_loop_without_parts_runs_on_true() {
    let mut list = statements("for (;;) break;");
    match list.remove(0) {
        Statement::WhileStatement { condition, increment, .. } => {
            assert!(matches!(
                condition,
                Expression::LiteralExpression { value: Literal::Bool(true), .. }
            ));
            assert!(increment.is_none());
        }
        other => panic!("unexpected statement: {:?}", other),
    }
}

#[test]
fn declarations_and_statements() {
    let list = statements(
        "let a = 1, b; func f(x, y) { return; } if (a) print a; else { a = 2; } while (a) continue; func () {}",
    );
    assert_eq!(list.len(), 5);
    match &list[0] {
        Statement::MultiVarStatement { vars } => assert_eq!(vars.len(), 2),
        other => panic!("unexpected statement: {:?}", other),
    }
    match &list[1] {
        Statement::FunctionStatement { name, params, body, .. } => {
            assert_eq!(name.lexeme, "f");
            assert_eq!(params.len(), 2);
            assert_eq!(body.len(), 1);
        }
        other => panic!("unexpected statement: {:?}", other),
    }
    assert!(matches!(&list[2], Statement::BranchStatement { else_branch: Some(_), .. }));
    assert!(matches!(&list[3], Statement::WhileStatement { increment: None, .. }));
    assert!(matches!(
        &list[4],
        Statement::ExpressionStatement { expression: Expression::LambdaExpression { .. }, .. }
    ));
}

#[test]
fn every_error_is_reported_and_parsing_goes_on() {
    assert_eq!(
        messages("print ; let a = ; print 1; a = = 2;"),
        vec!["Expect expression.", "Expect expression.", "Expect expression."]
    );
    assert_eq!(messages("print 1"), vec!["Expect ';' after value"]);
    assert_eq!(messages("{ print 1;"), vec!["Expect '}' after block"]);
    assert_eq!(messages("(1 + 2;"), vec!["Expect ')' after expression."]);
    assert_eq!(messages("* 2;"), vec!["Expect a expression before '*'"]);
    assert_eq!(messages("break"), vec!["Expect ';' after 'break'"]);
    assert_eq!(messages("continue 1;"), vec!["Expect ';' after 'continue'"]);
    assert_eq!(messages("func 1() {}"), vec!["Expect Function name."]);
    assert_eq!(messages("func f {}"), vec!["Expect '(' after Function name."]);
    assert_eq!(messages("func f(1) {}"), vec!["Expect parameter name."]);
    assert_eq!(messages("func f() 1;"), vec!["Expect '{' before function body."]);
    assert_eq!(messages("if a) b;"), vec!["Expect '(' after 'if'"]);
    assert_eq!(messages("while (a b;"), vec!["Expect ')' after the condition"]);
    assert_eq!(messages("for i;"), vec!["Expect '(' after 'for'"]);
    assert_eq!(
        messages("for i;;) b;"),
        vec!["Expect '(' after 'for'", "Expect expression.", "Expect expression."]
    );
    assert_eq!(messages("f(1;"), vec!["Expect expression."]);
    assert_eq!(messages("f(1"), vec!["Expect expression."]);
    assert_eq!(messages("let a b;"), vec!["Expect ',' after value"]);
    assert_eq!(messages("return 1"), vec!["Expect ';' after return value."]);
}

#[test]
fn after_an_error_parsing_goes_on_at_the_next_statement() {
    let found = messages("let 1 = 2 print 3; print ;");
    assert_eq!(found, vec!["Expect a variable name.", "Expect expression."]);
    match parse("a b c; print 1;") {
        Err(errors) => assert_eq!(errors.len(), 1),
        Ok(_) => panic!("an error was expected"),
    }
}

#[test]
fn a_function_takes_at_most_256_parameters() {
    let names: Vec<String> = (0..256).map(|i| format!("p{}", i)).collect();
    assert!(parse(&format!("func f({}) {{}}", names.join(", "))).is_ok());
    let names: Vec<String> = (0..257).map(|i| format!("p{}", i)).collect();
    assert_eq!(
        messages(&format!("func f({}) {{}}", names.join(", "))),
        vec!["The maximum number of parameters is 256."]
    );
}

#[test]
fn a_call_takes_at_most_256_arguments() {
    let values: Vec<String> = (0..256).map(|i| format!("{}", i)).collect();
    assert!(parse(&format!("f({});", values.join(", "))).is_ok());
    let values: Vec<String> = (0..257).map(|i| format!("{}", i)).collect();
    assert_eq!(
        messages(&format!("f({});", values.join(", "))),
        vec!["The maximum number of arguments is 256."]
    );
}

#[test]
fn tokens_without_an_end_are_given_one() {
    let mut tokens = tokens_of("print 1;");
    tokens.pop();
    let list = Parser::new(tokens).parse();
    assert!(matches!(list, Ok(ref statements) if statements.len() == 1));
    assert!(matches!(Parser::new(Vec::new()).parse(), Ok(ref statements) if statements.is_empty()));
}

#[test]
fn a_number_token_without_a_value_is_an_error() {
    let mut scanner = Scanner::new("print 1;".to_string());
    assert!(scanner.scan_tokens().is_ok());
    match Parser::new(scanner.into_tokens()).parse() {
        Err(errors) => match &errors[0] {
            LoxError::ParseError { msg, .. } => assert_eq!(msg, "Expect a value for the literal."),
            other => panic!("unexpected error: {:?}", other),
        },
        Ok(_) => panic!("an error was expected"),
    }
}
