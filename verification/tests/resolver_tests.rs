use rlox::environment::Scopes;
use rlox::error::LoxError;
use rlox::expr::Expression;
use rlox::lox::Lox;
use rlox::opcode::OpCode;
use rlox::resolver::Resolver;
use rlox::stmt::Statement;
use rlox::token::Token;
use rlox::types::{ClassType, FuncType, TokenType};

fn token(token_type: TokenType, lexeme: &str, column: usize) -> Token {
    Token::new(token_type, lexeme.to_string(), (1, column))
}

fn name(lexeme: &str) -> Token {
    token(TokenType::Identifier, lexeme, 0)
}

fn this(column: usize) -> Statement {
    Statement::ExpressionStatement {
        expression: Expression::SelfExpression { keyword: token(TokenType::RSelf, "self", column) },
        end: token(TokenType::Semicolon, ";", column + 4),
    }
}

fn method(lexeme: &str, function_type: FuncType, body: Vec<Statement>) -> Statement {
    Statement::FunctionStatement { name: name(lexeme), params: Vec::new(), body, function_type }
}

fn give_back(column: usize) -> Statement {
    Statement::ReturnStatement {
        key_word: token(TokenType::Return, "return", column),
        value: Some(Expression::VariableExpression { name: name("x") }),
    }
}

fn messages(statements: &Vec<Statement>) -> Vec<String> {
    match Resolver::new().resolve(statements) {
        Ok(()) => Vec::new(),
        Err(errors) => errors.iter().map(Lox::error).collect(),
    }
}

#[test]
fn self_is_allowed_in_methods_only() {
    let class = Statement::ClassStatement {
        name: name("A"),
        methods: vec![method("m", FuncType::Normal, vec![this(1)]), method("__init__", FuncType::Normal, vec![this(2)])],
        static_methods: vec![method("s", FuncType::StaticMethod, vec![this(3)])],
    };
    assert_eq!(
        messages(&vec![this(0), class]),
        vec![
            "[ 1,  0] LoxError at 'self': Keyword `self` can only be used in method(static methods are not included).",
            "[ 1,  3] LoxError at 'self': Keyword `self` can only be used in method(static methods are not included).",
        ]
    );
}

#[test]
fn an_initializer_cannot_return_a_value() {
    let class = Statement::ClassStatement {
        name: name("A"),
        methods: vec![
            method("__init__", FuncType::Normal, vec![give_back(5)]),
            method("m", FuncType::Normal, vec![give_back(6)]),
        ],
        static_methods: Vec::new(),
    };
    assert_eq!(
        messages(&vec![class]),
        vec!["[ 1,  5] LoxError at 'return': function `__init__` can not return value."]
    );
}

#[test]
fn return_is_allowed_in_functions_and_jumps_in_loops() {
    let body = Statement::BlockStatement {
        statements: vec![
            Statement::BreakStatement { token: token(TokenType::Break, "break", 1) },
            Statement::ContinueStatement { token: token(TokenType::Continue, "continue", 2) },
        ],
    };
    let looping = Statement::WhileStatement {
        condition: Expression::VariableExpression { name: name("x") },
        body: Box::new(body),
        increment: Some(Box::new(Statement::BreakStatement { token: token(TokenType::Break, "break", 3) })),
    };
    let function = method("f", FuncType::Normal, vec![give_back(4)]);
    let lambda = Statement::ExpressionStatement {
        expression: Expression::LambdaExpression {
            keyword: token(TokenType::Func, "func", 5),
            params: Vec::new(),
            body: vec![give_back(5)],
        },
        end: token(TokenType::Semicolon, ";", 6),
    };
    assert_eq!(
        messages(&vec![looping, function, lambda, give_back(7)]),
        vec![
            "[ 1,  3] LoxError at 'break': `break` can only be used in `while` or `for` statements",
            "[ 1,  7] LoxError at 'return': `return` can only be used in a function.",
        ]
    );
}

#[test]
fn variables_that_are_never_read_are_unused() {
    let declare = |lexeme: &str, from: Option<&str>| Statement::VarStatement {
        name: name(lexeme),
        initializer: from.map(|other| Expression::VariableExpression { name: name(other) }),
    };
    let mut resolver = Resolver::new();
    resolver.variable_used(&"early".to_string());
    resolver.resolve_statement(&declare("early", None));
    let statements = vec![declare("a", None), declare("b", Some("a")), declare("c", Some("c")), declare("a", None), declare("d", Some("b"))];
    assert!(resolver.resolve(&statements).is_ok());
    assert_eq!(resolver.unused_variables(), vec!["early", "a", "d"]);
    resolver.variable_define("e".to_string());
    resolver.variable_used(&"d".to_string());
    resolver.resolve_function(&vec![declare("f", Some("e"))], FuncType::Normal);
    resolver.resolve_expression(&Expression::VariableExpression { name: name("early") });
    resolver.resolve_statements(&vec![declare("g", Some("a"))]);
    assert_eq!(resolver.unused_variables(), vec!["f", "g"]);
}

#[test]
fn labels_of_function_and_class_kinds() {
    assert_eq!(FuncType::Normal.label(), "Function");
    assert_eq!(FuncType::Method.label(), "Method");
    assert_eq!(FuncType::Initializer.label(), "Method");
    assert_eq!(FuncType::Lambda.label(), "Lambda");
    assert_eq!(FuncType::Main.label(), "");
    assert_eq!(FuncType::StaticMethod.label(), "StaticMethod");
    assert_eq!(ClassType::Outside.label(), "");
    assert_eq!(ClassType::Class.label(), "Class");
}

#[test]
fn leaving_a_scope_pops_its_locals() {
    let mut scopes = Scopes::new();
    assert!(scopes.define_variable("f".to_string(), 0).is_ok());
    scopes.begin_scope();
    assert!(scopes.define_variable("a".to_string(), 1).is_ok());
    assert!(scopes.define_variable("b".to_string(), 1).is_ok());
    assert!(scopes.define_variable("a".to_string(), 1).is_err());
    scopes.begin_scope();
    assert!(scopes.define_variable("a".to_string(), 2).is_ok());
    scopes.begin_scope();
    assert!(scopes.define_variable("c".to_string(), 3).is_ok());
    assert_eq!(scopes.find_variable(&"a".to_string()), Ok(3));
    assert_eq!(scopes.find_variable(&"b".to_string()), Ok(2));
    assert_eq!(scopes.find_variable(&"f".to_string()), Ok(0));
    assert_eq!(scopes.find_variable(&"d".to_string()), Err(()));
    assert_eq!(scopes.will_delete_var_by_depth(1).len(), 2);
    assert_eq!(scopes.will_delete_var_by_depth(0).len(), 4);
    assert_eq!(scopes.will_delete_var_by_depth(3).len(), 0);
    assert_eq!(scopes.variables.len(), 5);
    let pops = scopes.end_scope();
    assert_eq!(pops.len(), 1);
    assert!(pops.iter().all(|code| matches!(code, OpCode::Pop)));
    assert_eq!(scopes.end_scope().len(), 1);
    assert_eq!(scopes.find_variable(&"a".to_string()), Ok(1));
    assert_eq!(scopes.end_scope().len(), 2);
    assert_eq!(scopes.depth, 0);
    assert_eq!(scopes.variables.len(), 1);
}

#[test]
fn reports_say_where_and_at_what() {
    assert_eq!(Lox::report((3, 14), "", "m"), "[ 3, 14] LoxError: m");
    assert_eq!(Lox::report((12, 5), "at 'x'", "m"), "[12,  5] LoxError at 'x': m");
    assert_eq!(Lox::report((0, 0), "", "m"), "[----------------] LoxError: m");
    assert_eq!(Lox::report((0, 0), "at end", "m"), "[----------------] LoxError at end: m");
    assert_eq!(Lox::report((123, 1000), "", ""), "[123, 1000] LoxError: ");
    assert_eq!(
        Lox::error(&LoxError::IoError { msg: "no such file".to_string() }),
        "[----------------] LoxError: no such file"
    );
    assert_eq!(
        Lox::error(&LoxError::ParseTokenError { position: (2, 0), msg: "Unexpected character." }),
        "[ 2,  0] LoxError: Unexpected character."
    );
    assert_eq!(
        Lox::error(&LoxError::ParseError {
            position: (4, 2),
            lexeme: "".to_string(),
            token_type: TokenType::Eof,
            msg: "Expect expression.".to_string()
        }),
        "[ 4,  2] LoxError at end: Expect expression."
    );
    assert_eq!(
        Lox::error(&LoxError::UnexpectedError { message: "Stack underflow.".to_string() }),
        "[----------------] LoxError: Stack underflow."
    );
    assert_eq!(Lox::token_error(&token(TokenType::Plus, "+", 7), "m"), "[ 1,  7] LoxError at '+': m");
    assert_eq!(Lox::token_error(&token(TokenType::Eof, "", 9), "m"), "[ 1,  9] LoxError at end: m");
    assert_eq!(
        Lox::error(&LoxError::create_runtime_error(&token(TokenType::Plus, "+", 7), "m".to_string())),
        "[ 1,  7] LoxError at '+': m"
    );
}
