use rlox::chunk::Chunk;
use rlox::opcode::OpCode;
use rlox::parser::Parser;
use rlox::scanner::Scanner;
use rlox::stmt::Statement;
use rlox::text::{blank, pad_left, pad_right, str_equal, to_chars, usize_to_string, usize_to_string_width2};
use rlox::token::Token;
use rlox::types::{FuncType, Function, Literal, TokenType};
use std::rc::Rc;

fn shown(source: &str) -> String {
    let mut scanner = Scanner::new(format!("{};", source));
    assert!(scanner.scan_tokens().is_ok());
    let mut tokens = scanner.into_tokens();
    for token in tokens.iter_mut() {
        if token.token_type == TokenType::Number {
            let value: f64 = token.lexeme.parse().unwrap();
            token.literal = Some(Literal::Number(value.to_bits()));
        }
    }
    let mut list = Parser::new(tokens).parse().ok().unwrap();
    match list.remove(0) {
        Statement::ExpressionStatement { expression, .. } => expression.to_text(),
        other => panic!("unexpected statement: {:?}", other),
    }
}

#[test]
fn expressions_are_written_as_in_the_language() {
    assert_eq!(shown("a=1+2*3"), "a = 1 + 2 * 3");
    assert_eq!(shown("(a+b)*-c"), "(a + b) * -c");
    assert_eq!(shown("f(1,\"s\",g())"), "f(1, s, g())");
    assert_eq!(shown("a?b:c"), "a ? b : c");
    assert_eq!(shown("a and b or !c"), "a and b or !c");
    assert_eq!(shown("a+=1.50"), "a += 1.50");
    assert_eq!(shown("(func(x,y,z){return x;})"), "(func(x, y, z) { ... })");
    assert_eq!(shown("(func(){})(nil,true)"), "(func() { ... })(nil, true)");
}

#[test]
fn instructions_are_written_in_columns() {
    assert_eq!(OpCode::Return.to_text(""), format!("{:<24}", "RETURN"));
    assert_eq!(OpCode::Eq.to_text("ignored"), format!("{:<24}", "EQUAL"));
    assert_eq!(
        OpCode::DefineGlobal("x".to_string()).to_text(""),
        format!("{:<15} {:>8}", "DEFINE_GLOBAL", "x")
    );
    assert_eq!(
        OpCode::GetGlobal("a_long_name".to_string()).to_text(""),
        format!("{:<15} {:>8}", "GET_GLOBAL", "a_long_name")
    );
    assert_eq!(OpCode::JumpIfFalse(12).to_text(""), format!("{:<15} {:>8}", "JUMP_IF_FALSE", 12));
    assert_eq!(OpCode::ModILocal(3).to_text(""), format!("{:<15} {:>8}", "MOD_I_LOCAL", 3));
    assert_eq!(OpCode::Call(0).to_text(""), format!("{:<15} {:>8}", "CALL", 0));
    assert_eq!(
        OpCode::Load(Literal::Number(1.5f64.to_bits())).to_text("1.5"),
        format!("LOAD{:>20}", "1.5")
    );
    assert_eq!(OpCode::Load(Literal::Nil).to_text("ignored"), format!("LOAD{:>20}", "nil"));
    assert_eq!(
        OpCode::Load(Literal::String("a text of more than twenty characters".to_string())).to_text(""),
        "LOADa text of more than twenty characters"
    );
    let function = Rc::new(Function::new("f".to_string(), Chunk::new(), 0, FuncType::Normal));
    assert_eq!(OpCode::Load(Literal::Function(function)).to_text(""), format!("LOAD{:>20}", "<func f>"));
    assert_eq!(OpCode::Print.name(), "PRINT");
    assert_eq!(OpCode::Print.operand(), None);
    assert_eq!(OpCode::SetLocal(7).operand(), Some("7".to_string()));
}

#[test]
fn tokens_and_functions_are_written_by_name() {
    assert_eq!(Token::new(TokenType::Plus, "+".to_string(), (1, 2)).to_text(), "+");
    let function = Function::new("add".to_string(), Chunk::new(), 2, FuncType::Normal);
    assert_eq!(function.to_text(), "add( .. )");
}

#[test]
fn numbers_are_written_in_decimal() {
    for n in [0usize, 1, 9, 10, 11, 99, 100, 12345, usize::MAX] {
        assert_eq!(usize_to_string(n), n.to_string());
        assert_eq!(usize_to_string_width2(n), format!("{:2}", n));
    }
}

#[test]
fn texts_are_filled_with_spaces() {
    assert_eq!(blank(0), "");
    assert_eq!(blank(3), "   ");
    assert_eq!(pad_right("ab", 5), "ab   ");
    assert_eq!(pad_right("abcde", 5), "abcde");
    assert_eq!(pad_right("abcdef", 5), "abcdef");
    assert_eq!(pad_left("ab", 5), "   ab");
    assert_eq!(pad_left("abcdef", 5), "abcdef");
    assert_eq!(pad_left("é", 3), "  é");
}

#[test]
fn texts_are_compared_and_taken_apart() {
    assert!(str_equal("", ""));
    assert!(str_equal("abc", "abc"));
    assert!(!str_equal("abc", "abd"));
    assert!(!str_equal("abc", "ab"));
    assert_eq!(to_chars("aé\n"), vec!['a', 'é', '\n']);
    assert_eq!(to_chars(""), Vec::<char>::new());
}
