use rlox::error::LoxError;
use rlox::scanner::Scanner;
use rlox::spelling::spell;
use rlox::token::{keyword, Token};
use rlox::types::{Literal, TokenType};

fn scan(source: &str) -> (Vec<Token>, Vec<LoxError>) {
    let mut scanner = Scanner::new(source.to_string());
    let errors = match scanner.scan_tokens() {
        Ok(()) => Vec::new(),
        Err(errors) => errors,
    };
    (scanner.into_tokens(), errors)
}

fn kinds(source: &str) -> Vec<TokenType> {
    scan(source).0.iter().map(|token| token.token_type).collect()
}

fn lexemes(source: &str) -> Vec<String> {
    scan(source).0.iter().map(|token| token.lexeme.clone()).collect()
}

fn messages(errors: &[LoxError]) -> Vec<(usize, usize, String)> {
    errors
        .iter()
        .map(|error| match error {
            LoxError::ParseTokenError { position, msg } => (position.0, position.1, msg.to_string()),
            other => panic!("unexpected error: {:?}", other),
        })
        .collect()
}

#[test]
fn empty_source_gives_only_the_end_token() {
    let (tokens, errors) = scan("");
    assert!(errors.is_empty());
    assert_eq!(tokens.len(), 1);
    assert_eq!(tokens[0].token_type, TokenType::Eof);
    assert_eq!(tokens[0].lexeme, "");
    assert_eq!(tokens[0].position, (1, 0));
}

#[test]
fn single_character_tokens() {
    assert_eq!(
        kinds("? : ( ) { } , . ; + - * / %"),
        vec![
            TokenType::QuestionMark,
            TokenType::Colon,
            TokenType::LeftParen,
            TokenType::RightParen,
            TokenType::LeftBrace,
            TokenType::RightBrace,
            TokenType::Comma,
            TokenType::Dot,
            TokenType::Semicolon,
            TokenType::Plus,
            TokenType::Minus,
            TokenType::Star,
            TokenType::Slash,
            TokenType::Mod,
            TokenType::Eof,
        ]
    );
}

#[test]
fn the_longer_operator_wins() {
    assert_eq!(
        kinds("!= == <= >= += -= *= /= %= ! = < >"),
        vec![
            TokenType::BangEqual,
            TokenType::EqualEqual,
            TokenType::LessEqual,
            TokenType::GreaterEqual,
            TokenType::PlusEqual,
            TokenType::MinusEqual,
            TokenType::StarEqual,
            TokenType::SlashEqual,
            TokenType::ModEqual,
            TokenType::Bang,
            TokenType::Equal,
            TokenType::Less,
            TokenType::Greater,
            TokenType::Eof,
        ]
    );
    assert_eq!(lexemes("a===b"), vec!["a", "==", "=", "b", ""]);
    assert_eq!(lexemes("a<==b"), vec!["a", "<=", "=", "b", ""]);
}

#[test]
fn keywords_and_identifiers() {
    assert_eq!(
        kinds("and class else false for func if nil or print return super self true let while continue break extend"),
        vec![
            TokenType::And,
            TokenType::Class,
            TokenType::Else,
            TokenType::False,
            TokenType::For,
            TokenType::Func,
            TokenType::If,
            TokenType::Nil,
            TokenType::Or,
            TokenType::Print,
            TokenType::Return,
            TokenType::Super,
            TokenType::RSelf,
            TokenType::True,
            TokenType::Let,
            TokenType::While,
            TokenType::Continue,
            TokenType::Break,
            TokenType::Extend,
            TokenType::Eof,
        ]
    );
    assert_eq!(
        kinds("andy _x x1 For"),
        vec![
            TokenType::Identifier,
            TokenType::Identifier,
            TokenType::Identifier,
            TokenType::Identifier,
            TokenType::Eof
        ]
    );
    assert_eq!(keyword("while"), Some(TokenType::While));
    assert_eq!(keyword("#[static]"), Some(TokenType::Static));
    assert_eq!(keyword("whilst"), None);
}

#[test]
fn positions_count_lines_from_one_and_columns_from_zero() {
    let (tokens, _) = scan("let a = 1;\n  print a;\n");
    let positions: Vec<(usize, usize)> = tokens.iter().map(|token| token.position).collect();
    assert_eq!(
        positions,
        vec![(1, 0), (1, 4), (1, 6), (1, 8), (1, 9), (2, 2), (2, 8), (2, 9), (3, 0)]
    );
}

#[test]
fn numbers_are_digits_with_an_optional_fraction() {
    assert_eq!(lexemes("12 3.25 4. .5 6.x"), vec!["12", "3.25", "4", ".", ".", "5", "6", ".", "x", ""]);
    let (tokens, _) = scan("3.25");
    assert_eq!(tokens[0].token_type, TokenType::Number);
    assert!(tokens[0].literal.is_none());
}

#[test]
fn strings_hold_the_text_between_the_quotes() {
    let (tokens, errors) = scan("\"hi there\" \"\"");
    assert!(errors.is_empty());
    assert_eq!(tokens[0].token_type, TokenType::String);
    assert_eq!(tokens[0].lexeme, "\"hi there\"");
    match &tokens[0].literal {
        Some(Literal::String(text)) => assert_eq!(text, "hi there"),
        other => panic!("unexpected literal: {:?}", other),
    }
    match &tokens[1].literal {
        Some(Literal::String(text)) => assert_eq!(text, ""),
        other => panic!("unexpected literal: {:?}", other),
    }
}

#[test]
fn a_string_may_run_over_lines() {
    let (tokens, errors) = scan("x \"a\nb\" y");
    assert!(errors.is_empty());
    assert_eq!(tokens[1].position, (1, 2));
    match &tokens[1].literal {
        Some(Literal::String(text)) => assert_eq!(text, "a\nb"),
        other => panic!("unexpected literal: {:?}", other),
    }
    assert_eq!(tokens[2].lexeme, "y");
    assert_eq!(tokens[2].position, (2, 3));
}

#[test]
fn comments_run_to_the_end_of_the_line() {
    assert_eq!(lexemes("a // b c\nd // e"), vec!["a", "d", ""]);
    assert_eq!(lexemes("a / b"), vec!["a", "/", "b", ""]);
    assert_eq!(lexemes("//"), vec![""]);
}

#[test]
fn an_unknown_character_is_an_error_and_scanning_goes_on() {
    let (tokens, errors) = scan("a @ b\n$");
    let found: Vec<String> = tokens.iter().map(|token| token.lexeme.clone()).collect();
    assert_eq!(found, vec!["a", "b", ""]);
    assert_eq!(
        messages(&errors),
        vec![
            (1, 2, "Unexpected character.".to_string()),
            (2, 0, "Unexpected character.".to_string())
        ]
    );
}

#[test]
fn an_unterminated_string_is_an_error() {
    let (tokens, errors) = scan("a \"bc");
    assert_eq!(tokens.len(), 2);
    assert_eq!(tokens[1].token_type, TokenType::Eof);
    assert_eq!(messages(&errors), vec![(1, 2, "Unterminated String.".to_string())]);
}

#[test]
fn modifiers() {
    let (tokens, errors) = scan("#[static] func");
    assert!(errors.is_empty());
    assert_eq!(tokens[0].token_type, TokenType::Static);
    assert_eq!(tokens[0].lexeme, "#[static]");
    assert_eq!(tokens[1].token_type, TokenType::Func);
    let (tokens, errors) = scan("#[other] x");
    assert_eq!(messages(&errors), vec![(1, 0, "Unknown modifier".to_string())]);
    assert_eq!(tokens[0].lexeme, "x");
    let (_, errors) = scan("x #[static");
    assert_eq!(messages(&errors), vec![(1, 2, "Unterminated Modifier.".to_string())]);
    let (_, errors) = scan("#");
    assert_eq!(messages(&errors), vec![(1, 0, "Unterminated Modifier.".to_string())]);
}

#[test]
fn tokens_are_written_out_with_single_spaces() {
    assert_eq!(spell(&scan("").0), "");
    assert_eq!(spell(&scan("  a+b ").0), "a + b ");
    assert_eq!(spell(&Vec::new()), "");
}

#[test]
fn scan_token_takes_one_piece_at_a_time() {
    let mut scanner = Scanner::new("ab  +".to_string());
    assert!(scanner.scan_token().is_ok());
    assert_eq!(scanner.tokens().len(), 1);
    assert!(scanner.scan_token().is_ok());
    assert_eq!(scanner.tokens().len(), 1);
    assert!(scanner.scan_token().is_ok());
    assert_eq!(scanner.tokens().len(), 1);
    assert!(scanner.scan_token().is_ok());
    assert_eq!(scanner.tokens().len(), 2);
    assert_eq!(scanner.tokens()[1].token_type, TokenType::Plus);
}

#[test]
fn appended_source_is_scanned_from_where_scanning_stopped() {
    let mut scanner = Scanner::new("a\n".to_string());
    assert!(scanner.scan_tokens().is_ok());
    scanner.append_source("b".to_string());
    assert!(scanner.scan_tokens().is_ok());
    let found: Vec<(String, (usize, usize))> = scanner
        .tokens()
        .iter()
        .map(|token| (token.lexeme.clone(), token.position))
        .collect();
    assert_eq!(
        found,
        vec![
            ("a".to_string(), (1, 0)),
            ("".to_string(), (2, 0)),
            ("b".to_string(), (2, 0)),
            ("".to_string(), (2, 1))
        ]
    );
}

#[test]
fn every_character_outside_blanks_lies_in_one_token() {
    let source = "let x = 10; // ten\nprint x + \"a b\";";
    let (tokens, errors) = scan(source);
    assert!(errors.is_empty());
    let lines: Vec<&str> = source.split('\n').collect();
    let chars: Vec<char> = source.chars().collect();
    let mut covered = vec![0usize; chars.len()];
    for token in &tokens[..tokens.len() - 1] {
        let (row, column) = token.position;
        let start: usize = lines[..row - 1].iter().map(|line| line.chars().count() + 1).sum::<usize>() + column;
        let text: String = chars[start..start + token.lexeme.chars().count()].iter().collect();
        assert_eq!(text, token.lexeme);
        for slot in covered[start..start + token.lexeme.chars().count()].iter_mut() {
            *slot += 1;
        }
    }
    let comment = source.find("//").unwrap();
    let line_end = source.find('\n').unwrap();
    let quote = source.find('"').unwrap();
    let unquote = source.rfind('"').unwrap();
    for (at, c) in chars.iter().enumerate() {
        let in_string = quote <= at && at <= unquote;
        let blank = !in_string && (c.is_whitespace() || (comment <= at && at < line_end));
        assert_eq!(covered[at], if blank { 0 } else { 1 }, "at {}", at);
    }
}

#[test]
fn lexemes_joined_by_spaces_scan_to_the_same_tokens() {
    let source = "func f(a,b){return a>=b?a:b;}//max\nprint f(1.5,2)+\"x y\";let s=nil;s+=1;#[static]";
    let (tokens, errors) = scan(source);
    assert!(errors.is_empty());
    let joined: Vec<String> = tokens.iter().map(|token| token.lexeme.clone()).collect();
    assert_eq!(spell(&tokens), joined.join(" "));
    let (again, errors) = scan(&spell(&tokens));
    assert!(errors.is_empty());
    assert_eq!(again.len(), tokens.len());
    for (first, second) in tokens.iter().zip(again.iter()) {
        assert_eq!(first.token_type, second.token_type);
        assert_eq!(first.lexeme, second.lexeme);
        assert_eq!(format!("{:?}", first.literal), format!("{:?}", second.literal));
    }
}
