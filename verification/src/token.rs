//! Tokens, and the table of reserved words.

use vstd::prelude::*;
use vstd::string::*;
use crate::error::Position;
use crate::text::str_equal;
use crate::types::{Literal, LiteralView, TokenType};

verus! {

#[derive(Debug)]
pub struct Token {
    pub token_type: TokenType,
    /// The text of the token as it stands in the source.
    pub lexeme: String,
    /// The value of a string or number token.
    pub literal: Option<Literal>,
    /// Line and column of the token's first character.
    pub position: Position,
}

/// A `Token` with its texts as sequences of characters.
pub struct TokenView {
    pub token_type: TokenType,
    pub lexeme: Seq<char>,
    pub literal: Option<LiteralView>,
    pub position: Position,
}

impl View for Token {
    type V = TokenView;

    open spec fn view(&self) -> TokenView {
        TokenView {
            token_type: self.token_type,
            lexeme: self.lexeme@,
            literal: match self.literal {
                Some(literal) => Some(literal@),
                None => None,
            },
            position: self.position,
        }
    }
}

/// The views of a list of tokens.
pub open spec fn token_views(tokens: Seq<Token>) -> Seq<TokenView> {
    tokens.map_values(|token: Token| token@)
}

impl Token {
    pub fn new(token_type: TokenType, lexeme: String, position: Position) -> (res: Self)
        ensures
            res.token_type == token_type,
            res.lexeme == lexeme,
            res.literal is None,
            res.position == position,
    {
        Token { token_type, lexeme, literal: None, position }
    }

    pub fn with_literal(
        token_type: TokenType,
        lexeme: String,
        literal: Option<Literal>,
        position: Position,
    ) -> (res: Self)
        ensures
            res.token_type == token_type,
            res.lexeme == lexeme,
            res.literal == literal,
            res.position == position,
    {
        Token { token_type, lexeme, literal, position }
    }
}

impl Token {
    /// The token as it is written: its lexeme.
    pub fn to_text(&self) -> (res: String)
        ensures
            res@ == self.lexeme@,
    {
        self.lexeme.clone()
    }
}

impl Clone for Token {
    fn clone(&self) -> (res: Self)
        ensures
            res == *self,
    {
        Token {
            token_type: self.token_type,
            lexeme: self.lexeme.clone(),
            literal: match &self.literal {
                Some(l) => Some(l.clone()),
                None => None,
            },
            position: self.position,
        }
    }
}

/// The reserved word, or the modifier, that `text` spells, if it spells one.
pub open spec fn spec_keyword(text: Seq<char>) -> Option<TokenType> {
    if text == "and"@ {
        Some(TokenType::And)
    } else if text == "class"@ {
        Some(TokenType::Class)
    } else if text == "else"@ {
        Some(TokenType::Else)
    } else if text == "false"@ {
        Some(TokenType::False)
    } else if text == "for"@ {
        Some(TokenType::For)
    } else if text == "func"@ {
        Some(TokenType::Func)
    } else if text == "if"@ {
        Some(TokenType::If)
    } else if text == "nil"@ {
        Some(TokenType::Nil)
    } else if text == "or"@ {
        Some(TokenType::Or)
    } else if text == "print"@ {
        Some(TokenType::Print)
    } else if text == "return"@ {
        Some(TokenType::Return)
    } else if text == "super"@ {
        Some(TokenType::Super)
    } else if text == "self"@ {
        Some(TokenType::RSelf)
    } else if text == "true"@ {
        Some(TokenType::True)
    } else if text == "let"@ {
        Some(TokenType::Let)
    } else if text == "while"@ {
        Some(TokenType::While)
    } else if text == "continue"@ {
        Some(TokenType::Continue)
    } else if text == "break"@ {
        Some(TokenType::Break)
    } else if text == "#[static]"@ {
        Some(TokenType::Static)
    } else if text == "extend"@ {
        Some(TokenType::Extend)
    } else {
        None
    }
}

/// Looks `text` up in the table of reserved words and modifiers.
pub fn keyword(text: &str) -> (res: Option<TokenType>)
    ensures
        res == spec_keyword(text@),
{
    if str_equal(text, "and") {
        Some(TokenType::And)
    } else if str_equal(text, "class") {
        Some(TokenType::Class)
    } else if str_equal(text, "else") {
        Some(TokenType::Else)
    } else if str_equal(text, "false") {
        Some(TokenType::False)
    } else if str_equal(text, "for") {
        Some(TokenType::For)
    } else if str_equal(text, "func") {
        Some(TokenType::Func)
    } else if str_equal(text, "if") {
        Some(TokenType::If)
    } else if str_equal(text, "nil") {
        Some(TokenType::Nil)
    } else if str_equal(text, "or") {
        Some(TokenType::Or)
    } else if str_equal(text, "print") {
        Some(TokenType::Print)
    } else if str_equal(text, "return") {
        Some(TokenType::Return)
    } else if str_equal(text, "super") {
        Some(TokenType::Super)
    } else if str_equal(text, "self") {
        Some(TokenType::RSelf)
    } else if str_equal(text, "true") {
        Some(TokenType::True)
    } else if str_equal(text, "let") {
        Some(TokenType::Let)
    } else if str_equal(text, "while") {
        Some(TokenType::While)
    } else if str_equal(text, "continue") {
        Some(TokenType::Continue)
    } else if str_equal(text, "break") {
        Some(TokenType::Break)
    } else if str_equal(text, "#[static]") {
        Some(TokenType::Static)
    } else if str_equal(text, "extend") {
        Some(TokenType::Extend)
    } else {
        None
    }
}

} // verus!
