//! The errors every phase reports.

use vstd::prelude::*;
use crate::token::Token;
use crate::types::TokenType;

verus! {

/// A line and a column: lines count from one, columns from zero. `(0, 0)`
/// marks an error that has no place in the source.
pub type Position = (usize, usize);

#[derive(Debug)]
#[allow(inconsistent_fields)]
pub enum LoxError {
    /// The source could not be read.
    IoError { msg: String },
    /// The scanner met text that is no token.
    ParseTokenError { position: Position, msg: &'static str },
    /// The parser or the static checks met a token where it may not stand.
    ParseError { position: Position, lexeme: String, token_type: TokenType, msg: String },
    /// An instruction could not be carried out.
    RuntimeError { position: Position, lexeme: String, msg: String },
    /// An internal invariant did not hold.
    UnexpectedError { message: String },
}

/// A `LoxError` with its texts as sequences of characters.
pub enum ErrorView {
    Io { msg: Seq<char> },
    ParseToken { position: Position, msg: Seq<char> },
    Parse { position: Position, lexeme: Seq<char>, token_type: TokenType, msg: Seq<char> },
    Runtime { position: Position, lexeme: Seq<char>, msg: Seq<char> },
    Unexpected { message: Seq<char> },
}

impl View for LoxError {
    type V = ErrorView;

    open spec fn view(&self) -> ErrorView {
        match *self {
            LoxError::IoError { msg } => ErrorView::Io { msg: msg@ },
            LoxError::ParseTokenError { position, msg } => ErrorView::ParseToken {
                position,
                msg: msg@,
            },
            LoxError::ParseError { position, lexeme, token_type, msg } => ErrorView::Parse {
                position,
                lexeme: lexeme@,
                token_type,
                msg: msg@,
            },
            LoxError::RuntimeError { position, lexeme, msg } => ErrorView::Runtime {
                position,
                lexeme: lexeme@,
                msg: msg@,
            },
            LoxError::UnexpectedError { message } => ErrorView::Unexpected { message: message@ },
        }
    }
}

/// The views of a list of errors.
pub open spec fn error_views(errors: Seq<LoxError>) -> Seq<ErrorView> {
    errors.map_values(|error: LoxError| error@)
}

impl LoxError {
    /// A runtime error placed at `token`.
    pub fn create_runtime_error(token: &Token, msg: String) -> (res: Self)
        ensures
            res@ == (ErrorView::Runtime {
                position: token.position,
                lexeme: token.lexeme@,
                msg: msg@,
            }),
    {
        LoxError::RuntimeError { position: token.position, lexeme: token.lexeme.clone(), msg }
    }

    /// An error of the parser or the static checks placed at `token`.
    pub fn create_parse_error(token: &Token, msg: String) -> (res: Self)
        ensures
            res@ == (ErrorView::Parse {
                position: token.position,
                lexeme: token.lexeme@,
                token_type: token.token_type,
                msg: msg@,
            }),
    {
        LoxError::ParseError {
            position: token.position,
            lexeme: token.lexeme.clone(),
            token_type: token.token_type,
            msg,
        }
    }

    /// An internal error with the given message.
    pub fn unexpected(message: &str) -> (res: Self)
        ensures
            res@ == (ErrorView::Unexpected { message: message@ }),
    {
        LoxError::UnexpectedError { message: String::from_str(message) }
    }
}

} // verus!
