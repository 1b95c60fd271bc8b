//! The small closed enumerations shared by every phase: token kinds and the
//! kinds of function and class a piece of source can stand in.

use vstd::prelude::*;
use vstd::string::*;
use std::rc::Rc;
use crate::chunk::Chunk;
use crate::error::{ErrorView, LoxError};
use crate::number::spec_num_eq;
use crate::number::num_eq;
use crate::number::is_nan;
use crate::text::decimal;
use crate::text::usize_to_string;

verus! {

/// What sort of callable a body of statements belongs to.
#[derive(Debug, Clone, Copy, PartialEq, Eq, Structural)]
pub enum FuncType {
    Main,
    Normal,
    Method,
    Lambda,
    StaticMethod,
    Initializer,
}

/// Whether the code being checked sits inside a class body.
#[derive(Debug, Clone, Copy, PartialEq, Eq, Structural)]
pub enum ClassType {
    Outside,
    Class,
}

/// Every kind of token the scanner can produce.
#[derive(Debug, Copy, Clone, PartialEq, Eq, Hash, Structural)]
pub enum TokenType {
    // single characters
    Colon,
    LeftParen,
    RightParen,
    LeftBrace,
    RightBrace,
    Comma,
    Dot,
    Minus,
    Plus,
    QuestionMark,
    Semicolon,
    Slash,
    Star,
    Mod,
    // one or two characters
    Bang,
    BangEqual,
    Equal,
    EqualEqual,
    Greater,
    GreaterEqual,
    Less,
    LessEqual,
    PlusEqual,
    MinusEqual,
    StarEqual,
    SlashEqual,
    ModEqual,
    // literals
    Identifier,
    String,
    Number,
    // keywords
    And,
    Class,
    Else,
    False,
    Func,
    For,
    If,
    Nil,
    Or,
    Print,
    Return,
    Super,
    RSelf,
    True,
    Let,
    While,
    Continue,
    Break,
    Static,
    Extend,
    Eof,
}

impl FuncType {
    /// The word used for this kind of function in messages.
    pub open spec fn spec_label(self) -> Seq<char> {
        match self {
            FuncType::Normal => "Function"@,
            FuncType::Method | FuncType::Initializer => "Method"@,
            FuncType::Lambda => "Lambda"@,
            FuncType::Main => ""@,
            FuncType::StaticMethod => "StaticMethod"@,
        }
    }

    /// The word used for this kind of function in messages.
    pub fn label(&self) -> (res: &'static str)
        ensures
            res@ == self.spec_label(),
    {
        match self {
            FuncType::Normal => "Function",
            FuncType::Method | FuncType::Initializer => "Method",
            FuncType::Lambda => "Lambda",
            FuncType::Main => "",
            FuncType::StaticMethod => "StaticMethod",
        }
    }
}

impl ClassType {
    /// The word used for this kind of class context in messages.
    pub open spec fn spec_label(self) -> Seq<char> {
        match self {
            ClassType::Outside => ""@,
            ClassType::Class => "Class"@,
        }
    }

    /// The word used for this kind of class context in messages.
    pub fn label(&self) -> (res: &'static str)
        ensures
            res@ == self.spec_label(),
    {
        match self {
            ClassType::Outside => "",
            ClassType::Class => "Class",
        }
    }
}


/// A value of the language: what a constant in the code holds and what the
/// machine keeps on its stack and in its variables.
#[derive(Debug)]
pub enum Literal {
    String(String),
    /// An IEEE-754 binary64 number, by its bit pattern.
    Number(u64),
    Bool(bool),
    Function(Rc<Function>),
    Nil,
}

/// A compiled function: its code, how many arguments it takes and what kind
/// of function it is.
#[derive(Debug)]
pub struct Function {
    pub name: String,
    pub chunk: Chunk,
    pub arity: usize,
    pub func_type: FuncType,
}

/// A `Literal` with its text as a sequence of characters.
pub enum LiteralView {
    String(Seq<char>),
    Number(u64),
    Bool(bool),
    Function(Rc<Function>),
    Nil,
}

impl View for Literal {
    type V = LiteralView;

    open spec fn view(&self) -> LiteralView {
        match *self {
            Literal::String(s) => LiteralView::String(s@),
            Literal::Number(n) => LiteralView::Number(n),
            Literal::Bool(b) => LiteralView::Bool(b),
            Literal::Function(f) => LiteralView::Function(f),
            Literal::Nil => LiteralView::Nil,
        }
    }
}

/// Another handle to the same function.
///
/// Trusted: `Rc::clone` of the standard library, which returns a pointer to
/// the allocation its argument points to; the function behind both handles
/// is one and the same.
#[verifier::external_body]
pub(crate) fn share_function(function: &Rc<Function>) -> (res: Rc<Function>)
    ensures
        res == *function,
{
    Rc::clone(function)
}

impl Clone for Literal {
    fn clone(&self) -> (res: Self)
        ensures
            res == *self,
    {
        match self {
            Literal::String(s) => Literal::String(s.clone()),
            Literal::Number(n) => Literal::Number(*n),
            Literal::Bool(b) => Literal::Bool(*b),
            Literal::Function(f) => Literal::Function(share_function(f)),
            Literal::Nil => Literal::Nil,
        }
    }
}

impl LiteralView {
    /// `nil` and `false` are falsy; every other value is truthy.
    pub open spec fn truthy(self) -> bool {
        match self {
            LiteralView::Bool(b) => b,
            LiteralView::Nil => false,
            _ => true,
        }
    }

    /// Equality of values: `nil` equals `nil`; booleans, numbers and strings
    /// are compared by value, numbers as IEEE-754 prescribes; functions are
    /// equal when name and arity agree; values of different kinds are never
    /// equal.
    pub open spec fn equals(self, other: LiteralView) -> bool {
        match (self, other) {
            (LiteralView::Nil, LiteralView::Nil) => true,
            (LiteralView::Bool(a), LiteralView::Bool(b)) => a == b,
            (LiteralView::Number(a), LiteralView::Number(b)) => spec_num_eq(a, b),
            (LiteralView::String(a), LiteralView::String(b)) => a == b,
            (LiteralView::Function(a), LiteralView::Function(b)) => a.name@ == b.name@ && a.arity
                == b.arity,
            _ => false,
        }
    }

    /// The text that `print` writes for a value that is not a number.
    pub open spec fn text(self) -> Seq<char>
        recommends
            !(self is Number),
    {
        match self {
            LiteralView::String(s) => s,
            LiteralView::Number(_) => Seq::empty(),
            LiteralView::Bool(b) => if b {
                "true"@
            } else {
                "false"@
            },
            LiteralView::Nil => "nil"@,
            LiteralView::Function(f) => if f.func_type == FuncType::Lambda {
                "<func Lambda>"@
            } else {
                "<func "@ + f.name@ + ">"@
            },
        }
    }
}

impl Literal {
    pub fn get_num(&self) -> (res: Result<u64, LoxError>)
        ensures
            match res {
                Ok(n) => self@ == LiteralView::Number(n),
                Err(e) => !(self@ is Number) && e@ == (ErrorView::Unexpected {
                    message: "Expect a number!"@,
                }),
            },
    {
        match self {
            Literal::Number(n) => Ok(*n),
            _ => Err(LoxError::unexpected("Expect a number!")),
        }
    }

    pub fn is_num(&self) -> (res: bool)
        ensures
            res == (self@ is Number),
    {
        match self {
            Literal::Number(_) => true,
            _ => false,
        }
    }

    pub fn get_string(&self) -> (res: Result<String, LoxError>)
        ensures
            match res {
                Ok(s) => self@ == LiteralView::String(s@),
                Err(e) => !(self@ is String) && e@ == (ErrorView::Unexpected {
                    message: "Expect a string!"@,
                }),
            },
    {
        match self {
            Literal::String(s) => Ok(s.clone()),
            _ => Err(LoxError::unexpected("Expect a string!")),
        }
    }

    pub fn is_string(&self) -> (res: bool)
        ensures
            res == (self@ is String),
    {
        match self {
            Literal::String(_) => true,
            _ => false,
        }
    }

    pub fn get_bool(&self) -> (res: Result<bool, LoxError>)
        ensures
            match res {
                Ok(b) => self@ == LiteralView::Bool(b),
                Err(e) => !(self@ is Bool) && e@ == (ErrorView::Unexpected {
                    message: "Expect a bool!"@,
                }),
            },
    {
        match self {
            Literal::Bool(b) => Ok(*b),
            _ => Err(LoxError::unexpected("Expect a bool!")),
        }
    }

    pub fn is_bool(&self) -> (res: bool)
        ensures
            res == (self@ is Bool),
    {
        match self {
            Literal::Bool(_) => true,
            _ => false,
        }
    }

    /// Whether the value counts as true in a condition.
    pub fn is_true(&self) -> (res: bool)
        ensures
            res == self@.truthy(),
    {
        match self {
            Literal::Bool(b) => *b,
            Literal::Nil => false,
            _ => true,
        }
    }

    pub fn get_function(&self) -> (res: Result<Rc<Function>, LoxError>)
        ensures
            match res {
                Ok(f) => self@ == LiteralView::Function(f),
                Err(e) => !(self@ is Function) && e@ == (ErrorView::Unexpected {
                    message: "Expect a callable type(Function, Lambda, Class)!"@,
                }),
            },
    {
        match self {
            Literal::Function(f) => Ok(share_function(f)),
            _ => Err(LoxError::unexpected("Expect a callable type(Function, Lambda, Class)!")),
        }
    }

    /// Whether the two values are equal as the language compares them.
    pub fn equals(&self, other: &Literal) -> (res: bool)
        ensures
            res == self@.equals(other@),
    {
        match self {
            Literal::Nil => match other {
                Literal::Nil => true,
                _ => false,
            },
            Literal::Bool(a) => match other {
                Literal::Bool(b) => *a == *b,
                _ => false,
            },
            Literal::Number(a) => match other {
                Literal::Number(b) => num_eq(*a, *b),
                _ => false,
            },
            Literal::String(a) => match other {
                Literal::String(b) => *a == *b,
                _ => false,
            },
            Literal::Function(a) => match other {
                Literal::Function(b) => a.name == b.name && a.arity == b.arity,
                _ => false,
            },
        }
    }

    /// The text that `print` writes for the value, or `None` for a number,
    /// whose decimal text only floating-point arithmetic can produce.
    pub fn to_text(&self) -> (res: Option<String>)
        ensures
            match res {
                Some(s) => !(self@ is Number) && s@ == self@.text(),
                None => self@ is Number,
            },
    {
        match self {
            Literal::String(s) => Some(s.clone()),
            Literal::Number(_) => None,
            Literal::Bool(b) => if *b {
                Some(String::from_str("true"))
            } else {
                Some(String::from_str("false"))
            },
            Literal::Nil => Some(String::from_str("nil")),
            Literal::Function(f) => match f.func_type {
                FuncType::Lambda => Some(String::from_str("<func Lambda>")),
                _ => Some(
                    String::from_str("<func ").concat(f.name.as_str()).concat(">"),
                ),
            },
        }
    }
}

/// A value equals itself unless it is a NaN.
pub proof fn equals_reflexive(x: LiteralView)
    requires
        !(x matches LiteralView::Number(n) && is_nan(n)),
    ensures
        x.equals(x),
{
}

impl Function {
    pub fn new(name: String, chunk: Chunk, arity: usize, func_type: FuncType) -> (res: Self)
        ensures
            res.name == name,
            res.chunk == chunk,
            res.arity == arity,
            res.func_type == func_type,
    {
        Function { name, chunk, arity, func_type }
    }

    /// The function as it is written in listings: its name and a
    /// parameter list left open.
    pub fn to_text(&self) -> (res: String)
        ensures
            res@ == self.name@ + "( .. )"@,
    {
        self.name.clone().concat("( .. )")
    }

    /// The name given to the `id`-th function written without a name.
    pub open spec fn spec_lambda_name(id: nat) -> Seq<char> {
        "$-"@ + decimal(id)
    }

    /// The name given to the `id`-th function written without a name.
    pub fn lambda_name(id: usize) -> (res: String)
        ensures
            res@ == Self::spec_lambda_name(id as nat),
    {
        String::from_str("$-").concat(usize_to_string(id).as_str())
    }
}

} // verus!
