//! A small dynamic scripting language: scanner, parser, static checks,
//! single-pass bytecode compiler and stack machine.

pub mod ast_printer;
pub mod bytecode;
pub mod chunk;
pub mod convertor;
pub mod discipline;
pub mod emitter;
pub mod environment;
pub mod error;
pub mod expr;
pub mod globals;
pub mod grammar;
pub mod heights;
pub mod interpreter;
pub mod lox;
pub mod number;
pub mod opcode;
pub mod parser;
pub mod resolver;
pub mod running;
pub mod scanner;
pub mod shape;
pub mod spelling;
pub mod stmt;
pub mod text;
pub mod token;
pub mod types;
pub mod vm;
