//! The instructions of the stack machine.

use vstd::prelude::*;
use vstd::string::*;
use crate::text::{decimal, gap, pad_left, pad_right, spaces, usize_to_string};
use crate::types::Literal;

verus! {

#[derive(Debug)]
pub enum OpCode {
    Return,
    Load(Literal),
    Negate,
    Add,
    Sub,
    Mul,
    Div,
    Mod,
    Not,
    Eq,
    Less,
    Greater,
    Print,
    Pop,
    DefineGlobal(String),
    GetGlobal(String),
    SetGlobal(String),
    GetLocal(usize),
    SetLocal(usize),
    /// Skip `offset` instructions onwards.
    Jump(usize),
    /// Go `offset` instructions back.
    JumpForward(usize),
    JumpIfTrue(usize),
    JumpIfFalse(usize),
    Call(usize),
    AddIGlobal(String),
    SubIGlobal(String),
    MulIGlobal(String),
    DivIGlobal(String),
    ModIGlobal(String),
    AddILocal(usize),
    SubILocal(usize),
    MulILocal(usize),
    DivILocal(usize),
    ModILocal(usize),
}

/// A line of a listing for an instruction without an operand: the name,
/// filling 24 columns.
pub open spec fn plain_line(name: Seq<char>) -> Seq<char> {
    name + spaces(gap(name.len(), 24))
}

/// A line of a listing for an instruction with an operand: the name,
/// filling 15 columns, a space, and the operand, set to the right of 8
/// columns.
pub open spec fn operand_line(name: Seq<char>, operand: Seq<char>) -> Seq<char> {
    name + spaces(gap(name.len(), 15)) + " "@ + (spaces(gap(operand.len(), 8)) + operand)
}

/// A line of a listing for a load: `LOAD` and the value, set to the right
/// of 20 columns.
pub open spec fn load_line(value: Seq<char>) -> Seq<char> {
    "LOAD"@ + (spaces(gap(value.len(), 20)) + value)
}

impl OpCode {
    /// The name of the instruction in listings.
    pub open spec fn spec_name(self) -> Seq<char> {
        match self {
            OpCode::Return => "RETURN"@,
            OpCode::Load(_) => "LOAD"@,
            OpCode::Negate => "NEGATE"@,
            OpCode::Add => "ADD"@,
            OpCode::Sub => "SUB"@,
            OpCode::Mul => "MUL"@,
            OpCode::Div => "DIV"@,
            OpCode::Mod => "MOD"@,
            OpCode::Not => "NOT"@,
            OpCode::Eq => "EQUAL"@,
            OpCode::Less => "LESS"@,
            OpCode::Greater => "GREATER"@,
            OpCode::Print => "PRINT"@,
            OpCode::Pop => "POP"@,
            OpCode::DefineGlobal(_) => "DEFINE_GLOBAL"@,
            OpCode::GetGlobal(_) => "GET_GLOBAL"@,
            OpCode::SetGlobal(_) => "SET_GLOBAL"@,
            OpCode::GetLocal(_) => "GET_LOCAL"@,
            OpCode::SetLocal(_) => "SET_LOCAL"@,
            OpCode::Jump(_) => "JUMP"@,
            OpCode::JumpForward(_) => "JUMP_FORWARD"@,
            OpCode::JumpIfTrue(_) => "JUMP_IF_TRUE"@,
            OpCode::JumpIfFalse(_) => "JUMP_IF_FALSE"@,
            OpCode::Call(_) => "CALL"@,
            OpCode::AddIGlobal(_) => "ADD_I_GLOBAL"@,
            OpCode::SubIGlobal(_) => "SUB_I_GLOBAL"@,
            OpCode::MulIGlobal(_) => "MUL_I_GLOBAL"@,
            OpCode::DivIGlobal(_) => "DIV_I_GLOBAL"@,
            OpCode::ModIGlobal(_) => "MOD_I_GLOBAL"@,
            OpCode::AddILocal(_) => "ADD_I_LOCAL"@,
            OpCode::SubILocal(_) => "SUB_I_LOCAL"@,
            OpCode::MulILocal(_) => "MUL_I_LOCAL"@,
            OpCode::DivILocal(_) => "DIV_I_LOCAL"@,
            OpCode::ModILocal(_) => "MOD_I_LOCAL"@,
        }
    }

    /// The operand of the instruction as it is written in listings, if it
    /// has one: a name, or a number in decimal.
    pub open spec fn spec_operand(self) -> Option<Seq<char>> {
        match self {
            OpCode::DefineGlobal(name)
            | OpCode::GetGlobal(name)
            | OpCode::SetGlobal(name)
            | OpCode::AddIGlobal(name)
            | OpCode::SubIGlobal(name)
            | OpCode::MulIGlobal(name)
            | OpCode::DivIGlobal(name)
            | OpCode::ModIGlobal(name) => Some(name@),
            OpCode::GetLocal(n)
            | OpCode::SetLocal(n)
            | OpCode::Jump(n)
            | OpCode::JumpForward(n)
            | OpCode::JumpIfTrue(n)
            | OpCode::JumpIfFalse(n)
            | OpCode::Call(n)
            | OpCode::AddILocal(n)
            | OpCode::SubILocal(n)
            | OpCode::MulILocal(n)
            | OpCode::DivILocal(n)
            | OpCode::ModILocal(n) => Some(decimal(n as nat)),
            _ => None,
        }
    }

    /// The line of a listing for the instruction. `number` is the decimal
    /// text of the number that the instruction loads; where it loads none,
    /// `number` is not looked at.
    pub open spec fn spec_text(self, number: Seq<char>) -> Seq<char> {
        match self {
            OpCode::Load(value) => if value@ is Number {
                load_line(number)
            } else {
                load_line(value@.text())
            },
            _ => match self.spec_operand() {
                Some(operand) => operand_line(self.spec_name(), operand),
                None => plain_line(self.spec_name()),
            },
        }
    }

    /// The name of the instruction in listings.
    pub fn name(&self) -> (res: &'static str)
        ensures
            res@ == self.spec_name(),
    {
        match self {
            OpCode::Return => "RETURN",
            OpCode::Load(_) => "LOAD",
            OpCode::Negate => "NEGATE",
            OpCode::Add => "ADD",
            OpCode::Sub => "SUB",
            OpCode::Mul => "MUL",
            OpCode::Div => "DIV",
            OpCode::Mod => "MOD",
            OpCode::Not => "NOT",
            OpCode::Eq => "EQUAL",
            OpCode::Less => "LESS",
            OpCode::Greater => "GREATER",
            OpCode::Print => "PRINT",
            OpCode::Pop => "POP",
            OpCode::DefineGlobal(_) => "DEFINE_GLOBAL",
            OpCode::GetGlobal(_) => "GET_GLOBAL",
            OpCode::SetGlobal(_) => "SET_GLOBAL",
            OpCode::GetLocal(_) => "GET_LOCAL",
            OpCode::SetLocal(_) => "SET_LOCAL",
            OpCode::Jump(_) => "JUMP",
            OpCode::JumpForward(_) => "JUMP_FORWARD",
            OpCode::JumpIfTrue(_) => "JUMP_IF_TRUE",
            OpCode::JumpIfFalse(_) => "JUMP_IF_FALSE",
            OpCode::Call(_) => "CALL",
            OpCode::AddIGlobal(_) => "ADD_I_GLOBAL",
            OpCode::SubIGlobal(_) => "SUB_I_GLOBAL",
            OpCode::MulIGlobal(_) => "MUL_I_GLOBAL",
            OpCode::DivIGlobal(_) => "DIV_I_GLOBAL",
            OpCode::ModIGlobal(_) => "MOD_I_GLOBAL",
            OpCode::AddILocal(_) => "ADD_I_LOCAL",
            OpCode::SubILocal(_) => "SUB_I_LOCAL",
            OpCode::MulILocal(_) => "MUL_I_LOCAL",
            OpCode::DivILocal(_) => "DIV_I_LOCAL",
            OpCode::ModILocal(_) => "MOD_I_LOCAL",
        }
    }

    /// The operand of the instruction as it is written in listings.
    pub fn operand(&self) -> (res: Option<String>)
        ensures
            match res {
                Some(text) => self.spec_operand() == Some(text@),
                None => self.spec_operand() is None,
            },
    {
        match self {
            OpCode::DefineGlobal(name)
            | OpCode::GetGlobal(name)
            | OpCode::SetGlobal(name)
            | OpCode::AddIGlobal(name)
            | OpCode::SubIGlobal(name)
            | OpCode::MulIGlobal(name)
            | OpCode::DivIGlobal(name)
            | OpCode::ModIGlobal(name) => Some(name.clone()),
            OpCode::GetLocal(n)
            | OpCode::SetLocal(n)
            | OpCode::Jump(n)
            | OpCode::JumpForward(n)
            | OpCode::JumpIfTrue(n)
            | OpCode::JumpIfFalse(n)
            | OpCode::Call(n)
            | OpCode::AddILocal(n)
            | OpCode::SubILocal(n)
            | OpCode::MulILocal(n)
            | OpCode::DivILocal(n)
            | OpCode::ModILocal(n) => Some(usize_to_string(*n)),
            _ => None,
        }
    }

    /// The line of a listing for the instruction. `number` is the decimal
    /// text of the number that the instruction loads; where it loads none,
    /// `number` is not looked at.
    pub fn to_text(&self, number: &str) -> (res: String)
        ensures
            res@ == self.spec_text(number@),
    {
        match self {
            OpCode::Load(value) => {
                let shown = match value.to_text() {
                    Some(text) => text,
                    None => String::from_str(number),
                };
                String::from_str("LOAD").concat(pad_left(shown.as_str(), 20).as_str())
            },
            _ => match self.operand() {
                Some(operand) => {
                    let mut line = pad_right(self.name(), 15);
                    line.append(" ");
                    line.append(pad_left(operand.as_str(), 8).as_str());
                    line
                },
                None => pad_right(self.name(), 24),
            },
        }
    }
}

} // verus!
