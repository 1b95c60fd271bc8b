//! Code as a value: instructions, constants and functions with their texts
//! as sequences of characters and their lists as sequences.

use vstd::prelude::*;
use crate::error::Position;
use crate::opcode::OpCode;
use crate::types::{FuncType, Function, Literal};

verus! {

/// A constant of the code. A function is held by what it is, not by a
/// handle to it.
pub enum ConstView {
    String(Seq<char>),
    Number(u64),
    Bool(bool),
    Function(FunctionView),
    Nil,
}

/// A compiled function.
pub struct FunctionView {
    pub name: Seq<char>,
    pub codes: Seq<OpView>,
    pub positions: Seq<Position>,
    pub arity: usize,
    pub func_type: FuncType,
}

/// An instruction.
pub enum OpView {
    Return,
    Load(ConstView),
    Negate,
    Add,
    Sub,
    Mul,
    Div,
    Mod,
    Not,
    Eq,
    Less,
    Greater,
    Print,
    Pop,
    DefineGlobal(Seq<char>),
    GetGlobal(Seq<char>),
    SetGlobal(Seq<char>),
    GetLocal(usize),
    SetLocal(usize),
    Jump(usize),
    JumpForward(usize),
    JumpIfTrue(usize),
    JumpIfFalse(usize),
    Call(usize),
    AddIGlobal(Seq<char>),
    SubIGlobal(Seq<char>),
    MulIGlobal(Seq<char>),
    DivIGlobal(Seq<char>),
    ModIGlobal(Seq<char>),
    AddILocal(usize),
    SubILocal(usize),
    MulILocal(usize),
    DivILocal(usize),
    ModILocal(usize),
}

pub open spec fn const_view(literal: Literal) -> ConstView
    decreases literal, 0nat,
{
    match literal {
        Literal::String(text) => ConstView::String(text@),
        Literal::Number(bits) => ConstView::Number(bits),
        Literal::Bool(b) => ConstView::Bool(b),
        Literal::Function(function) => ConstView::Function(function_view(*function)),
        Literal::Nil => ConstView::Nil,
    }
}

pub open spec fn function_view(function: Function) -> FunctionView
    decreases function, 0nat,
{
    FunctionView {
        name: function.name@,
        codes: op_views(function.chunk.codes@, function.chunk.codes@.len() as int),
        positions: function.chunk.positions@,
        arity: function.arity,
        func_type: function.func_type,
    }
}

pub open spec fn op_view(code: OpCode) -> OpView
    decreases code, 0nat,
{
    match code {
        OpCode::Return => OpView::Return,
        OpCode::Load(literal) => OpView::Load(const_view(literal)),
        OpCode::Negate => OpView::Negate,
        OpCode::Add => OpView::Add,
        OpCode::Sub => OpView::Sub,
        OpCode::Mul => OpView::Mul,
        OpCode::Div => OpView::Div,
        OpCode::Mod => OpView::Mod,
        OpCode::Not => OpView::Not,
        OpCode::Eq => OpView::Eq,
        OpCode::Less => OpView::Less,
        OpCode::Greater => OpView::Greater,
        OpCode::Print => OpView::Print,
        OpCode::Pop => OpView::Pop,
        OpCode::DefineGlobal(name) => OpView::DefineGlobal(name@),
        OpCode::GetGlobal(name) => OpView::GetGlobal(name@),
        OpCode::SetGlobal(name) => OpView::SetGlobal(name@),
        OpCode::GetLocal(slot) => OpView::GetLocal(slot),
        OpCode::SetLocal(slot) => OpView::SetLocal(slot),
        OpCode::Jump(offset) => OpView::Jump(offset),
        OpCode::JumpForward(offset) => OpView::JumpForward(offset),
        OpCode::JumpIfTrue(offset) => OpView::JumpIfTrue(offset),
        OpCode::JumpIfFalse(offset) => OpView::JumpIfFalse(offset),
        OpCode::Call(argc) => OpView::Call(argc),
        OpCode::AddIGlobal(name) => OpView::AddIGlobal(name@),
        OpCode::SubIGlobal(name) => OpView::SubIGlobal(name@),
        OpCode::MulIGlobal(name) => OpView::MulIGlobal(name@),
        OpCode::DivIGlobal(name) => OpView::DivIGlobal(name@),
        OpCode::ModIGlobal(name) => OpView::ModIGlobal(name@),
        OpCode::AddILocal(slot) => OpView::AddILocal(slot),
        OpCode::SubILocal(slot) => OpView::SubILocal(slot),
        OpCode::MulILocal(slot) => OpView::MulILocal(slot),
        OpCode::DivILocal(slot) => OpView::DivILocal(slot),
        OpCode::ModILocal(slot) => OpView::ModILocal(slot),
    }
}

/// The views of the first `n` of the instructions.
pub open spec fn op_views(codes: Seq<OpCode>, n: int) -> Seq<OpView>
    decreases codes, n,
{
    if n <= 0 || n > codes.len() {
        Seq::empty()
    } else {
        op_views(codes, n - 1).push(op_view(codes[n - 1]))
    }
}

/// All of the instructions as views.
pub open spec fn code_view(codes: Seq<OpCode>) -> Seq<OpView> {
    op_views(codes, codes.len() as int)
}

/// The list of views is as long as the list, and holds the views of its
/// members.
pub proof fn lemma_op_views(codes: Seq<OpCode>, n: int)
    requires
        0 <= n <= codes.len(),
    ensures
        op_views(codes, n).len() == n,
        forall|i: int| 0 <= i < n ==> op_views(codes, n)[i] == op_view(codes[i]),
    decreases n,
{
    if n > 0 {
        lemma_op_views(codes, n - 1);
    }
}

/// The views of a list with one instruction more.
pub proof fn lemma_code_view_push(codes: Seq<OpCode>, code: OpCode)
    ensures
        code_view(codes.push(code)) == code_view(codes).push(op_view(code)),
{
    lemma_op_views(codes, codes.len() as int);
    lemma_op_views(codes.push(code), codes.len() as int + 1);
    assert(code_view(codes.push(code)) =~= code_view(codes).push(op_view(code)));
}

/// The views of a list with one instruction replaced.
pub proof fn lemma_code_view_update(codes: Seq<OpCode>, at: int, code: OpCode)
    requires
        0 <= at < codes.len(),
    ensures
        code_view(codes.update(at, code)) == code_view(codes).update(at, op_view(code)),
{
    lemma_op_views(codes, codes.len() as int);
    lemma_op_views(codes.update(at, code), codes.len() as int);
    assert(code_view(codes.update(at, code)) =~= code_view(codes).update(at, op_view(code)));
}

} // verus!
