//! A chunk: the instructions of one function and, beside each, the place in
//! the source it came from.

use vstd::prelude::*;
use crate::error::Position;
use crate::opcode::OpCode;

verus! {

#[derive(Debug)]
pub struct Chunk {
    pub codes: Vec<OpCode>,
    pub positions: Vec<Position>,
}

impl Chunk {
    /// Every instruction has its position.
    pub open spec fn wf(&self) -> bool {
        self.codes@.len() == self.positions@.len()
    }

    pub fn new() -> (res: Self)
        ensures
            res.wf(),
            res.codes@.len() == 0,
    {
        Chunk { codes: Vec::new(), positions: Vec::new() }
    }

    /// Appends an instruction and returns its index.
    pub fn write(&mut self, opcode: OpCode, position: Position) -> (index: usize)
        requires
            old(self).wf(),
        ensures
            final(self).wf(),
            index == old(self).codes@.len(),
            final(self).codes@ == old(self).codes@.push(opcode),
            final(self).positions@ == old(self).positions@.push(position),
    {
        self.codes.push(opcode);
        self.positions.push(position);
        self.codes.len() - 1
    }

    pub fn get(&self, index: usize) -> (res: Option<&OpCode>)
        ensures
            index < self.codes@.len() ==> res == Some(&self.codes@[index as int]),
            index >= self.codes@.len() ==> res is None,
    {
        if index < self.codes.len() {
            Some(&self.codes[index])
        } else {
            None
        }
    }

    pub fn get_position(&self, index: usize) -> (res: Option<Position>)
        ensures
            index < self.positions@.len() ==> res == Some(self.positions@[index as int]),
            index >= self.positions@.len() ==> res is None,
    {
        if index < self.positions.len() {
            Some(self.positions[index])
        } else {
            None
        }
    }

    pub fn get_with_position(&self, index: usize) -> (res: Option<(&OpCode, Position)>)
        ensures
            index < self.codes@.len() && index < self.positions@.len() ==> res == Some(
                (&self.codes@[index as int], self.positions@[index as int]),
            ),
            index >= self.codes@.len() || index >= self.positions@.len() ==> res is None,
    {
        if index < self.codes.len() && index < self.positions.len() {
            Some((&self.codes[index], self.positions[index]))
        } else {
            None
        }
    }

    pub fn len(&self) -> (res: usize)
        ensures
            res == self.codes@.len(),
    {
        self.codes.len()
    }
}

} // verus!
