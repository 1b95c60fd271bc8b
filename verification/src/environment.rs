//! The compiler's table of local variables.
//!
//! Each local lives in a slot of the value stack; its slot number is its
//! index in the table. Entries stand in the order of their declaration, so
//! their depths never fall from one entry to the next.

use vstd::prelude::*;
use crate::opcode::OpCode;

verus! {

#[derive(Debug)]
pub struct Scopes {
    /// Name and depth of every live local, in the order of declaration.
    pub variables: Vec<(String, usize)>,
    /// The current depth of nesting; 0 is the global level.
    pub depth: usize,
}

/// A table of locals: name and depth of each, in the order of declaration.
pub type Table = Seq<(Seq<char>, usize)>;

/// A `Scopes` with its names as sequences of characters.
pub struct ScopesView {
    pub variables: Table,
    pub depth: usize,
}

pub open spec fn table_of(variables: Seq<(String, usize)>) -> Table {
    variables.map_values(|entry: (String, usize)| (entry.0@, entry.1))
}

impl View for Scopes {
    type V = ScopesView;

    open spec fn view(&self) -> ScopesView {
        ScopesView { variables: table_of(self.variables@), depth: self.depth }
    }
}

/// How many of the first `n` entries are declared deeper than `depth`.
pub open spec fn deeper(variables: Table, depth: int, n: int) -> nat
    decreases n,
{
    if n <= 0 || n > variables.len() {
        0
    } else if variables[n - 1].1 > depth {
        1 + deeper(variables, depth, n - 1)
    } else {
        deeper(variables, depth, n - 1)
    }
}

/// How many entries are declared deeper than `depth`.
pub open spec fn all_deeper(variables: Table, depth: int) -> nat {
    deeper(variables, depth, variables.len() as int)
}

/// How many entries come before the first that is declared deeper than
/// `depth`.
pub open spec fn kept(variables: Table, depth: int) -> nat
    decreases variables.len(),
{
    if variables.len() == 0 || variables.last().1 <= depth {
        variables.len()
    } else {
        kept(variables.drop_last(), depth)
    }
}

/// Whether `name` is declared at `depth`.
pub open spec fn declared_at(variables: Table, name: Seq<char>, depth: usize) -> bool {
    exists|i: int| 0 <= i < variables.len() && variables[i].0 == name && variables[i].1 == depth
}

/// The slot of the latest declaration of `name`, if there is one.
pub open spec fn latest(variables: Table, name: Seq<char>) -> Option<int>
    decreases variables.len(),
{
    if variables.len() == 0 {
        None
    } else if variables.last().0 == name {
        Some(variables.len() - 1)
    } else {
        latest(variables.drop_last(), name)
    }
}

/// Whether every instruction is a `Pop`.
pub open spec fn all_pops(codes: Seq<OpCode>) -> bool {
    forall|i: int| 0 <= i < codes.len() ==> codes[i] is Pop
}

/// Whether the depths never fall along the table.
pub open spec fn ordered(variables: Table) -> bool {
    forall|i: int, j: int| 0 <= i <= j < variables.len() ==> variables[i].1 <= variables[j].1
}

/// In a table whose depths never fall, the entries deeper than `depth` are
/// the last ones: those behind the first `kept`.
pub proof fn lemma_deeper_are_last(variables: Table, depth: int)
    requires
        ordered(variables),
    ensures
        kept(variables, depth) <= variables.len(),
        all_deeper(variables, depth) == variables.len() - kept(variables, depth),
        forall|i: int| 0 <= i < kept(variables, depth) ==> variables[i].1 <= depth,
        forall|i: int| kept(variables, depth) <= i < variables.len() ==> variables[i].1 > depth,
    decreases variables.len(),
{
    if variables.len() > 0 {
        if variables.last().1 <= depth {
            assert forall|i: int| 0 <= i < variables.len() implies variables[i].1 <= depth by {
                assert(variables[i].1 <= variables[variables.len() - 1].1);
            }
            lemma_none_deeper(variables, depth, variables.len() as int);
        } else {
            let head = variables.drop_last();
            assert forall|i: int, j: int| 0 <= i <= j < head.len() implies head[i].1
                <= head[j].1 by {
                assert(variables[i].1 <= variables[j].1);
            }
            lemma_deeper_are_last(head, depth);
            lemma_deeper_prefix(variables, depth, variables.len() - 1);
            assert forall|i: int| 0 <= i < kept(variables, depth) implies variables[i].1
                <= depth by {
                assert(head[i].1 <= depth);
            }
            assert forall|i: int| kept(variables, depth) <= i < variables.len() implies variables[i].1
                > depth by {
                if i < head.len() {
                    assert(head[i].1 > depth);
                }
            }
        }
    }
}

/// No more entries are kept than there are.
pub proof fn lemma_kept_fits(variables: Table, depth: int)
    ensures
        kept(variables, depth) <= variables.len(),
    decreases variables.len(),
{
    if variables.len() > 0 && variables.last().1 > depth {
        lemma_kept_fits(variables.drop_last(), depth);
    }
}

proof fn lemma_none_deeper(variables: Table, depth: int, n: int)
    requires
        0 <= n <= variables.len(),
        forall|i: int| 0 <= i < n ==> variables[i].1 <= depth,
    ensures
        deeper(variables, depth, n) == 0,
    decreases n,
{
    if n > 0 {
        lemma_none_deeper(variables, depth, n - 1);
    }
}

proof fn lemma_deeper_prefix(variables: Table, depth: int, n: int)
    requires
        0 <= n < variables.len(),
    ensures
        deeper(variables, depth, n) == deeper(variables.drop_last(), depth, n),
    decreases n,
{
    if n > 0 {
        lemma_deeper_prefix(variables, depth, n - 1);
    }
}

impl ScopesView {
    /// The depths never fall along the table and none exceeds the current
    /// depth; no name is declared twice at one depth.
    pub open spec fn wf(self) -> bool {
        &&& ordered(self.variables)
        &&& forall|i: int| 0 <= i < self.variables.len() ==> self.variables[i].1 <= self.depth
        &&& forall|i: int, j: int|
            0 <= i < j < self.variables.len() && self.variables[i].1 == self.variables[j].1
                ==> self.variables[i].0 != self.variables[j].0
    }

    /// The table after the current scope was left: the locals declared in
    /// it are gone.
    pub open spec fn ended(self) -> ScopesView {
        ScopesView {
            variables: self.variables.subrange(0, kept(self.variables, self.depth - 1) as int),
            depth: (self.depth - 1) as usize,
        }
    }

    /// The table after `name` was declared at `depth`.
    pub open spec fn defined(self, name: Seq<char>, depth: usize) -> ScopesView {
        ScopesView { variables: self.variables.push((name, depth)), depth: self.depth }
    }
}

impl Scopes {
    pub open spec fn wf(&self) -> bool {
        self@.wf()
    }

    pub fn new() -> (res: Self)
        ensures
            res.wf(),
            res@ == (ScopesView { variables: Seq::empty(), depth: 0 }),
    {
        let res = Scopes { variables: Vec::new(), depth: 0 };
        assert(table_of(res.variables@) =~= Seq::empty());
        res
    }

    /// Enters a scope.
    pub fn begin_scope(&mut self)
        requires
            old(self).depth < usize::MAX,
        ensures
            final(self)@ == (ScopesView {
                variables: old(self)@.variables,
                depth: (old(self).depth + 1) as usize,
            }),
            old(self).wf() ==> final(self).wf(),
    {
        self.depth += 1;
    }

    /// Leaves the current scope: the entries at the end of the table that
    /// are declared deeper than the scope around it leave the table, and
    /// the instructions that take them off the stack are returned, one
    /// `Pop` for each. In a table that is in order these are all the
    /// entries declared deeper, and the table stays in order.
    pub fn end_scope(&mut self) -> (codes: Vec<OpCode>)
        requires
            old(self).depth > 0,
        ensures
            final(self)@ == old(self)@.ended(),
            all_pops(codes@),
            codes@.len() == old(self)@.variables.len() - kept(
                old(self)@.variables,
                old(self).depth - 1,
            ),
            old(self).wf() ==> final(self).wf() && codes@.len() == all_deeper(
                old(self)@.variables,
                old(self).depth - 1,
            ),
    {
        let mut codes: Vec<OpCode> = Vec::new();
        let target = self.depth - 1;
        let ghost table = table_of(self.variables@);
        proof {
            if self.wf() {
                lemma_deeper_are_last(table, target as int);
            }
            lemma_kept_fits(table, target as int);
            assert(table.subrange(0, table.len() as int) =~= table);
        }
        while self.variables.len() > 0 && self.variables[self.variables.len() - 1].1 > target
            invariant
                self.depth == old(self).depth,
                target == self.depth - 1,
                table == table_of(old(self).variables@),
                self.variables@.len() <= table.len(),
                table_of(self.variables@) == table.subrange(0, self.variables@.len() as int),
                kept(table_of(self.variables@), target as int) == kept(table, target as int),
                all_pops(codes@),
                codes@.len() == table.len() - self.variables@.len(),
            decreases self.variables@.len(),
        {
            let ghost before = table_of(self.variables@);
            codes.push(OpCode::Pop);
            self.variables.pop();
            proof {
                assert(table_of(self.variables@) =~= before.drop_last());
                assert(table_of(self.variables@) =~= table.subrange(
                    0,
                    self.variables@.len() as int,
                ));
            }
        }
        self.depth = target;
        codes
    }

    /// The instructions that take off the stack every local declared deeper
    /// than `depth`, one `Pop` for each. The table is left as it is: this
    /// is for a jump out of scopes that the code behind the jump is still
    /// in.
    pub fn will_delete_var_by_depth(&self, depth: usize) -> (codes: Vec<OpCode>)
        ensures
            all_pops(codes@),
            codes@.len() == all_deeper(self@.variables, depth as int),
    {
        let mut codes: Vec<OpCode> = Vec::new();
        let mut i: usize = 0;
        while i < self.variables.len()
            invariant
                i <= self.variables@.len(),
                all_pops(codes@),
                codes@.len() == deeper(self@.variables, depth as int, i as int),
            decreases self.variables@.len() - i,
        {
            if self.variables[i].1 > depth {
                codes.push(OpCode::Pop);
            }
            i += 1;
        }
        codes
    }

    fn is_variable_at_same_depth(&self, name: &String, depth: usize) -> (res: bool)
        ensures
            res == declared_at(self@.variables, name@, depth),
    {
        let mut i: usize = self.variables.len();
        while i > 0
            invariant
                i <= self.variables@.len(),
                forall|k: int|
                    i <= k < self.variables@.len() ==> !(self@.variables[k].0 == name@
                        && self@.variables[k].1 == depth),
            decreases i,
        {
            i -= 1;
            if self.variables[i].1 == depth && self.variables[i].0 == *name {
                assert(self@.variables[i as int].0 == name@ && self@.variables[i as int].1
                    == depth);
                return true;
            }
        }
        false
    }

    /// Declares `name` at `depth`, in the next free slot. Fails, and leaves
    /// the table as it is, if the name is already declared at that depth.
    /// A table that is in order stays in order if `depth` is no less than
    /// the depth of its last entry and no more than the current depth.
    pub fn define_variable(&mut self, name: String, depth: usize) -> (res: Result<(), ()>)
        ensures
            res is Err <==> declared_at(old(self)@.variables, name@, depth),
            res is Ok ==> final(self)@ == old(self)@.defined(name@, depth),
            res is Err ==> final(self)@ == old(self)@,
            old(self).wf() && depth <= old(self).depth && (old(self)@.variables.len() > 0 ==> old(
                self,
            )@.variables.last().1 <= depth) ==> final(self).wf(),
    {
        if self.is_variable_at_same_depth(&name, depth) {
            return Err(());
        }
        self.variables.push((name, depth));
        proof {
            assert(table_of(self.variables@) =~= table_of(old(self).variables@).push(
                (name@, depth),
            ));
            let table = table_of(self.variables@);
            let before = table_of(old(self).variables@);
            if old(self).wf() && depth <= old(self).depth && (before.len() > 0 ==> before.last().1
                <= depth) {
                assert forall|i: int, j: int| 0 <= i <= j < table.len() implies table[i].1
                    <= table[j].1 by {
                    if j == table.len() - 1 && i < j {
                        assert(before[i].1 <= before[before.len() - 1].1);
                    }
                }
            }
        }
        Ok(())
    }

    /// The slot of the latest declaration of `name`.
    pub fn find_variable(&self, name: &String) -> (res: Result<usize, ()>)
        ensures
            match res {
                Ok(slot) => latest(self@.variables, name@) == Some(slot as int) && slot
                    < self@.variables.len(),
                Err(_) => latest(self@.variables, name@) is None,
            },
    {
        let mut i: usize = self.variables.len();
        let ghost table = table_of(self.variables@);
        assert(table.subrange(0, i as int) =~= table);
        while i > 0
            invariant
                i <= self.variables@.len(),
                table == table_of(self.variables@),
                latest(table, name@) == latest(table.subrange(0, i as int), name@),
            decreases i,
        {
            let ghost head = table.subrange(0, i as int);
            i -= 1;
            proof {
                assert(head.last() == table[i as int]);
                assert(head.drop_last() =~= table.subrange(0, i as int));
            }
            if self.variables[i].0 == *name {
                return Ok(i);
            }
        }
        Err(())
    }
}

} // verus!
