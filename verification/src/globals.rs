//! The table of global variables: a map from names to values.

use vstd::prelude::*;
use crate::types::{Literal, LiteralView};

verus! {

/// The global variables of a machine, in the order they were first defined.
pub struct Globals {
    names: Vec<String>,
    values: Vec<Literal>,
}

/// The map that a list of names and a list of values stand for: each name
/// is bound to the value beside it, a later entry winning over an earlier
/// one of the same name.
pub open spec fn bindings(names: Seq<String>, values: Seq<Literal>) -> Map<Seq<char>, LiteralView>
    decreases names.len(),
{
    if names.len() == 0 || values.len() != names.len() {
        Map::empty()
    } else {
        bindings(names.drop_last(), values.drop_last()).insert(names.last()@, values.last()@)
    }
}

/// A name that occurs nowhere in the list is not bound.
proof fn lemma_absent(names: Seq<String>, values: Seq<Literal>, key: Seq<char>)
    requires
        names.len() == values.len(),
        forall|i: int| 0 <= i < names.len() ==> names[i]@ != key,
    ensures
        !bindings(names, values).dom().contains(key),
    decreases names.len(),
{
    if names.len() > 0 {
        lemma_absent(names.drop_last(), values.drop_last(), key);
    }
}

/// A name is bound to the value beside its last occurrence.
proof fn lemma_last_occurrence(names: Seq<String>, values: Seq<Literal>, key: Seq<char>, at: int)
    requires
        names.len() == values.len(),
        0 <= at < names.len(),
        names[at]@ == key,
        forall|i: int| at < i < names.len() ==> names[i]@ != key,
    ensures
        bindings(names, values).dom().contains(key),
        bindings(names, values)[key] == values[at]@,
    decreases names.len(),
{
    if at < names.len() - 1 {
        lemma_last_occurrence(names.drop_last(), values.drop_last(), key, at);
    }
}

/// Replacing the value beside the last occurrence of a name rebinds the
/// name and nothing else.
proof fn lemma_replace(
    names: Seq<String>,
    values: Seq<Literal>,
    key: Seq<char>,
    at: int,
    value: Literal,
)
    requires
        names.len() == values.len(),
        0 <= at < names.len(),
        names[at]@ == key,
        forall|i: int| at < i < names.len() ==> names[i]@ != key,
    ensures
        bindings(names, values.update(at, value)) == bindings(names, values).insert(key, value@),
    decreases names.len(),
{
    let updated = values.update(at, value);
    if at == names.len() - 1 {
        assert(updated.drop_last() =~= values.drop_last());
        assert(bindings(names, updated) =~= bindings(names, values).insert(key, value@));
    } else {
        lemma_replace(names.drop_last(), values.drop_last(), key, at, value);
        assert(updated.drop_last() =~= values.drop_last().update(at, value));
        assert(updated.last() == values.last());
        assert(bindings(names, updated) =~= bindings(names, values).insert(key, value@));
    }
}

impl View for Globals {
    type V = Map<Seq<char>, LiteralView>;

    closed spec fn view(&self) -> Map<Seq<char>, LiteralView> {
        bindings(self.names@, self.values@)
    }
}

impl Globals {
    /// Every name has its value.
    pub closed spec fn wf(&self) -> bool {
        self.names@.len() == self.values@.len()
    }

    pub fn new() -> (res: Self)
        ensures
            res.wf(),
            res@ == Map::<Seq<char>, LiteralView>::empty(),
    {
        Globals { names: Vec::new(), values: Vec::new() }
    }

    /// The index of the last entry for `name`.
    fn find(&self, name: &String) -> (res: Option<usize>)
        requires
            self.wf(),
        ensures
            match res {
                Some(at) => at < self.names@.len() && self.names@[at as int]@ == name@
                    && forall|i: int| at < i < self.names@.len() ==> self.names@[i]@ != name@,
                None => forall|i: int| 0 <= i < self.names@.len() ==> self.names@[i]@ != name@,
            },
    {
        let mut i: usize = self.names.len();
        while i > 0
            invariant
                i <= self.names@.len(),
                forall|k: int| i <= k < self.names@.len() ==> self.names@[k]@ != name@,
            decreases i,
        {
            i -= 1;
            if self.names[i] == *name {
                return Some(i);
            }
        }
        None
    }

    pub fn contains_key(&self, name: &String) -> (res: bool)
        requires
            self.wf(),
        ensures
            res == self@.dom().contains(name@),
    {
        match self.find(name) {
            Some(at) => {
                proof {
                    lemma_last_occurrence(self.names@, self.values@, name@, at as int);
                }
                true
            },
            None => {
                proof {
                    lemma_absent(self.names@, self.values@, name@);
                }
                false
            },
        }
    }

    /// The value bound to `name`, if it is bound.
    pub fn get(&self, name: &String) -> (res: Option<&Literal>)
        requires
            self.wf(),
        ensures
            match res {
                Some(value) => self@.dom().contains(name@) && self@[name@] == value@,
                None => !self@.dom().contains(name@),
            },
    {
        match self.find(name) {
            Some(at) => {
                proof {
                    lemma_last_occurrence(self.names@, self.values@, name@, at as int);
                }
                Some(&self.values[at])
            },
            None => {
                proof {
                    lemma_absent(self.names@, self.values@, name@);
                }
                None
            },
        }
    }

    /// Binds `name` to `value`, whether or not it was bound before.
    pub fn insert(&mut self, name: String, value: Literal)
        requires
            old(self).wf(),
        ensures
            final(self).wf(),
            final(self)@ == old(self)@.insert(name@, value@),
    {
        match self.find(&name) {
            Some(at) => {
                proof {
                    lemma_replace(self.names@, self.values@, name@, at as int, value);
                }
                self.values.set(at, value);
            },
            None => {
                self.names.push(name);
                self.values.push(value);
                proof {
                    assert(self.names@.drop_last() =~= old(self).names@);
                    assert(self.values@.drop_last() =~= old(self).values@);
                }
            },
        }
    }
}

} // verus!
