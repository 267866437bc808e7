//! Closed index from chromosome names to dense slots.
use crate::error::Error;
use vstd::prelude::*;

verus! {

/// Chromosome names; the slot of a name is its position in the list.
pub struct ChromMap {
    pub names: Vec<String>,
}

/// The first slot that holds `name`, if any.
pub open spec fn first_slot(names: Seq<Seq<char>>, name: Seq<char>) -> Option<int> {
    if exists|i: int| 0 <= i < names.len() && names[i] == name {
        let i = choose|i: int|
            0 <= i < names.len() && names[i] == name && forall|j: int|
                0 <= j < i ==> names[j] != name;
        Some(i)
    } else {
        None
    }
}

/// With distinct names, resolving the name at a slot gives that slot back.
pub proof fn lemma_resolve_name_round_trip(names: Seq<Seq<char>>, i: int)
    requires
        names.no_duplicates(),
        0 <= i < names.len(),
    ensures
        first_slot(names, names[i]) == Some(i),
{
    assert(names[i] == names[i]);
    let w = choose|w: int|
        0 <= w < names.len() && names[w] == names[i] && forall|j: int|
            0 <= j < w ==> names[j] != names[i];
    assert(w == i);
}

impl ChromMap {
    pub open spec fn view(&self) -> Seq<Seq<char>> {
        self.names@.map_values(|s: String| s@)
    }

    /// The names are distinct, so that slots and names correspond one to one.
    pub open spec fn wf(&self) -> bool {
        self@.no_duplicates()
    }

    pub fn new(names: Vec<String>) -> (r: ChromMap)
        requires
            names@.map_values(|s: String| s@).no_duplicates(),
        ensures
            r@ == names@.map_values(|s: String| s@),
            r.wf(),
    {
        ChromMap { names }
    }

    pub fn len(&self) -> (r: usize)
        ensures
            r == self@.len(),
    {
        self.names.len()
    }

    /// Slot of `name`; unknown names are a lookup error.
    pub fn resolve(&self, name: &String) -> (r: Result<usize, Error>)
        ensures
            match first_slot(self@, name@) {
                Some(i) => r is Ok && r->Ok_0 as int == i,
                None => r == Err::<usize, Error>(Error::UnknownChromosome),
            },
    {
        let mut i: usize = 0;
        while i < self.names.len()
            invariant
                0 <= i <= self.names@.len(),
                forall|j: int| 0 <= j < i ==> self@[j] != name@,
            decreases self.names@.len() - i,
        {
            if self.names[i] == *name {
                proof {
                    let w = choose|w: int|
                        0 <= w < self@.len() && self@[w] == name@ && forall|j: int|
                            0 <= j < w ==> self@[j] != name@;
                    assert(self@[i as int] == name@);
                    if w < i {
                        assert(self@[w] != name@);
                    }
                    if w > i {
                        assert(self@[i as int] != name@);
                    }
                }
                return Ok(i);
            }
            i = i + 1;
        }
        Err(Error::UnknownChromosome)
    }

    /// Name at slot `index`; resolving it gives `index` back.
    pub fn name(&self, index: usize) -> (r: &String)
        requires
            self.wf(),
            index < self@.len(),
        ensures
            r@ == self@[index as int],
            first_slot(self@, r@) == Some(index as int),
    {
        proof {
            lemma_resolve_name_round_trip(self@, index as int);
        }
        &self.names[index]
    }
}

} // verus!
