//! Named filters that songs can be tagged with.
use vstd::prelude::*;
use crate::order::{compare_str, lemma_lt_asym, lemma_lt_total, lemma_lt_trans, seq_lt, LexOrder, SortKey};

verus! {

/// A named filter.
#[derive(Debug, Clone, PartialEq, Eq)]
pub struct Filter {
    pub id: i32,
    pub name: String,
}

impl Filter {
    /// A field-by-field copy of the filter.
    pub fn duplicate(&self) -> (r: Filter)
        ensures
            r == *self,
    {
        Filter { id: self.id, name: self.name.clone() }
    }
}

/// Filters are ordered by name, then by id.
impl SortKey for Filter {
    open spec fn key_le(a: Filter, b: Filter) -> bool {
        seq_lt(a.name@, b.name@) || (a.name@ == b.name@ && a.id <= b.id)
    }

    proof fn lemma_key_le_total(a: Filter, b: Filter) {
        lemma_lt_total(a.name@, b.name@);
    }

    proof fn lemma_key_le_trans(a: Filter, b: Filter, c: Filter) {
        if seq_lt(a.name@, b.name@) && seq_lt(b.name@, c.name@) {
            lemma_lt_trans(a.name@, b.name@, c.name@);
        }
    }

    fn key_le_exec(&self, other: &Filter) -> (r: bool) {
        match compare_str(self.name.as_str(), other.name.as_str()) {
            LexOrder::Less => true,
            LexOrder::Same => self.id <= other.id,
            LexOrder::Greater => {
                proof {
                    lemma_lt_asym(other.name@, self.name@);
                }
                false
            },
        }
    }
}

} // verus!
