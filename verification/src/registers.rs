//! The register store: a sparse, unbounded array of signed 64-bit
//! machine words, all initially zero.
//!
//! Reading an index that was never written yields zero and is never an
//! error; bounds and sign checks on indices are the machine's job, not
//! the store's. The store is a map from index to value; logically it is
//! the total function [`Registers::spec_get`], which returns zero
//! outside the map.

use vstd::prelude::*;
use std::collections::HashMap;

verus! {

broadcast use vstd::std_specs::hash::group_hash_axioms;

/// A register index.
#[derive(Debug, Clone, Copy, PartialEq, Eq, Structural, Hash, PartialOrd, Ord)]
pub struct RegisterId(pub usize);

impl From<usize> for RegisterId {
    fn from(value: usize) -> (r: Self) {
        RegisterId(value)
    }
}

impl vstd::std_specs::convert::FromSpecImpl<usize> for RegisterId {
    open spec fn obeys_from_spec() -> bool {
        true
    }

    open spec fn from_spec(value: usize) -> RegisterId {
        RegisterId(value)
    }
}

/// An unbounded array of signed 64-bit registers, all initially zero.
#[derive(Debug, Clone)]
pub struct Registers {
    map: HashMap<usize, i64>,
}

impl Registers {
    /// The value of the register at index `i`: the stored value, or zero
    /// for an index that was never written.
    pub closed spec fn spec_get(&self, i: int) -> i64 {
        if 0 <= i <= usize::MAX && self.map@.contains_key(i as usize) {
            self.map@[i as usize]
        } else {
            0
        }
    }

    /// A store with every register zero.
    pub fn new() -> (r: Self)
        ensures
            forall|i: int| r.spec_get(i) == 0,
    {
        Registers { map: HashMap::new() }
    }

    /// The value of the register at the given index. Never fails: an
    /// index that was never written reads as zero.
    pub fn get(&self, index: usize) -> (r: i64)
        ensures
            r == self.spec_get(index as int),
    {
        match self.map.get(&index) {
            Some(v) => *v,
            None => 0,
        }
    }

    /// Stores `value` at `index`, leaving every other register as it
    /// was. Never fails.
    pub fn set(&mut self, index: usize, value: i64)
        ensures
            forall|i: int|
                final(self).spec_get(i) == if i == index as int {
                    value
                } else {
                    old(self).spec_get(i)
                },
    {
        self.map.insert(index, value);
    }

    /// A store whose first registers hold the given values, in order,
    /// and whose remaining registers are zero.
    pub fn from_vec(values: Vec<i64>) -> (r: Self)
        ensures
            forall|i: int|
                r.spec_get(i) == if 0 <= i < values@.len() {
                    values@[i]
                } else {
                    0
                },
    {
        let mut r = Registers::new();
        let mut i: usize = 0;
        while i < values.len()
            invariant
                i <= values@.len(),
                forall|j: int|
                    r.spec_get(j) == if 0 <= j < i {
                        values@[j]
                    } else {
                        0
                    },
            decreases values@.len() - i,
        {
            r.set(i, values[i]);
            i = i + 1;
        }
        r
    }
}

impl Default for Registers {
    /// A store with every register zero.
    fn default() -> (r: Self)
        ensures
            forall|i: int| r.spec_get(i) == 0,
    {
        Registers::new()
    }
}

} // verus!
