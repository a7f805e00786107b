use crate::key::{Key, Value};
use vstd::prelude::*;

verus! {

/// A write that a transaction intends to make.
#[derive(Debug, PartialEq, Eq)]
pub enum Mutation {
    /// Write a value under the key.
    Put((Key, Value)),
    /// Remove the key.
    Delete(Key),
    /// Lock the key without changing it.
    Lock(Key),
    /// Write a value under the key, which must not exist yet.
    Insert((Key, Value)),
}

impl Clone for Mutation {
    fn clone(&self) -> (copy: Mutation) {
        match self {
            Mutation::Put((key, value)) => Mutation::Put((key.clone(), value.clone())),
            Mutation::Delete(key) => Mutation::Delete(key.clone()),
            Mutation::Lock(key) => Mutation::Lock(key.clone()),
            Mutation::Insert((key, value)) => Mutation::Insert((key.clone(), value.clone())),
        }
    }
}

} // verus!
