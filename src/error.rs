//! Outcomes of store operations.
use vstd::prelude::*;

verus! {

/// Why an operation was refused.
#[derive(Debug, Clone, Copy, PartialEq, Eq, Structural)]
pub enum DBError {
    /// A bulk read named a key that the store does not hold.
    KeyNotFound,
    /// The key holds a value of another kind than the operation works on.
    WrongValueType,
    /// The key budget does not admit another key.
    OutOfKeysSize,
}

/// Success of a write: `Ok` when it was performed, `Nil` when a condition
/// made it a no-op.
#[derive(Debug, Clone, Copy, PartialEq, Eq, Structural)]
pub enum DBOk {
    OK,
    Nil,
}

pub type DBResult<T> = Result<T, DBError>;

} // verus!
