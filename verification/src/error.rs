//! The errors that the crate's operations return.

use vstd::prelude::*;

verus! {

/// Why a job store turned an operation down. A store that returns an error
/// has not changed.
#[derive(Clone, Copy, Debug, PartialEq, Eq, Structural)]
pub enum StoreError {
    /// No job has the given identifier.
    JobNotFound,
    /// A job with the given identifier is already stored.
    DuplicateId,
    /// The record breaks an invariant of job records.
    InvalidJob,
    /// A claim asked for a negative number of jobs.
    InvalidLimit,
    /// A deadline computed from the given time does not fit the clock's
    /// range.
    TimeOutOfRange,
    /// The store holds as many jobs as it can count.
    Full,
}

impl StoreError {
    /// A short description of the error.
    pub open spec fn text(self) -> Seq<char> {
        match self {
            StoreError::JobNotFound => "job not found"@,
            StoreError::DuplicateId => "a job with this id already exists"@,
            StoreError::InvalidJob => "job record breaks an invariant"@,
            StoreError::InvalidLimit => "claim limit must not be negative"@,
            StoreError::TimeOutOfRange => "deadline out of range"@,
            StoreError::Full => "job store is full"@,
        }
    }

    /// A short description of the error.
    pub fn message(self) -> (s: &'static str)
        ensures
            s@ == self.text(),
    {
        match self {
            StoreError::JobNotFound => "job not found",
            StoreError::DuplicateId => "a job with this id already exists",
            StoreError::InvalidJob => "job record breaks an invariant",
            StoreError::InvalidLimit => "claim limit must not be negative",
            StoreError::TimeOutOfRange => "deadline out of range",
            StoreError::Full => "job store is full",
        }
    }
}

} // verus!
