use vstd::prelude::*;

verus! {

/// Why an operation of the engine did not take effect.
#[derive(Clone, Copy, Debug, PartialEq, Eq, Structural)]
pub enum OreoError {
    /// The entity asked for is absent.
    NotFound,
    /// The entity to create exists already.
    Conflict,
    /// Storage or network is out of reach for the moment.
    Unavailable,
    /// A malformed or out-of-order input, which is dropped.
    Invalid,
    /// A failure that the process cannot outlive.
    Fatal,
}

impl OreoError {
    /// Whether a caller may try the same operation again with a backoff.
    pub open spec fn retryable(self) -> bool {
        self == OreoError::Unavailable
    }

    /// Whether a caller may try the same operation again with a backoff.
    pub fn is_retryable(&self) -> (r: bool)
        ensures
            r == self.retryable(),
    {
        match self {
            OreoError::Unavailable => true,
            _ => false,
        }
    }

    /// Whether the process has to stop on this error.
    pub open spec fn fatal(self) -> bool {
        self == OreoError::Fatal
    }

    /// Whether the process has to stop on this error.
    pub fn is_fatal(&self) -> (r: bool)
        ensures
            r == self.fatal(),
    {
        match self {
            OreoError::Fatal => true,
            _ => false,
        }
    }
}

/// Where an operation that failed was headed.
#[derive(Clone, Copy, Debug, PartialEq, Eq, Structural)]
pub enum Source {
    /// The ledger store.
    Store,
    /// The node.
    Node,
}

/// What to do after an operation has failed.
#[derive(Clone, Copy, Debug, PartialEq, Eq, Structural)]
pub enum Recovery {
    /// Try the operation again, after a backoff.
    Retry,
    /// Drop the input, log it, and go on.
    Drop,
    /// Hand the error to the caller.
    Surface(OreoError),
    /// Stop the process.
    Abort,
}

/// What to do after an operation on `source` has failed with `error`, once
/// `attempts` attempts were made of the `budget` that it has. What is out of
/// reach is tried again while the budget lasts; after that a store out of
/// reach stops the process, and a node out of reach is the caller's to deal
/// with. An absent or duplicate entity is the caller's at once, an invalid
/// input is dropped, and a fatal error stops the process.
pub open spec fn recovery(error: OreoError, source: Source, attempts: u32, budget: u32) -> Recovery {
    match error {
        OreoError::Unavailable => if attempts < budget {
            Recovery::Retry
        } else if source == Source::Store {
            Recovery::Abort
        } else {
            Recovery::Surface(OreoError::Unavailable)
        },
        OreoError::NotFound => Recovery::Surface(OreoError::NotFound),
        OreoError::Conflict => Recovery::Surface(OreoError::Conflict),
        OreoError::Invalid => Recovery::Drop,
        OreoError::Fatal => Recovery::Abort,
    }
}

/// What to do after an operation on `source` has failed with `error`, once
/// `attempts` attempts were made of the `budget` that it has.
pub fn recover(error: OreoError, source: Source, attempts: u32, budget: u32) -> (r: Recovery)
    ensures
        r == recovery(error, source, attempts, budget),
{
    match error {
        OreoError::Unavailable => {
            if attempts < budget {
                Recovery::Retry
            } else {
                match source {
                    Source::Store => Recovery::Abort,
                    Source::Node => Recovery::Surface(OreoError::Unavailable),
                }
            }
        },
        OreoError::NotFound => Recovery::Surface(OreoError::NotFound),
        OreoError::Conflict => Recovery::Surface(OreoError::Conflict),
        OreoError::Invalid => Recovery::Drop,
        OreoError::Fatal => Recovery::Abort,
    }
}

} // verus!
