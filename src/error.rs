use vstd::prelude::*;
use vstd::string::StringExecFns;

verus! {

/// The text carried by the error for a pool of zero workers.
pub open spec fn zero_size_message() -> Seq<char> {
    "Cannot create a thread pool with 0 threads."@
}

/// The error returned when a pool is requested with no workers.
#[derive(Debug)]
pub struct PoolCreationError {
    details: String,
}

impl PoolCreationError {
    /// The human-readable message that this error carries.
    pub closed spec fn message(&self) -> Seq<char> {
        self.details@
    }

    /// The error for a pool size of zero.
    pub fn new() -> (e: PoolCreationError)
        ensures
            e.message() == zero_size_message(),
            e.message().len() > 0,
    {
        proof {
            reveal_strlit("Cannot create a thread pool with 0 threads.");
        }
        PoolCreationError { details: String::from_str("Cannot create a thread pool with 0 threads.") }
    }

    /// The message, as text.
    pub fn description(&self) -> (r: &str)
        ensures
            r@ == self.message(),
    {
        self.details.as_str()
    }
}

} // verus!
