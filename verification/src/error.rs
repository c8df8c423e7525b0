use vstd::prelude::*;

verus! {

/// The library's error type. Every fallible operation reports its failure as
/// a single message string.
#[derive(Debug)]
pub enum LogError {
    E(String),
}

impl LogError {
    /// The message carried by this error.
    pub fn message(&self) -> (r: &String)
        ensures
            self == LogError::E(*r),
    {
        match self {
            LogError::E(m) => m,
        }
    }
}

} // verus!
