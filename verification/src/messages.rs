use vstd::prelude::*;
use vstd::string::StringExecFns;

verus! {

/// Why a `propose` attempt failed. Both kinds are terminal for the attempt
/// and carry a human-readable message; the caller decides whether to retry.
#[derive(Debug, PartialEq, Clone)]
pub enum ConsensusError {
    /// Phase 1 secured no majority of promises.
    PrepareError(String),
    /// Phase 1 succeeded but phase 2 secured no majority of accepts.
    AcceptError(String),
}

impl ConsensusError {
    /// The error as one line of text: the kind in brackets, then the message.
    pub fn describe(&self) -> (r: String)
        ensures
            self matches ConsensusError::PrepareError(m) ==> r@ == "[PrepareError] "@ + m@,
            self matches ConsensusError::AcceptError(m) ==> r@ == "[AcceptError] "@ + m@,
    {
        match self {
            ConsensusError::PrepareError(m) => {
                let mut line = String::from_str("[PrepareError] ");
                line.append(m.as_str());
                line
            },
            ConsensusError::AcceptError(m) => {
                let mut line = String::from_str("[AcceptError] ");
                line.append(m.as_str());
                line
            },
        }
    }
}

} // verus!
