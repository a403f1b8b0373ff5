//! The failures that starting a node can report.

use vstd::prelude::*;
use vstd::string::*;

verus! {

/// `std::io::Error`, as the operating system hands it out when a process
/// cannot be created.
#[verifier::external_type_specification]
#[verifier::external_body]
pub struct ExIoError(std::io::Error);

/// Why a node could not be started.
#[derive(Debug, PartialEq, Eq)]
pub enum Error {
    /// The operating system refused to create the process; the payload is
    /// its diagnostic.
    FailedToSpawn(String),
    /// The registry already holds an entry under the requested name.
    NodeAlreadyExists,
}

impl Error {
    /// Whether `self` is the error that reports `err`: a `FailedToSpawn`
    /// that carries the text `err` displays as.
    pub open spec fn reports(self, err: std::io::Error) -> bool {
        self matches Error::FailedToSpawn(reason) && to_string_from_display_ensures::<
            std::io::Error,
        >(&err, reason)
    }

    /// Wraps the failure of a process creation.
    pub fn from_spawn(err: std::io::Error) -> (e: Error)
        ensures
            e.reports(err),
    {
        Error::FailedToSpawn(err.to_string())
    }

    /// The text shown for `self`.
    pub open spec fn spec_message(self) -> Seq<char> {
        match self {
            Error::FailedToSpawn(reason) => "Failed to spawn node: "@ + reason@,
            Error::NodeAlreadyExists => "Node already exists"@,
        }
    }

    /// A human-readable description of the failure.
    pub fn message(&self) -> (text: String)
        ensures
            text@ == self.spec_message(),
    {
        match self {
            Error::FailedToSpawn(reason) => {
                String::from_str("Failed to spawn node: ").concat(reason.as_str())
            },
            Error::NodeAlreadyExists => String::from_str("Node already exists"),
        }
    }
}

} // verus!
