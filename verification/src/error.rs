//! Errors of the library.
use vstd::prelude::*;

verus! {

/// What went wrong.
#[derive(Debug, Clone, PartialEq, Eq)]
pub enum Error {
    /// The configuration cannot be used.
    Config {
        /// What was attempted.
        operation: String,
        /// Why it failed.
        reason: String,
    },
    /// The agent in the guest refused or failed.
    Agent {
        /// What was attempted.
        operation: String,
        /// Why it failed.
        reason: String,
    },
    /// The machine cannot be created.
    VmCreation {
        /// Why it failed.
        reason: String,
    },
}

/// Model of an error.
pub enum Failure {
    Config { operation: Seq<char>, reason: Seq<char> },
    Agent { operation: Seq<char>, reason: Seq<char> },
    VmCreation { reason: Seq<char> },
}

impl View for Error {
    type V = Failure;

    open spec fn view(&self) -> Failure {
        match *self {
            Error::Config { operation, reason } => Failure::Config {
                operation: operation@,
                reason: reason@,
            },
            Error::Agent { operation, reason } => Failure::Agent {
                operation: operation@,
                reason: reason@,
            },
            Error::VmCreation { reason } => Failure::VmCreation { reason: reason@ },
        }
    }
}

impl Failure {
    /// The error as a sentence.
    pub open spec fn sentence(self) -> Seq<char> {
        match self {
            Failure::Config { operation, reason } => operation + ": "@ + reason,
            Failure::Agent { operation, reason } => "agent operation failed: "@ + operation + ": "@
                + reason,
            Failure::VmCreation { reason } => "machine creation failed: "@ + reason,
        }
    }
}

impl Error {
    /// A configuration error.
    pub fn config(operation: &str, reason: String) -> (r: Self)
        ensures
            r@ == (Failure::Config { operation: operation@, reason: reason@ }),
    {
        Error::Config { operation: operation.to_owned(), reason }
    }

    /// An error of the agent.
    pub fn agent(operation: &str, reason: String) -> (r: Self)
        ensures
            r@ == (Failure::Agent { operation: operation@, reason: reason@ }),
    {
        Error::Agent { operation: operation.to_owned(), reason }
    }

    /// A machine that cannot be created.
    pub fn vm_creation(reason: String) -> (r: Self)
        ensures
            r@ == (Failure::VmCreation { reason: reason@ }),
    {
        Error::VmCreation { reason }
    }

    /// The error as a sentence.
    pub fn description(&self) -> (r: String)
        ensures
            r@ == self@.sentence(),
    {
        match self {
            Error::Config { operation, reason } => {
                let mut text = operation.clone();
                text.append(": ");
                text.append(reason.as_str());
                text
            },
            Error::Agent { operation, reason } => {
                let mut text = "agent operation failed: ".to_owned();
                text.append(operation.as_str());
                text.append(": ");
                text.append(reason.as_str());
                text
            },
            Error::VmCreation { reason } => {
                let mut text = "machine creation failed: ".to_owned();
                text.append(reason.as_str());
                text
            },
        }
    }
}

/// A sentence ends with the reason of the failure, and what was attempted stands
/// right before it.
pub proof fn law_sentences_give_the_reason(operation: Seq<char>, reason: Seq<char>)
    ensures
        (Failure::Config { operation, reason }).sentence() == operation + (": "@ + reason),
        (Failure::Agent { operation, reason }).sentence() == "agent operation failed: "@ + (
        operation + (": "@ + reason)),
        (Failure::VmCreation { reason }).sentence() == "machine creation failed: "@ + reason,
{
}

} // verus!
