//! Errors of the HTTP API.
use vstd::prelude::*;

verus! {

/// Why a request was not served.
#[derive(Debug, Clone, PartialEq, Eq)]
pub enum ApiError {
    /// The request itself is wrong.
    BadRequest(String),
    /// What the request names does not exist.
    NotFound(String),
    /// The request does not fit the current state.
    Conflict(String),
    /// The request may succeed later.
    Unavailable(String),
    /// Something else failed.
    Internal(String),
}

/// Model of an API error.
pub enum Refusal {
    BadRequest(Seq<char>),
    NotFound(Seq<char>),
    Conflict(Seq<char>),
    Unavailable(Seq<char>),
    Internal(Seq<char>),
}

impl View for ApiError {
    type V = Refusal;

    open spec fn view(&self) -> Refusal {
        match *self {
            ApiError::BadRequest(message) => Refusal::BadRequest(message@),
            ApiError::NotFound(message) => Refusal::NotFound(message@),
            ApiError::Conflict(message) => Refusal::Conflict(message@),
            ApiError::Unavailable(message) => Refusal::Unavailable(message@),
            ApiError::Internal(message) => Refusal::Internal(message@),
        }
    }
}

/// A message made of a name between two fixed parts.
pub fn quoted(head: &str, name: &str, tail: &str) -> (r: String)
    ensures
        r@ == head@ + name@ + tail@,
{
    let mut message = head.to_owned();
    message.append(name);
    message.append(tail);
    message
}

} // verus!
