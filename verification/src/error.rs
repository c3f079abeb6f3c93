//! The ways in which the accounting layer refuses a request.

use vstd::prelude::*;

use crate::text::{cat, own};

verus! {

#[derive(Debug)]
pub enum Error {
    NotFound(String),
    Invalid(String),
    Locked(String),
    Unbalanced(String),
    Conflict(String),
    Parse(String),
    Json(String),
}

pub type Result<T> = std::result::Result<T, Error>;

/// What an error says.
pub enum Refusal {
    NotFound(Seq<char>),
    Invalid(Seq<char>),
    Locked(Seq<char>),
    Unbalanced(Seq<char>),
    Conflict(Seq<char>),
    Parse(Seq<char>),
    Json(Seq<char>),
}

/// A message with the class of the error before it.
pub open spec fn refusal_text(r: Refusal) -> Seq<char> {
    match r {
        Refusal::NotFound(m) => "not found: "@ + m,
        Refusal::Invalid(m) => "invalid: "@ + m,
        Refusal::Locked(m) => "locked: "@ + m,
        Refusal::Unbalanced(m) => "unbalanced entry: "@ + m,
        Refusal::Conflict(m) => "conflict: "@ + m,
        Refusal::Parse(m) => "parse error: "@ + m,
        Refusal::Json(m) => "json error: "@ + m,
    }
}

impl View for Error {
    type V = Refusal;

    open spec fn view(&self) -> Refusal {
        match *self {
            Error::NotFound(m) => Refusal::NotFound(m@),
            Error::Invalid(m) => Refusal::Invalid(m@),
            Error::Locked(m) => Refusal::Locked(m@),
            Error::Unbalanced(m) => Refusal::Unbalanced(m@),
            Error::Conflict(m) => Refusal::Conflict(m@),
            Error::Parse(m) => Refusal::Parse(m@),
            Error::Json(m) => Refusal::Json(m@),
        }
    }
}

impl Error {
    /// The message with the class of the error before it.
    pub fn text(&self) -> (r: String)
        ensures
            r@ == refusal_text(self@),
    {
        match self {
            Error::NotFound(m) => cat("not found: ", m.as_str()),
            Error::Invalid(m) => cat("invalid: ", m.as_str()),
            Error::Locked(m) => cat("locked: ", m.as_str()),
            Error::Unbalanced(m) => cat("unbalanced entry: ", m.as_str()),
            Error::Conflict(m) => cat("conflict: ", m.as_str()),
            Error::Parse(m) => cat("parse error: ", m.as_str()),
            Error::Json(m) => cat("json error: ", m.as_str()),
        }
    }

    /// Whether this is an `Invalid` with the message `m`.
    pub open spec fn invalid(self, m: Seq<char>) -> bool {
        self matches Error::Invalid(t) && t@ == m
    }

    pub open spec fn conflict(self, m: Seq<char>) -> bool {
        self matches Error::Conflict(t) && t@ == m
    }

    pub open spec fn locked(self, m: Seq<char>) -> bool {
        self matches Error::Locked(t) && t@ == m
    }

    pub open spec fn not_found(self, m: Seq<char>) -> bool {
        self matches Error::NotFound(t) && t@ == m
    }

    pub open spec fn unbalanced(self, m: Seq<char>) -> bool {
        self matches Error::Unbalanced(t) && t@ == m
    }

    pub open spec fn unreadable(self, m: Seq<char>) -> bool {
        self matches Error::Parse(t) && t@ == m
    }
}

pub fn invalid(m: &str) -> (e: Error)
    ensures
        e.invalid(m@),
{
    Error::Invalid(own(m))
}

pub fn conflict(m: &str) -> (e: Error)
    ensures
        e.conflict(m@),
{
    Error::Conflict(own(m))
}

pub fn locked(m: &str) -> (e: Error)
    ensures
        e.locked(m@),
{
    Error::Locked(own(m))
}

pub fn not_found(m: &str) -> (e: Error)
    ensures
        e.not_found(m@),
{
    Error::NotFound(own(m))
}

pub fn unbalanced(m: &str) -> (e: Error)
    ensures
        e.unbalanced(m@),
{
    Error::Unbalanced(own(m))
}

pub fn unreadable(m: &str) -> (e: Error)
    ensures
        e.unreadable(m@),
{
    Error::Parse(own(m))
}

} // verus!
