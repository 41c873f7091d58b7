//! Errors raised while building and rendering the compatibility list.
use vstd::prelude::*;

verus! {

/// Why a record or an answer was refused.
#[derive(Clone, Debug, PartialEq, Eq)]
pub enum CompatError {
    /// A required text field is empty where a non-empty one is needed.
    EmptyInput,
    /// A present link, given here, is not a URL with a host.
    MalformedLink(String),
    /// An answer that must be yes or no was neither.
    InvalidAnswer,
}

/// Whether the error is the malformed-link error for that link.
pub open spec fn is_malformed_link(e: CompatError, link: Seq<char>) -> bool {
    match e {
        CompatError::MalformedLink(t) => t@ == link,
        _ => false,
    }
}

impl CompatError {
    /// A human-readable description of the error.
    pub fn message(&self) -> (r: String)
        ensures
            self matches CompatError::MalformedLink(t) ==> r@ == "error parsing url for "@ + t@,
    {
        match self {
            CompatError::EmptyInput => String::from_str("a required text field is empty"),
            CompatError::MalformedLink(link) => {
                let mut m = String::from_str("error parsing url for ");
                m.append(link.as_str());
                m
            },
            CompatError::InvalidAnswer => String::from_str("An unrecognized value was entered."),
        }
    }
}

} // verus!
