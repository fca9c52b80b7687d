//! The errors that the library reports.
use vstd::prelude::*;

verus! {

/// Why an operation was refused.
#[derive(Debug, Clone)]
pub enum StoreError {
    /// A tag name or a tag value breaks the rules for tags.
    InvalidTag { tag: String, reason: String },
    /// A payload that should hold a JSON object could not be read as one.
    Parse { message: String },
    /// A message lacks a field that it must carry.
    MissingField { field: String },
}

impl StoreError {
    /// The error is `InvalidTag` for the tag `tag`, with the reason `reason`.
    pub open spec fn is_invalid_tag(&self, tag: Seq<char>, reason: Seq<char>) -> bool {
        match self {
            StoreError::InvalidTag { tag: t, reason: r } => t@ == tag && r@ == reason,
            _ => false,
        }
    }

    /// The tag that the error names, if it names one.
    pub fn tag(&self) -> (r: Option<&String>)
        ensures
            match self {
                StoreError::InvalidTag { tag, .. } => r == Some(tag),
                _ => r.is_none(),
            },
    {
        match self {
            StoreError::InvalidTag { tag, .. } => Some(tag),
            _ => None,
        }
    }

    /// The text that says what went wrong.
    pub fn reason(&self) -> (r: &String)
        ensures
            match self {
                StoreError::InvalidTag { reason, .. } => r == reason,
                StoreError::Parse { message } => r == message,
                StoreError::MissingField { field } => r == field,
            },
    {
        match self {
            StoreError::InvalidTag { reason, .. } => reason,
            StoreError::Parse { message } => message,
            StoreError::MissingField { field } => field,
        }
    }
}

} // verus!
