//! The error taxonomy shared by the registry, the snapshot, the dataset
//! adapter and the protocol layer, together with the fixed HTTP status each
//! entry maps to.

use vstd::prelude::*;

verus! {

/// A typed failure of a registry, snapshot or protocol operation.
///
/// Every variant carries a diagnostic message for the response body.
#[derive(Debug)]
pub enum StoreError {
    /// An input file path does not exist.
    InputNotFound(String),
    /// A file extension or media type that no pipeline understands.
    UnsupportedFormat(String),
    /// A query, update or term that could not be parsed.
    ParseError(String),
    /// A backing store file could not be loaded into a snapshot.
    StoreLoadError(String),
    /// A graph-lifecycle conflict: the target graph already exists.
    AlreadyExists(String),
    /// A graph-lifecycle conflict: the target graph does not exist.
    NotFound(String),
    /// Content negotiation found no acceptable format.
    NotAcceptable(String),
    /// A mutation that the append-only protocol never allows.
    Forbidden(String),
    /// An unexpected internal failure.
    InternalError(String),
}

/// The fixed HTTP status that a [`StoreError`] maps to.
pub open spec fn spec_status_of(e: StoreError) -> u16 {
    match e {
        StoreError::InputNotFound(_) => 404,
        StoreError::UnsupportedFormat(_) => 415,
        StoreError::ParseError(_) => 400,
        StoreError::StoreLoadError(_) => 500,
        StoreError::AlreadyExists(_) => 400,
        StoreError::NotFound(_) => 404,
        StoreError::NotAcceptable(_) => 406,
        StoreError::Forbidden(_) => 403,
        StoreError::InternalError(_) => 500,
    }
}

/// The diagnostic message carried by a [`StoreError`].
pub open spec fn spec_message_of(e: StoreError) -> Seq<char> {
    match e {
        StoreError::InputNotFound(m) => m@,
        StoreError::UnsupportedFormat(m) => m@,
        StoreError::ParseError(m) => m@,
        StoreError::StoreLoadError(m) => m@,
        StoreError::AlreadyExists(m) => m@,
        StoreError::NotFound(m) => m@,
        StoreError::NotAcceptable(m) => m@,
        StoreError::Forbidden(m) => m@,
        StoreError::InternalError(m) => m@,
    }
}

impl StoreError {
    /// The fixed HTTP status for this error: 400 for parse and lifecycle
    /// conflicts, 403 for forbidden mutations, 404 for missing inputs and
    /// graphs, 406 for failed negotiation, 415 for unsupported media types,
    /// 500 for storage and internal failures.
    pub fn status(&self) -> (s: u16)
        ensures
            s == spec_status_of(*self),
    {
        match self {
            StoreError::InputNotFound(_) => 404,
            StoreError::UnsupportedFormat(_) => 415,
            StoreError::ParseError(_) => 400,
            StoreError::StoreLoadError(_) => 500,
            StoreError::AlreadyExists(_) => 400,
            StoreError::NotFound(_) => 404,
            StoreError::NotAcceptable(_) => 406,
            StoreError::Forbidden(_) => 403,
            StoreError::InternalError(_) => 500,
        }
    }

    /// The diagnostic message, for the response body.
    pub fn message(&self) -> (m: String)
        ensures
            m@ == spec_message_of(*self),
    {
        match self {
            StoreError::InputNotFound(m) => m.clone(),
            StoreError::UnsupportedFormat(m) => m.clone(),
            StoreError::ParseError(m) => m.clone(),
            StoreError::StoreLoadError(m) => m.clone(),
            StoreError::AlreadyExists(m) => m.clone(),
            StoreError::NotFound(m) => m.clone(),
            StoreError::NotAcceptable(m) => m.clone(),
            StoreError::Forbidden(m) => m.clone(),
            StoreError::InternalError(m) => m.clone(),
        }
    }
}

} // verus!
