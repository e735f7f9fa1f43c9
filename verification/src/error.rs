//! The error type of the installation side of the library.

use vstd::prelude::*;
use crate::text::concat2;

verus! {

/// Why an operation did not succeed.
#[derive(Clone, Debug, PartialEq, Eq)]
pub enum VxApoError {
    /// A rule of this library refused the operation; the text says which.
    Internal(String),
    /// No endpoint has this GUID.
    DeviceNotFound(String),
    /// The registry holds no key at this path.
    KeyNotFound(String),
}

/// The contents of an error.
pub enum ErrorView {
    Internal(Seq<char>),
    DeviceNotFound(Seq<char>),
    KeyNotFound(Seq<char>),
}

impl View for VxApoError {
    type V = ErrorView;

    open spec fn view(&self) -> ErrorView {
        match self {
            VxApoError::Internal(s) => ErrorView::Internal(s@),
            VxApoError::DeviceNotFound(s) => ErrorView::DeviceNotFound(s@),
            VxApoError::KeyNotFound(s) => ErrorView::KeyNotFound(s@),
        }
    }
}

/// The text shown for an error.
pub open spec fn error_text(e: ErrorView) -> Seq<char> {
    match e {
        ErrorView::Internal(s) => s,
        ErrorView::DeviceNotFound(s) => "device not found: "@ + s,
        ErrorView::KeyNotFound(s) => "registry key not found: "@ + s,
    }
}

impl VxApoError {
    /// An internal error with the given text.
    pub fn internal(message: &str) -> (e: VxApoError)
        ensures
            e@ == ErrorView::Internal(message@),
    {
        VxApoError::Internal(message.to_owned())
    }

    /// The error for an endpoint GUID that no endpoint has.
    pub fn device_not_found(guid: &str) -> (e: VxApoError)
        ensures
            e@ == ErrorView::DeviceNotFound(guid@),
    {
        VxApoError::DeviceNotFound(guid.to_owned())
    }

    /// The text shown for this error.
    pub fn message(&self) -> (r: String)
        ensures
            r@ == error_text(self@),
    {
        match self {
            VxApoError::Internal(s) => s.clone(),
            VxApoError::DeviceNotFound(s) => concat2("device not found: ", s.as_str()),
            VxApoError::KeyNotFound(s) => concat2("registry key not found: ", s.as_str()),
        }
    }
}

} // verus!
