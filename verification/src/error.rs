//! The errors that a response stream can end in.

use vstd::prelude::*;

verus! {

/// HTTP status 400.
pub const BAD_REQUEST: u16 = 400;

/// HTTP status 401.
pub const UNAUTHORIZED: u16 = 401;

/// HTTP status 500.
pub const INTERNAL_SERVER_ERROR: u16 = 500;

#[derive(Debug, Clone, PartialEq, Eq)]
pub enum ApiError {
    /// The provider refused the request, with the HTTP status that says why.
    Api { status: u16, message: String },
    RateLimit(String),
    ContextWindowExceeded,
    /// The stream broke off.
    Stream(String),
}

pub enum ApiErrorView {
    Api { status: u16, message: Seq<char> },
    RateLimit(Seq<char>),
    ContextWindowExceeded,
    Stream(Seq<char>),
}

impl DeepView for ApiError {
    type V = ApiErrorView;

    open spec fn deep_view(&self) -> ApiErrorView {
        match self {
            ApiError::Api { status, message } => ApiErrorView::Api {
                status: *status,
                message: message@,
            },
            ApiError::RateLimit(message) => ApiErrorView::RateLimit(message@),
            ApiError::ContextWindowExceeded => ApiErrorView::ContextWindowExceeded,
            ApiError::Stream(message) => ApiErrorView::Stream(message@),
        }
    }
}

} // verus!
