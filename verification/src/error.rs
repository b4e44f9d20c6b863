//! Error taxonomy: client faults, missing or wrong credentials,
//! server misconfiguration, and optimization failures.

use vstd::prelude::*;

use crate::text::{chars_to_string, push_all, str_to_chars};

verus! {

/// The failures a request can surface.
#[derive(Debug)]
pub enum AppError {
    /// A structurally invalid request.
    BadRequest(String),
    /// A missing or wrong credential.
    Unauthorized,
    /// An internal failure, including a missing server secret.
    Internal(String),
    /// An unexpected optimization failure.
    Optimization(String),
}

/// The text of an error, matching its category.
pub open spec fn app_error_message(e: AppError) -> Seq<char> {
    match e {
        AppError::BadRequest(m) => "Bad request: "@ + m@,
        AppError::Unauthorized => "Unauthorized"@,
        AppError::Internal(m) => "Internal error: "@ + m@,
        AppError::Optimization(m) => "Optimization error: "@ + m@,
    }
}

impl AppError {
    /// Render the error as one line of text.
    pub fn message(&self) -> (r: String)
        ensures
            r@ == app_error_message(*self),
    {
        match self {
            AppError::BadRequest(m) => {
                let mut v = str_to_chars("Bad request: ");
                push_all(&mut v, &str_to_chars(m.as_str()));
                chars_to_string(&v)
            },
            AppError::Unauthorized => String::from_str("Unauthorized"),
            AppError::Internal(m) => {
                let mut v = str_to_chars("Internal error: ");
                push_all(&mut v, &str_to_chars(m.as_str()));
                chars_to_string(&v)
            },
            AppError::Optimization(m) => {
                let mut v = str_to_chars("Optimization error: ");
                push_all(&mut v, &str_to_chars(m.as_str()));
                chars_to_string(&v)
            },
        }
    }
}

} // verus!
