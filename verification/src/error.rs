//! The error type shared by the library and its text rendering.
use crate::text::{append_str, chars_of, string_of};
use vstd::prelude::*;

verus! {

/// Errors the application reports to its front end.
#[derive(Debug, Clone)]
pub enum AppError {
    /// A failure of the local database, with its message.
    Database(String),
    Crypto(String),
    Unauthorized,
    InvalidInput(String),
    Internal(String),
}

/// The payload the front end receives for an error.
#[derive(Debug, Clone)]
pub struct ErrorPayload {
    pub message: String,
}

pub type AppResult<T> = Result<T, AppError>;

/// The text of an error, as its `Display` form reads.
pub open spec fn error_text(e: AppError) -> Seq<char> {
    match e {
        AppError::Database(m) => "database error: "@ + m@,
        AppError::Crypto(m) => "crypto error: "@ + m@,
        AppError::Unauthorized => "unauthorized"@,
        AppError::InvalidInput(m) => "invalid input: "@ + m@,
        AppError::Internal(m) => "internal error: "@ + m@,
    }
}

/// An `InvalidInput` error carrying the literal `msg`.
pub open spec fn is_invalid_input(r: AppError, msg: Seq<char>) -> bool {
    r matches AppError::InvalidInput(m) && m@ == msg
}

/// An `Internal` error carrying the literal `msg`.
pub open spec fn is_internal(r: AppError, msg: Seq<char>) -> bool {
    r matches AppError::Internal(m) && m@ == msg
}

/// Builds an `InvalidInput` error from a literal message.
pub fn invalid_input(msg: &str) -> (r: AppError)
    ensures
        is_invalid_input(r, msg@),
{
    let v = chars_of(msg);
    AppError::InvalidInput(string_of(&v))
}

/// Builds an `InvalidInput` error from a character vector.
pub fn invalid_input_chars(msg: &Vec<char>) -> (r: AppError)
    ensures
        is_invalid_input(r, msg@),
{
    AppError::InvalidInput(string_of(msg))
}

/// Builds an `Internal` error from a literal message.
pub fn internal_error(msg: &str) -> (r: AppError)
    ensures
        is_internal(r, msg@),
{
    let v = chars_of(msg);
    AppError::Internal(string_of(&v))
}

impl AppError {
    /// The error's text (its `Display` form).
    pub fn message(&self) -> (r: String)
        ensures
            r@ == error_text(*self),
    {
        let mut v: Vec<char> = Vec::new();
        match self {
            AppError::Database(m) => {
                append_str(&mut v, "database error: ");
                append_str(&mut v, m.as_str());
            },
            AppError::Crypto(m) => {
                append_str(&mut v, "crypto error: ");
                append_str(&mut v, m.as_str());
            },
            AppError::Unauthorized => {
                append_str(&mut v, "unauthorized");
            },
            AppError::InvalidInput(m) => {
                append_str(&mut v, "invalid input: ");
                append_str(&mut v, m.as_str());
            },
            AppError::Internal(m) => {
                append_str(&mut v, "internal error: ");
                append_str(&mut v, m.as_str());
            },
        }
        string_of(&v)
    }

    /// The payload sent to the front end.
    pub fn payload(&self) -> (r: ErrorPayload)
        ensures
            r.message@ == error_text(*self),
    {
        ErrorPayload { message: self.message() }
    }
}

} // verus!
