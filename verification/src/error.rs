//! Error kinds of the synchronization engine.

use vstd::prelude::*;

verus! {

/// One error kind per failure source. Variants that mirror a transport
/// failure (chat platform, HTTP, database, JSON decoding) carry the message
/// reported by the transport; the library itself only ever constructs
/// `LinearApi`, `AttachmentUpload` and `Internal`.
#[derive(Debug, Clone, PartialEq, Eq)]
pub enum AppError {
    /// The chat platform reported an error.
    Discord(String),
    /// An HTTP transfer failed.
    Http(String),
    /// The persistence layer failed.
    Database(String),
    /// A payload could not be decoded.
    Json(String),
    /// The issue tracker rejected a request.
    LinearApi(String),
    /// An attachment could not be mirrored.
    AttachmentUpload(String),
    /// An internal consistency expectation failed.
    Internal(String),
}

impl AppError {
    /// The message carried by the error, whatever its kind.
    pub fn message(&self) -> (r: &String)
        ensures
            r@ == self.text(),
    {
        match self {
            AppError::Discord(m) => m,
            AppError::Http(m) => m,
            AppError::Database(m) => m,
            AppError::Json(m) => m,
            AppError::LinearApi(m) => m,
            AppError::AttachmentUpload(m) => m,
            AppError::Internal(m) => m,
        }
    }

    /// The characters of the carried message.
    pub open spec fn text(&self) -> Seq<char> {
        match self {
            AppError::Discord(m) => m@,
            AppError::Http(m) => m@,
            AppError::Database(m) => m@,
            AppError::Json(m) => m@,
            AppError::LinearApi(m) => m@,
            AppError::AttachmentUpload(m) => m@,
            AppError::Internal(m) => m@,
        }
    }
}

} // verus!
