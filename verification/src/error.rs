//! Unified error taxonomy and its HTTP mapping.

use vstd::prelude::*;

verus! {

/// Authentication failures detected before any key lookup.
#[derive(Clone, Copy, Debug, PartialEq, Eq, Structural)]
pub enum HttpError {
    /// The `Authorization` header was present but not of the form `Bearer <key>`.
    MalformedHeader,
    /// Authentication was required and none was given.
    Unauthenticated,
    /// The key is unknown or lacks the needed capability.
    Forbidden,
}

/// Every failure the library reports.
#[derive(Clone, Copy, Debug, PartialEq, Eq, Structural)]
pub enum Error {
    /// The store could not be reached.
    Connectivity,
    /// A document could not be encoded or decoded.
    Serialization,
    /// A looked-up document does not exist.
    NotFound,
    /// An atomic update lost its race; the winner already applied it.
    Conflict,
    /// A SAN move list contains an illegal move; the whole request is rejected.
    InvalidMoves,
    /// An authentication failure.
    Http(HttpError),
    /// A completed job's analysis is missing an evaluation the downstream
    /// payload needs; the dispatch is aborted.
    IncompleteAnalysis,
    /// The downstream consumer rejected or never received the payload.
    DownstreamDispatchFailed,
    /// Catch-all.
    Internal,
}

/// The HTTP status each error kind surfaces as.
pub open spec fn spec_http_status(e: Error) -> u16 {
    match e {
        Error::Connectivity => 503,
        Error::NotFound => 404,
        Error::InvalidMoves => 400,
        Error::Http(HttpError::MalformedHeader) => 401,
        Error::Http(HttpError::Unauthenticated) => 401,
        Error::Http(HttpError::Forbidden) => 403,
        _ => 500,
    }
}

/// The canonical response text for each error kind.
pub open spec fn spec_http_text(e: Error) -> Seq<char> {
    match e {
        Error::Connectivity => "SERVICE_UNAVAILABLE"@,
        Error::NotFound => "NOT_FOUND"@,
        Error::InvalidMoves => "INVALID_MOVES"@,
        Error::Http(HttpError::MalformedHeader) => "UNAUTHORIZED"@,
        Error::Http(HttpError::Unauthenticated) => "UNAUTHORIZED"@,
        Error::Http(HttpError::Forbidden) => "FORBIDDEN"@,
        _ => "INTERNAL_SERVER_ERROR"@,
    }
}

/// An API error body, serializable by the HTTP edge.
pub struct ErrorMessage {
    pub code: u16,
    pub message: String,
}

/// Maps an error to the status code and message its HTTP response carries.
pub fn error_message(e: Error) -> (r: ErrorMessage)
    ensures
        r.code == spec_http_status(e),
        r.message@ == spec_http_text(e),
{
    match e {
        Error::Connectivity => ErrorMessage { code: 503, message: "SERVICE_UNAVAILABLE".to_owned() },
        Error::NotFound => ErrorMessage { code: 404, message: "NOT_FOUND".to_owned() },
        Error::InvalidMoves => ErrorMessage { code: 400, message: "INVALID_MOVES".to_owned() },
        Error::Http(HttpError::MalformedHeader) => ErrorMessage {
            code: 401,
            message: "UNAUTHORIZED".to_owned(),
        },
        Error::Http(HttpError::Unauthenticated) => ErrorMessage {
            code: 401,
            message: "UNAUTHORIZED".to_owned(),
        },
        Error::Http(HttpError::Forbidden) => ErrorMessage {
            code: 403,
            message: "FORBIDDEN".to_owned(),
        },
        _ => ErrorMessage { code: 500, message: "INTERNAL_SERVER_ERROR".to_owned() },
    }
}

} // verus!
