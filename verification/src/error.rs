//! The errors of the service and the answers they are turned into.
use vstd::prelude::*;

use crate::response::{Json, StatusCode, WithStatusCode};

verus! {

/// A failure while serving a request or running a crawl. Every variant but
/// the last carries the text of the underlying failure.
#[derive(Debug)]
pub enum Error {
    /// A request body that could not be read as JSON, with the status and
    /// the text that describe the rejection.
    JsonRejection { status: StatusCode, body_text: String },
    /// JSON that could not be read or written.
    SerdeJsonError(String),
    /// A failure of the worker runtime.
    WorkerError(String),
    /// A failure of the key-value store.
    KvError(String),
    /// A failure of the database.
    DbErr(String),
    /// A failed HTTP fetch.
    ReqwestError(String),
    /// Any other failure.
    InternalServerError,
}

/// The JSON body sent for an error.
#[derive(Debug)]
pub struct ErrorResponse {
    pub code: u16,
    pub message: String,
}

/// The message sent for [`Error::InternalServerError`].
pub const INTERNAL_SERVER_ERROR_MESSAGE: &'static str = "Internal Server Error";

/// The status code sent for an error: the rejection's own status for a
/// rejected JSON body, 500 for everything else.
pub open spec fn error_status(e: Error) -> u16 {
    match e {
        Error::JsonRejection { status, .. } => status@,
        _ => 500,
    }
}

/// The message sent for an error: the rejection's text, the underlying
/// failure's text, or "Internal Server Error".
pub open spec fn error_message(e: Error) -> Seq<char> {
    match e {
        Error::JsonRejection { body_text, .. } => body_text@,
        Error::SerdeJsonError(m) => m@,
        Error::WorkerError(m) => m@,
        Error::KvError(m) => m@,
        Error::DbErr(m) => m@,
        Error::ReqwestError(m) => m@,
        Error::InternalServerError => INTERNAL_SERVER_ERROR_MESSAGE@,
    }
}

impl Error {
    /// The answer sent for this error: a JSON body `{code, message}` whose
    /// code is the status it is sent with.
    pub fn into_response(self) -> (r: WithStatusCode<ErrorResponse>)
        ensures
            r.status_code@ == error_status(self),
            r.value.0.code == error_status(self),
            100 <= r.value.0.code <= 999,
            r.value.0.message@ == error_message(self),
    {
        let (code, message) = match self {
            Error::JsonRejection { status, body_text } => (status, body_text),
            Error::SerdeJsonError(m) => (StatusCode::internal_server_error(), m),
            Error::WorkerError(m) => (StatusCode::internal_server_error(), m),
            Error::KvError(m) => (StatusCode::internal_server_error(), m),
            Error::DbErr(m) => (StatusCode::internal_server_error(), m),
            Error::ReqwestError(m) => (StatusCode::internal_server_error(), m),
            Error::InternalServerError => (
                StatusCode::internal_server_error(),
                INTERNAL_SERVER_ERROR_MESSAGE.to_string(),
            ),
        };
        Json(ErrorResponse { code: code.as_u16(), message }).with_status_code(code)
    }
}

/// Only a rejected JSON body is answered with a status other than 500, and
/// it is answered with the rejection's own status.
pub proof fn lemma_error_status(e: Error)
    ensures
        !(e is JsonRejection) ==> error_status(e) == 500,
        e matches Error::JsonRejection { status, .. } ==> error_status(e) == status@,
{
}

/// An error answers with the text it carries: the rejection's text for a
/// rejected JSON body, the underlying failure's text for a failure, and
/// "Internal Server Error" for any other failure.
pub proof fn lemma_error_message(e: Error)
    ensures
        e matches Error::JsonRejection { body_text, .. } ==> error_message(e) == body_text@,
        e matches Error::SerdeJsonError(m) ==> error_message(e) == m@,
        e matches Error::WorkerError(m) ==> error_message(e) == m@,
        e matches Error::KvError(m) ==> error_message(e) == m@,
        e matches Error::DbErr(m) ==> error_message(e) == m@,
        e matches Error::ReqwestError(m) ==> error_message(e) == m@,
        e is InternalServerError ==> error_message(e) == "Internal Server Error"@,
{
}

} // verus!
