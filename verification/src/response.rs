//! HTTP status codes and JSON responses with a status.
use vstd::prelude::*;

verus! {

/// An HTTP status code: a number from 100 to 999.
#[derive(Debug, Clone, Copy)]
pub struct StatusCode {
    code: u16,
}

impl View for StatusCode {
    type V = u16;

    closed spec fn view(&self) -> u16 {
        self.code
    }
}

impl StatusCode {
    #[verifier::type_invariant]
    spec fn in_range(&self) -> bool {
        100 <= self.code <= 999
    }

    /// The status code with number `code`; `None` unless `100 <= code <= 999`.
    pub fn from_u16(code: u16) -> (r: Option<StatusCode>)
        ensures
            r is Some <==> 100 <= code <= 999,
            r matches Some(s) ==> s@ == code,
    {
        if 100 <= code && code <= 999 {
            Some(StatusCode { code })
        } else {
            None
        }
    }

    /// The number of this status code, from 100 to 999.
    pub fn as_u16(&self) -> (r: u16)
        ensures
            r == self@,
            100 <= r <= 999,
    {
        proof {
            use_type_invariant(self);
        }
        self.code
    }

    /// `200 OK`.
    pub fn ok() -> (r: StatusCode)
        ensures
            r@ == 200,
    {
        StatusCode { code: 200 }
    }

    /// `500 Internal Server Error`.
    pub fn internal_server_error() -> (r: StatusCode)
        ensures
            r@ == 500,
    {
        StatusCode { code: 500 }
    }
}

/// A value sent as a JSON body.
#[derive(Debug)]
pub struct Json<T>(pub T);

/// A JSON body sent with a chosen status code.
#[derive(Debug)]
pub struct WithStatusCode<T> {
    pub status_code: StatusCode,
    pub value: Json<T>,
}

impl<T> Json<T> {
    /// This body, to be sent with `status_code`.
    pub fn with_status_code(self, status_code: StatusCode) -> (r: WithStatusCode<T>)
        ensures
            r.status_code == status_code,
            r.value == self,
    {
        WithStatusCode { status_code, value: self }
    }
}

/// The successful answer carrying `value`: `value` as JSON with `200 OK`.
pub fn ok_response<T>(value: T) -> (r: WithStatusCode<T>)
    ensures
        r.status_code@ == 200,
        r.value.0 == value,
{
    Json(value).with_status_code(StatusCode::ok())
}

} // verus!
