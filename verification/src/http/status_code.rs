//! The status codes that the server answers with.

use vstd::prelude::*;

verus! {

/// The status of a response.
#[derive(Clone, Copy, PartialEq, Eq, Debug, Structural)]
pub enum StatusCode {
    OK,
    BadRequest,
    NotFound,
    MethodNotAllowed,
}

impl StatusCode {
    /// The number of this status.
    pub open spec fn number(self) -> nat {
        match self {
            StatusCode::OK => 200,
            StatusCode::BadRequest => 400,
            StatusCode::NotFound => 404,
            StatusCode::MethodNotAllowed => 405,
        }
    }

    /// The reason phrase that goes with this status.
    pub open spec fn phrase(self) -> Seq<char> {
        match self {
            StatusCode::OK => "OK"@,
            StatusCode::BadRequest => "Bad Request"@,
            StatusCode::NotFound => "Not Found"@,
            StatusCode::MethodNotAllowed => "Method Not Allowed"@,
        }
    }

    /// The number of this status.
    pub fn code(&self) -> (r: u16)
        ensures
            r == self.number(),
    {
        match self {
            StatusCode::OK => 200,
            StatusCode::BadRequest => 400,
            StatusCode::NotFound => 404,
            StatusCode::MethodNotAllowed => 405,
        }
    }

    /// The reason phrase that goes with this status.
    pub fn reason_phrase(&self) -> (r: &'static str)
        ensures
            r@ == self.phrase(),
    {
        match self {
            StatusCode::OK => "OK",
            StatusCode::BadRequest => "Bad Request",
            StatusCode::NotFound => "Not Found",
            StatusCode::MethodNotAllowed => "Method Not Allowed",
        }
    }
}

} // verus!
