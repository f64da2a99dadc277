//! What the server answers where it refuses.

use vstd::prelude::*;

use crate::api::ApiError;

verus! {

/// A refusal: the status of the answer, and the words in its body.
#[derive(Debug)]
pub struct AppError {
    pub status: u16,
    pub message: String,
}

/// An `AppError`, as specifications see it.
#[verifier::ext_equal]
pub struct Refusal {
    pub status: u16,
    pub message: Seq<char>,
}

impl View for AppError {
    type V = Refusal;

    open spec fn view(&self) -> Refusal {
        Refusal { status: self.status, message: self.message@ }
    }
}

impl Refusal {
    pub open spec fn bad_request(m: Seq<char>) -> Refusal {
        Refusal { status: 400, message: m }
    }

    pub open spec fn unauthorized(m: Seq<char>) -> Refusal {
        Refusal { status: 401, message: m }
    }

    pub open spec fn not_found(m: Seq<char>) -> Refusal {
        Refusal { status: 404, message: m }
    }

    pub open spec fn conflict(m: Seq<char>) -> Refusal {
        Refusal { status: 409, message: m }
    }

    pub open spec fn internal(m: Seq<char>) -> Refusal {
        Refusal { status: 500, message: m }
    }
}

impl AppError {
    /// The request is not what it should be.
    pub fn bad_request(m: &str) -> (r: AppError)
        ensures
            r@ == Refusal::bad_request(m@),
    {
        AppError { status: 400, message: m.to_owned() }
    }

    /// The request comes from nobody who is known.
    pub fn unauthorized(m: &str) -> (r: AppError)
        ensures
            r@ == Refusal::unauthorized(m@),
    {
        AppError { status: 401, message: m.to_owned() }
    }

    /// What the request is about is not there.
    pub fn not_found(m: &str) -> (r: AppError)
        ensures
            r@ == Refusal::not_found(m@),
    {
        AppError { status: 404, message: m.to_owned() }
    }

    /// What the request asks for is taken.
    pub fn conflict(m: &str) -> (r: AppError)
        ensures
            r@ == Refusal::conflict(m@),
    {
        AppError { status: 409, message: m.to_owned() }
    }

    /// The server failed.
    pub fn internal(m: String) -> (r: AppError)
        ensures
            r@ == Refusal::internal(m@),
    {
        AppError { status: 500, message: m }
    }

    /// The body of the answer.
    pub fn body(&self) -> (r: ApiError)
        ensures
            r.error@ == self@.message,
    {
        ApiError { error: self.message.clone() }
    }
}

} // verus!
