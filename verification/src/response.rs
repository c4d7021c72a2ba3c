//! The shapes of the control surface's answers, independent of any HTTP
//! library: a JSON body, an error with its status code, or one of two
//! alternatives.

use vstd::prelude::*;

verus! {

/// A response body that is served as `application/json`.
pub struct Json<R = Vec<u8>>(pub R);

/// One of two responses.
pub enum Either<T, U> {
    Left(T),
    Right(U),
}

/// What a control-surface operation answers: a JSON document, a caller
/// error, an absent record, or a store failure.
pub enum ApiResponse {
    Success(String),
    BadRequest(String),
    NotFound,
    InternalError(String),
}

impl ApiResponse {
    /// The HTTP status code each answer is served with.
    pub fn status_code(&self) -> (c: u16)
        ensures
            c == (match *self {
                ApiResponse::Success(_) => 200u16,
                ApiResponse::BadRequest(_) => 400u16,
                ApiResponse::NotFound => 404u16,
                ApiResponse::InternalError(_) => 500u16,
            }),
    {
        match self {
            ApiResponse::Success(_) => 200,
            ApiResponse::BadRequest(_) => 400,
            ApiResponse::NotFound => 404,
            ApiResponse::InternalError(_) => 500,
        }
    }
}

/// A JSON document, served with status 200.
pub fn into_json(data: String) -> (r: ApiResponse)
    ensures
        r == ApiResponse::Success(data),
{
    ApiResponse::Success(data)
}

/// A failure of the store or of serialisation, served with status 500.
pub fn into_internal_error(msg: String) -> (r: ApiResponse)
    ensures
        r == ApiResponse::InternalError(msg),
{
    ApiResponse::InternalError(msg)
}

/// A caller error, served with status 400.
pub fn into_bad_request(msg: String) -> (r: ApiResponse)
    ensures
        r == ApiResponse::BadRequest(msg),
{
    ApiResponse::BadRequest(msg)
}

/// An absent record, served with status 404.
pub fn not_found() -> (r: ApiResponse)
    ensures
        r == ApiResponse::NotFound,
{
    ApiResponse::NotFound
}

} // verus!
