//! Errors of the API: an HTTP status and a text for the user.

use vstd::prelude::*;

use crate::paths::PathRejection;
use crate::text;

verus! {

/// Error of a handler: HTTP status and a description that a person understands.
#[derive(Debug, PartialEq, Eq)]
pub struct ApiError {
    pub status: u16,
    pub detail: String,
}

/// Result of a handler that may fail.
pub type ApiResult<T> = Result<T, ApiError>;

/// An error with its text as a sequence of characters.
#[verifier::ext_equal]
pub struct ApiErrorView {
    pub status: u16,
    pub detail: Seq<char>,
}

impl View for ApiError {
    type V = ApiErrorView;

    open spec fn view(&self) -> ApiErrorView {
        ApiErrorView { status: self.status, detail: self.detail@ }
    }
}

/// The error of a path that was refused; `what` is what was asked for.
pub open spec fn path_error(rejection: PathRejection, what: Seq<char>) -> ApiErrorView {
    match rejection {
        PathRejection::Invalid => ApiErrorView {
            status: 400,
            detail: "Недопустимый путь: "@ + what,
        },
        PathRejection::NotFound => ApiErrorView { status: 404, detail: "Не найдено: "@ + what },
        PathRejection::OutsideRoots => ApiErrorView {
            status: 403,
            detail: "Доступ запрещён: "@ + what + " находится вне разрешённых папок"@,
        },
    }
}

impl ApiError {
    pub fn new(status: u16, detail: String) -> (r: Self)
        ensures
            r@ == (ApiErrorView { status, detail: detail@ }),
    {
        ApiError { status, detail }
    }

    /// The request itself is wrong.
    pub fn bad_request(detail: String) -> (r: Self)
        ensures
            r@ == (ApiErrorView { status: 400, detail: detail@ }),
    {
        ApiError::new(400, detail)
    }

    /// The request is understood and refused.
    pub fn forbidden(detail: String) -> (r: Self)
        ensures
            r@ == (ApiErrorView { status: 403, detail: detail@ }),
    {
        ApiError::new(403, detail)
    }

    /// What is asked for does not exist.
    pub fn not_found(detail: String) -> (r: Self)
        ensures
            r@ == (ApiErrorView { status: 404, detail: detail@ }),
    {
        ApiError::new(404, detail)
    }

    /// The request contradicts the current state.
    pub fn conflict(detail: String) -> (r: Self)
        ensures
            r@ == (ApiErrorView { status: 409, detail: detail@ }),
    {
        ApiError::new(409, detail)
    }

    /// The request is well-formed, but its values are not acceptable.
    pub fn unprocessable(detail: String) -> (r: Self)
        ensures
            r@ == (ApiErrorView { status: 422, detail: detail@ }),
    {
        ApiError::new(422, detail)
    }

    /// The server failed.
    pub fn internal(detail: String) -> (r: Self)
        ensures
            r@ == (ApiErrorView { status: 500, detail: detail@ }),
    {
        ApiError::new(500, detail)
    }

    /// The feature does not exist yet.
    pub fn not_implemented(detail: String) -> (r: Self)
        ensures
            r@ == (ApiErrorView { status: 501, detail: detail@ }),
    {
        ApiError::new(501, detail)
    }

    /// A component is not available at the moment.
    pub fn service_unavailable(detail: String) -> (r: Self)
        ensures
            r@ == (ApiErrorView { status: 503, detail: detail@ }),
    {
        ApiError::new(503, detail)
    }

    /// Turns a refused path into an error; `what` is what was asked for.
    pub fn from_path_rejection(rejection: PathRejection, what: &str) -> (r: Self)
        ensures
            r@ == path_error(rejection, what@),
    {
        match rejection {
            PathRejection::Invalid => ApiError::bad_request(
                text::join2("Недопустимый путь: ", what),
            ),
            PathRejection::NotFound => ApiError::not_found(text::join2("Не найдено: ", what)),
            PathRejection::OutsideRoots => ApiError::forbidden(
                text::join3("Доступ запрещён: ", what, " находится вне разрешённых папок"),
            ),
        }
    }
}

} // verus!
