use vstd::prelude::*;

verus! {

/// Error surfaced by the post repository operations.
///
/// `NotFoundError` carries the identifier that had no matching row and maps
/// to HTTP 404; every other failure is collapsed into `UnexpectedError`,
/// which maps to HTTP 500 so that internal detail does not leak to callers.
#[derive(Debug)]
pub enum PostsError {
    NotFoundError(String),
    UnexpectedError(String),
}

impl PostsError {
    /// The HTTP status code this error is reported with.
    pub fn status_code(&self) -> (code: u16)
        ensures
            code == (if self is NotFoundError {
                404u16
            } else {
                500u16
            }),
    {
        match self {
            PostsError::NotFoundError(_) => 404,
            PostsError::UnexpectedError(_) => 500,
        }
    }

    /// The human-readable message carried by the error.
    pub fn message(&self) -> (msg: &String)
        ensures
            msg@ == (match self {
                PostsError::NotFoundError(m) => m@,
                PostsError::UnexpectedError(m) => m@,
            }),
    {
        match self {
            PostsError::NotFoundError(m) => m,
            PostsError::UnexpectedError(m) => m,
        }
    }
}

} // verus!
