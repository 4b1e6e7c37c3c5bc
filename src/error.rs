//! Errors returned to HTTP clients.
use vstd::prelude::*;
use crate::text::owned;

verus! {

/// A client-facing error with its message.
pub enum AppserviceError {
    AppserviceError(String),
    HomeserverError(String),
    MatrixError(String),
}

impl AppserviceError {
    /// The HTTP status: 502 for a homeserver failure, 404 otherwise, so that
    /// a private room's existence is not confirmed.
    pub fn status_code(&self) -> (r: u16)
        ensures
            self is HomeserverError ==> r == 502,
            !(self is HomeserverError) ==> r == 404,
    {
        match self {
            AppserviceError::AppserviceError(_) => 404,
            AppserviceError::HomeserverError(_) => 502,
            AppserviceError::MatrixError(_) => 404,
        }
    }

    /// The message shown in the error body.
    pub fn message(&self) -> (r: String)
        ensures
            self matches AppserviceError::AppserviceError(m) ==> r@ == m@,
            self matches AppserviceError::HomeserverError(m) ==> r@ == "Homeserver error: "@ + m@,
            self matches AppserviceError::MatrixError(m) ==> r@ == "Matrix API error: "@ + m@,
    {
        match self {
            AppserviceError::AppserviceError(m) => m.clone(),
            AppserviceError::HomeserverError(m) => {
                let mut s = owned("Homeserver error: ");
                s.append(m.as_str());
                s
            },
            AppserviceError::MatrixError(m) => {
                let mut s = owned("Matrix API error: ");
                s.append(m.as_str());
                s
            },
        }
    }
}

} // verus!
