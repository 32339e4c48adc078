//! The errors answered at the border: a domain error of the service, or an
//! internal failure (a poisoned lock, a failed write), and the HTTP status
//! of each.

use vstd::prelude::*;

use crate::error::{service_error_message, ServiceError};

verus! {

/// An error answered to an HTTP request.
#[derive(Debug)]
pub enum ApiError {
    Domain(ServiceError),
    Internal,
}

impl From<ServiceError> for ApiError {
    fn from(error: ServiceError) -> (r: Self) {
        ApiError::Domain(error)
    }
}

impl vstd::std_specs::convert::FromSpecImpl<ServiceError> for ApiError {
    open spec fn obeys_from_spec() -> bool {
        true
    }

    open spec fn from_spec(error: ServiceError) -> ApiError {
        ApiError::Domain(error)
    }
}

/// The HTTP status of an error: a missing client is 404, a repeated document
/// 409, an invalid input 400, an internal failure 500.
pub open spec fn api_status(e: ApiError) -> u16 {
    match e {
        ApiError::Domain(ServiceError::ClientDoesNotExist) => 404,
        ApiError::Domain(ServiceError::DuplicateDocument) => 409,
        ApiError::Domain(ServiceError::NonPositiveAmount) => 400,
        ApiError::Domain(ServiceError::EmptyField(_)) => 400,
        ApiError::Domain(ServiceError::FutureBirthDate) => 400,
        ApiError::Internal => 500,
    }
}

/// The message of an error: that of the domain error, or
/// `internal server error`.
pub open spec fn api_message(e: ApiError) -> Seq<char> {
    match e {
        ApiError::Domain(d) => service_error_message(d),
        ApiError::Internal => "internal server error"@,
    }
}

impl ApiError {
    /// The HTTP status code answered for the error.
    pub fn status_code(&self) -> (r: u16)
        ensures
            r == api_status(*self),
    {
        match self {
            ApiError::Domain(ServiceError::ClientDoesNotExist) => 404,
            ApiError::Domain(ServiceError::DuplicateDocument) => 409,
            ApiError::Domain(ServiceError::NonPositiveAmount) => 400,
            ApiError::Domain(ServiceError::EmptyField(_)) => 400,
            ApiError::Domain(ServiceError::FutureBirthDate) => 400,
            ApiError::Internal => 500,
        }
    }

    /// The message of the error (its display text).
    pub fn message(&self) -> (r: String)
        ensures
            r@ == api_message(*self),
    {
        match self {
            ApiError::Domain(error) => error.message(),
            ApiError::Internal => String::from_str("internal server error"),
        }
    }
}

} // verus!
