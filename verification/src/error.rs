//! What a caller of the service can do wrong.

use vstd::prelude::*;

verus! {

/// The errors of the service's operations.
#[derive(Clone, Debug, PartialEq, Eq)]
pub enum ServiceError {
    ClientDoesNotExist,
    NonPositiveAmount,
    DuplicateDocument,
    EmptyField(&'static str),
    FutureBirthDate,
}

/// The message that describes an error.
pub open spec fn service_error_message(e: ServiceError) -> Seq<char> {
    match e {
        ServiceError::ClientDoesNotExist => "client not found"@,
        ServiceError::NonPositiveAmount => "amount must be greater than zero"@,
        ServiceError::DuplicateDocument => "document number already registered"@,
        ServiceError::EmptyField(field) => "the "@ + field@ + " field cannot be empty"@,
        ServiceError::FutureBirthDate => "the birth date cannot be in the future"@,
    }
}

impl ServiceError {
    /// The message that describes the error (its display text).
    pub fn message(&self) -> (r: String)
        ensures
            r@ == service_error_message(*self),
    {
        match self {
            ServiceError::ClientDoesNotExist => String::from_str("client not found"),
            ServiceError::NonPositiveAmount => String::from_str("amount must be greater than zero"),
            ServiceError::DuplicateDocument => String::from_str("document number already registered"),
            ServiceError::EmptyField(field) => {
                let mut r = String::from_str("the ");
                r.append(field);
                r.append(" field cannot be empty");
                r
            },
            ServiceError::FutureBirthDate => String::from_str("the birth date cannot be in the future"),
        }
    }
}

} // verus!
