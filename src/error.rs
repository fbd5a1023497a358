use vstd::prelude::*;

verus! {

/// Which unique key a conflicting request collided with.
#[derive(Clone, Copy, Debug, PartialEq, Eq, Structural)]
pub enum ConflictKey {
    Username,
    Email,
}

/// Which input a rejected request got wrong.
#[derive(Clone, Copy, Debug, PartialEq, Eq, Structural)]
pub enum Field {
    Username,
    Email,
    Password,
    UploadToken,
    Filename,
}

/// The ways a request to the service can fail.
#[derive(Clone, Copy, Debug, PartialEq, Eq, Structural)]
pub enum ServiceError {
    /// Bad credentials or token.
    AuthenticationFailed,
    /// A valid session without the role the request needs.
    AuthorizationDenied,
    /// Malformed input; names the field.
    ValidationFailed(Field),
    /// A duplicate unique key.
    Conflict(ConflictKey),
    /// An upload over the size cap.
    PayloadTooLarge,
    /// The client's bucket is empty.
    RateLimited,
    /// A missing account or object.
    NotFound,
    /// A disk read or write failed.
    StorageIOFailure,
    /// An upstream stream failed mid-transfer.
    TransportFailure,
    /// A password hash could not be computed.
    HashingFailed,
}

impl ServiceError {
    /// The HTTP status that reports this error.
    pub fn status_code(&self) -> (r: u16)
        ensures
            *self == ServiceError::AuthenticationFailed ==> r == 401,
            *self == ServiceError::AuthorizationDenied ==> r == 403,
            self is ValidationFailed ==> r == 400,
            self is Conflict ==> r == 409,
            *self == ServiceError::PayloadTooLarge ==> r == 413,
            *self == ServiceError::RateLimited ==> r == 429,
            *self == ServiceError::NotFound ==> r == 404,
            *self == ServiceError::StorageIOFailure ==> r == 500,
            *self == ServiceError::TransportFailure ==> r == 400,
            *self == ServiceError::HashingFailed ==> r == 500,
    {
        match self {
            ServiceError::AuthenticationFailed => 401,
            ServiceError::AuthorizationDenied => 403,
            ServiceError::ValidationFailed(_) => 400,
            ServiceError::Conflict(_) => 409,
            ServiceError::PayloadTooLarge => 413,
            ServiceError::RateLimited => 429,
            ServiceError::NotFound => 404,
            ServiceError::StorageIOFailure => 500,
            ServiceError::TransportFailure => 400,
            ServiceError::HashingFailed => 500,
        }
    }
}

} // verus!
