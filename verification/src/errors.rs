//! The error taxonomy of the gateway: every failure a handler can surface,
//! each carrying the identifier or cause that the response must name.

use vstd::prelude::*;
use vstd::string::StringExecFns;

verus! {

/// One variant per failure kind. `Config` is fatal and prevents startup;
/// the others are request-scoped and are translated into a structured
/// response by the transport layer.
#[derive(Debug)]
pub enum ApiError {
    /// Bad or ambiguous configuration (credential source); the process must not start.
    Config { message: String },
    /// The login credential did not match.
    Unauthorized,
    /// The named device is not in the registry.
    NotFound { device: String },
    /// The device driver or the discovery service failed; the cause is preserved.
    UpstreamFailure { cause: String },
    /// The session store could not be decoded or written.
    PersistenceFailure { cause: String },
}

pub type ApiResult<T> = Result<T, ApiError>;

impl ApiError {
    /// The HTTP status that identifies this error kind.
    pub open spec fn spec_status(self) -> u16 {
        match self {
            ApiError::Config { .. } => 500,
            ApiError::Unauthorized => 401,
            ApiError::NotFound { .. } => 404,
            ApiError::UpstreamFailure { .. } => 502,
            ApiError::PersistenceFailure { .. } => 500,
        }
    }

    /// The response body: names the kind and, where one exists, the
    /// offending identifier or the underlying cause.
    pub open spec fn spec_message(self) -> Seq<char> {
        match self {
            ApiError::Config { message } => "configuration error: "@ + message@,
            ApiError::Unauthorized => "invalid credentials"@,
            ApiError::NotFound { device } => "unknown device: "@ + device@,
            ApiError::UpstreamFailure { cause } => "upstream failure: "@ + cause@,
            ApiError::PersistenceFailure { cause } => "session store failure: "@ + cause@,
        }
    }

    pub fn status_code(&self) -> (r: u16)
        ensures
            r == self.spec_status(),
    {
        match self {
            ApiError::Config { .. } => 500,
            ApiError::Unauthorized => 401,
            ApiError::NotFound { .. } => 404,
            ApiError::UpstreamFailure { .. } => 502,
            ApiError::PersistenceFailure { .. } => 500,
        }
    }

    pub fn message(&self) -> (r: String)
        ensures
            r@ == self.spec_message(),
    {
        match self {
            ApiError::Config { message } => String::from_str("configuration error: ").concat(
                message.as_str(),
            ),
            ApiError::Unauthorized => String::from_str("invalid credentials"),
            ApiError::NotFound { device } => String::from_str("unknown device: ").concat(
                device.as_str(),
            ),
            ApiError::UpstreamFailure { cause } => String::from_str("upstream failure: ").concat(
                cause.as_str(),
            ),
            ApiError::PersistenceFailure { cause } => String::from_str("session store failure: ")
                .concat(cause.as_str()),
        }
    }
}

} // verus!
