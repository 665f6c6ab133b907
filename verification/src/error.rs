//! The errors of the client, and the outside error types that they carry.

use vstd::prelude::*;

verus! {

/// An error of the HTTP client crate; carried as it is.
#[verifier::external_type_specification]
#[verifier::external_body]
pub struct ExHttpError(reqwest::Error);

/// A URL parse error of the `url` crate; carried as it is.
#[verifier::external_type_specification]
#[verifier::external_body]
pub struct ExUrlParseError(url::ParseError);

/// A JSON error of `serde_json`; carried as it is.
#[verifier::external_type_specification]
#[verifier::external_body]
pub struct ExJsonError(serde_json::Error);

/// Error types for the Mooncake HTTP client.
#[derive(Debug)]
pub enum ClientError {
    /// The request could not be sent or its answer not read.
    Http(reqwest::Error),
    /// A URL could not be formed.
    UrlParse(url::ParseError),
    /// The server answered with a server error, or reported a failure.
    ServerError { status: u16, message: String },
    /// The server answered with a client error.
    ClientError { status: u16, message: String },
    /// A JSON body could not be read.
    JsonParse(serde_json::Error),
    /// The server answered in a way the client does not expect.
    InvalidResponse(String),
    /// The request timed out.
    Timeout,
}

/// Result type alias for operations.
pub type Result<T> = core::result::Result<T, ClientError>;

/// Whether `reqwest::Error::is_timeout` holds of an error: whether a
/// timeout is found among the error and its sources.
pub uninterp spec fn is_timeout_error(err: reqwest::Error) -> bool;

/// Whether a transport error is a timeout (`reqwest::Error::is_timeout`).
/// The contract claims only that the answer is the one that
/// `is_timeout_error` names for this error.
#[verifier::external_body]
fn timed_out(err: &reqwest::Error) -> (b: bool)
    ensures
        b == is_timeout_error(*err),
{
    err.is_timeout()
}

impl ClientError {
    /// The error for a failed transport, given whether it was a timeout.
    pub fn from_transport(err: reqwest::Error, timeout: bool) -> (e: ClientError)
        ensures
            timeout ==> e == ClientError::Timeout,
            !timeout ==> e == ClientError::Http(err),
    {
        if timeout {
            ClientError::Timeout
        } else {
            ClientError::Http(err)
        }
    }

    /// The error for a failed transport: `Timeout` for a timeout, `Http`
    /// carrying the error otherwise.
    pub fn from_http(err: reqwest::Error) -> (e: ClientError)
        ensures
            e == if is_timeout_error(err) {
                ClientError::Timeout
            } else {
                ClientError::Http(err)
            },
    {
        let timeout = timed_out(&err);
        ClientError::from_transport(err, timeout)
    }
}

impl From<url::ParseError> for ClientError {
    fn from(err: url::ParseError) -> (e: Self) {
        ClientError::UrlParse(err)
    }
}

impl vstd::std_specs::convert::FromSpecImpl<url::ParseError> for ClientError {
    open spec fn obeys_from_spec() -> bool {
        true
    }

    open spec fn from_spec(v: url::ParseError) -> Self {
        ClientError::UrlParse(v)
    }
}

impl From<serde_json::Error> for ClientError {
    fn from(err: serde_json::Error) -> (e: Self) {
        ClientError::JsonParse(err)
    }
}

impl vstd::std_specs::convert::FromSpecImpl<serde_json::Error> for ClientError {
    open spec fn obeys_from_spec() -> bool {
        true
    }

    open spec fn from_spec(v: serde_json::Error) -> Self {
        ClientError::JsonParse(v)
    }
}

} // verus!
