//! The HTTP client of a REST client: asynchronous (`reqwest`) or blocking
//! (`ureq`).
use vstd::prelude::*;

verus! {

/// Declaration of `reqwest::Client`, the asynchronous HTTP client.
#[verifier::external_type_specification]
#[verifier::external_body]
pub struct ExReqwestClient(reqwest::Client);

/// Declaration of `ureq::Agent`, the blocking HTTP client.
#[verifier::external_type_specification]
#[verifier::external_body]
pub struct ExUreqAgent(ureq::Agent);

/// `Clone` of `reqwest::Client`: a handle to the same connection pool. The
/// client is opaque here, so nothing is stated of the copy.
pub assume_specification[ <reqwest::Client as Clone>::clone ](client: &reqwest::Client) -> reqwest::Client;

/// `Clone` of `ureq::Agent`: a handle to the same connection pool and
/// configuration. The agent is opaque here, so nothing is stated of the copy.
pub assume_specification[ <ureq::Agent as Clone>::clone ](agent: &ureq::Agent) -> ureq::Agent;

/// HTTP client for Aleo Network nodes that can be either async or blocking.
#[derive(Clone)]
pub enum HTTPClient {
    Async(reqwest::Client),
    Blocking(ureq::Agent),
}

/// The client is not of the kind asked for.
#[derive(Debug, PartialEq, Eq, Clone, Copy, Structural)]
pub enum HTTPClientError {
    /// Attempted to get the async client from a blocking client.
    NotAsync,
    /// Attempted to get the blocking client from an async client.
    NotBlocking,
}

impl HTTPClient {
    /// Get the async client from the HTTP client. This will fail if the
    /// client is blocking.
    pub fn async_client(&self) -> (r: Result<&reqwest::Client, HTTPClientError>)
        ensures
            match self {
                HTTPClient::Async(client) => r == Ok::<&reqwest::Client, HTTPClientError>(client),
                HTTPClient::Blocking(_) => r == Err::<&reqwest::Client, HTTPClientError>(
                    HTTPClientError::NotAsync,
                ),
            },
    {
        match self {
            HTTPClient::Async(client) => Ok(client),
            HTTPClient::Blocking(_) => Err(HTTPClientError::NotAsync),
        }
    }

    /// Get the blocking client from the HTTP client. This will fail if the
    /// client is async.
    pub fn blocking_client(&self) -> (r: Result<&ureq::Agent, HTTPClientError>)
        ensures
            match self {
                HTTPClient::Async(_) => r == Err::<&ureq::Agent, HTTPClientError>(
                    HTTPClientError::NotBlocking,
                ),
                HTTPClient::Blocking(client) => r == Ok::<&ureq::Agent, HTTPClientError>(client),
            },
    {
        match self {
            HTTPClient::Async(_) => Err(HTTPClientError::NotBlocking),
            HTTPClient::Blocking(client) => Ok(client),
        }
    }
}

} // verus!
