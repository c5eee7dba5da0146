//! The broker's HTTP client: where each request goes and how an answer's
//! status is judged. The requests themselves are sent by the caller.

use vstd::prelude::*;

use crate::text::{trim_end_char, trim_end_matches_char};

verus! {

#[verifier::external_type_specification]
#[verifier::external_body]
pub struct ExReqwestClient(reqwest::Client);

#[verifier::external_type_specification]
#[verifier::external_body]
pub struct ExReqwestError(reqwest::Error);

/// Why a request to the broker failed.
#[derive(Debug)]
pub enum ClientError {
    /// The request could not be made or its answer not read.
    Request(reqwest::Error),
    /// The broker answered with a client or server error status.
    BrokerError { status: u16, body: String },
}

/// `reqwest::Client::new()`: a client with default settings. Nothing is
/// claimed of it; the call panics only when a TLS backend or the system
/// resolver configuration cannot be loaded, which no argument controls.
#[verifier::external_body]
fn new_http_client() -> reqwest::Client {
    reqwest::Client::new()
}

pub const ROUTE_HEALTH: &'static str = "/health";

pub const ROUTE_REGISTER: &'static str = "/register";

pub const ROUTE_HEARTBEAT: &'static str = "/heartbeat";

pub const ROUTE_SET_SUMMARY: &'static str = "/set-summary";

pub const ROUTE_LIST_PEERS: &'static str = "/list-peers";

pub const ROUTE_SEND_MESSAGE: &'static str = "/send-message";

pub const ROUTE_POLL_MESSAGES: &'static str = "/poll-messages";

pub const ROUTE_UNREGISTER: &'static str = "/unregister";

pub const ROUTE_SHUTDOWN: &'static str = "/shutdown";

/// A client of one broker.
pub struct BrokerClient {
    client: reqwest::Client,
    base_url: String,
}

impl BrokerClient {
    /// The broker's address, without trailing slashes.
    pub closed spec fn spec_base_url(&self) -> Seq<char> {
        self.base_url@
    }

    /// The HTTP client that this broker client sends its requests with.
    pub closed spec fn spec_http(&self) -> reqwest::Client {
        self.client
    }

    /// A client for the broker at `base_url`; trailing slashes are dropped.
    pub fn new(base_url: &str) -> (r: Self)
        ensures
            r.spec_base_url() == trim_end_char(base_url@, '/'),
    {
        BrokerClient {
            client: new_http_client(),
            base_url: String::from_str(trim_end_matches_char(base_url, '/')),
        }
    }

    /// The broker's address.
    pub fn base_url(&self) -> (r: &str)
        ensures
            r@ == self.spec_base_url(),
    {
        self.base_url.as_str()
    }

    /// The HTTP client that carries the requests.
    pub fn http(&self) -> (r: &reqwest::Client)
        ensures
            *r == self.spec_http(),
    {
        &self.client
    }

    /// The URL of the route `path` (which starts with a slash).
    pub fn endpoint(&self, path: &str) -> (r: String)
        ensures
            r@ == self.spec_base_url() + path@,
    {
        let mut url = self.base_url.clone();
        url.append(path);
        url
    }
}

/// Whether an HTTP status is a client error (400-499) or a server error
/// (500-599).
pub open spec fn is_error_status(status: u16) -> bool {
    400 <= status < 600
}

/// Judges the status of a broker's answer: an error status becomes a
/// `BrokerError` whose body reads "HTTP " and the status's text form
/// (`status_text`, such as "404 Not Found"); any other status is success.
pub fn check_status(status: u16, status_text: &str) -> (r: Result<(), ClientError>)
    ensures
        r is Ok <==> !is_error_status(status),
        r matches Err(ClientError::BrokerError { status: s, body }) ==> s == status && body@
            == "HTTP "@ + status_text@,
        !(r matches Err(ClientError::Request(_))),
{
    if 400 <= status && status < 600 {
        let mut body = String::from_str("HTTP ");
        body.append(status_text);
        Err(ClientError::BrokerError { status, body })
    } else {
        Ok(())
    }
}

} // verus!
