//! The configuration of the connector.
use std::sync::Arc;
use vstd::prelude::*;

verus! {

/// Configuration for reading data from an S2 stream.
#[derive(Debug, Clone, PartialEq, Eq)]
pub struct S2InputConfig {
    /// Base URL of the S2 service, e.g., `http://localhost:7070`.
    pub endpoint_url: String,
    /// S2 basin name.
    pub basin: String,
    /// S2 stream name.
    pub stream: String,
    /// Authentication token sent as `Authorization: Bearer <token>`.
    ///
    /// Keep this value in a secret reference in production.
    pub auth_token: Option<String>,
    /// Sequence number to start reading from when no checkpoint is available.
    pub start_seq_num: u64,
    /// Timeout for establishing a stream request and receiving the initial response headers.
    pub request_timeout_secs: u64,
    /// Delay before reconnecting after the stream ends or fails.
    pub reconnect_timeout_secs: u64,
}

/// The sequence number to start from where a configuration names none.
pub fn default_start_seq_num() -> (res: u64)
    ensures
        res == 0,
{
    0
}

/// The timeout of a request where a configuration names none.
pub fn default_request_timeout_secs() -> (res: u64)
    ensures
        res == 30,
{
    30
}

/// The delay before reconnecting where a configuration names none.
pub fn default_reconnect_timeout_secs() -> (res: u64)
    ensures
        res == 1,
{
    1
}

/// Another pointer to `config`, by std's `Arc::clone`.
///
/// Trusted: the clone of an `Arc` points to the same value.
#[verifier::external_body]
pub(crate) fn share(config: &Arc<S2InputConfig>) -> (res: Arc<S2InputConfig>)
    ensures
        res == *config,
{
    Arc::clone(config)
}

} // verus!
