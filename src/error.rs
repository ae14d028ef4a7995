//! Errors of the controller's configuration handling.
use vstd::prelude::*;

verus! {

/// What can go wrong while reading the controller's configuration.
#[derive(Debug, Clone, PartialEq, Eq)]
pub enum Error {
    /// The configuration file cannot be opened.
    ConfigFileError(String),
    /// The configuration document is malformed.
    ConfigReadError(String),
    /// A duration text is malformed.
    DurationParseError(String),
}

} // verus!

verus! {

/// What can go wrong when talking to the box.
#[derive(Debug, Clone, PartialEq, Eq)]
pub enum FritzError {
    /// The HTTP request failed.
    Ap(String),
    /// The box refused the request: no session, or an outdated one.
    Forbidden,
    ApiRequest(String),
    LoginError(String),
    /// The box's answer is not the XML it should be.
    XMLParseError(String),
    ParserError(String),
    /// The box answered the refresh request with this status, not 200.
    TriggerHighRefreshRateError(u16),
    /// No device has the given identifier.
    UnknownDevice(String),
    Unknown,
}

/// The errors of the older client.
#[derive(Debug, Clone, PartialEq, Eq)]
pub enum MyError {
    LoginError(),
    Other(String),
}

} // verus!
