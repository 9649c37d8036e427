//! The errors of authentication.
use vstd::prelude::*;
use crate::challenge::WwwHeaderParseError;

verus! {

/// Why authentication failed.
#[derive(Debug, Clone, PartialEq, Eq)]
pub enum AuthError {
    /// The challenge header could not be parsed.
    Parse(WwwHeaderParseError),
    /// Basic authentication was asked for and no credentials were supplied.
    NoCredentials,
    /// The token response had neither `token` nor `access_token`.
    MissingTokenField,
    /// The token response held an empty or `unauthenticated` token.
    InvalidAuthToken(String),
    /// The endpoint, given here, is not an absolute URL.
    MalformedUrl(String),
    /// The server answered with a status other than the expected ones.
    UnexpectedHttpStatus(u16),
    /// The probe response carried no `WWW-Authenticate` header.
    MissingAuthHeader,
}

} // verus!
