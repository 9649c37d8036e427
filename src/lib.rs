//! Authentication negotiation for a container-registry client: parsing of
//! `WWW-Authenticate` challenges, the Basic and Bearer credentials, the
//! token-endpoint handshake and the decisions of the negotiation.
pub mod text;
pub mod challenge;
pub mod error;
pub mod endpoint;
pub mod credential;
pub mod client;
