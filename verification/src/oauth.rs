//! The OAuth server: client registration, authorization codes with PKCE, and tokens.

pub mod issuer;
pub mod secrets;
pub mod clients;
pub mod authorize;
pub mod token;
pub mod guard;
