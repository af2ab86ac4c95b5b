//! A small library for relaying client requests to upstream HTTP services.
//!
//! The heart of the library is the request signer: a pure function that
//! serializes a set of named parameters in a canonical (key-sorted) order,
//! appends a secret key, and hashes the result to a 64-character lowercase
//! hexadecimal signature.  Around it sit builders for the two outbound
//! requests the service makes (an unsigned news relay and a signed asset
//! query) and the translation of an upstream reply into the response the
//! original caller sees.  The surrounding HTTP server and client are thin
//! plumbing and live outside this crate.

pub mod ordering;
pub mod decimal;
pub mod signer;
pub mod request;
pub mod response;
