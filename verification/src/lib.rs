//! Translation between an engine-agnostic HTTP message pair and the message
//! types of the hyper client engine.
//!
//! The library holds the rules of the translation: which URLs the engine can
//! dispatch, how headers are carried from one representation to the other, and
//! what becomes of a response body. Every function is verified against the
//! contract it states; the few calls into the engine's own crates stand in
//! `native`, each with the behaviour that is taken on trust.

pub mod error;
pub mod headers;
pub mod message;
pub mod native;
pub mod request;
pub mod response;
