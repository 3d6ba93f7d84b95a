//! A client for a distributed cache cluster's REST gateway: request builders
//! that validate their inputs, and response decoders that separate transport,
//! application and decoding failures from a successful (possibly empty) answer;
//! and an in-process cluster with the same cache semantics, whose laws are
//! proved over its model.

pub mod decode;
pub mod json;
pub mod local;
pub mod request;
pub mod text;

