//! A small HTTP client facade: default-header merging, send-outcome
//! classification and response decoding, with contracts proved by Verus.

pub mod client;
pub mod error;
pub mod headers;
pub mod response;
