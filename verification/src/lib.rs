//! An HTTP client surface in the style of `reqwest`, built on `http` types and
//! handing the wire work to a blocking transport.

pub mod address;
pub mod basic;
pub mod client;
pub mod error;
pub mod header;
pub mod method;
pub mod multipart;
pub mod response;
pub mod status;
pub mod transport;
pub mod websocket;
