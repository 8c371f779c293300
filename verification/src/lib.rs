//! A client for the HTTP API of an IPFS node: the requests it sends and the
//! data it reads back.
pub mod addr;
pub mod client;
pub mod data;
pub mod deserialize_helpers;
pub mod errors;
pub mod fetch;
pub mod text;
pub mod version;

pub use client::Client;
