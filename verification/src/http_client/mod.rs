//! HTTP responses and the request URL as it goes on the wire.
pub mod client;

pub use client::HttpResponse;
