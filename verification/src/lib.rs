//! Verified core of a coverage-guided REST API fuzzer.
pub mod text;
pub mod string_map;
pub mod coverage;
pub mod json;
pub mod parser;
pub mod fuzzer;
pub mod generator;
pub mod cli;
pub mod http_client;
