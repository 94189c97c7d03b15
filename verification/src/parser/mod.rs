//! The parts of an OpenAPI description that the fuzzer uses.
pub mod types;
pub mod openapi;

pub use types::{ApiSpec, Endpoint, HttpMethod, Parameter, ParameterLocation, PropertySchema, SchemaType};
