//! Seed requests and request sequences built from an API description.
pub mod corpus_generator;
pub mod sequence_generator;

pub use corpus_generator::{CorpusGenerator, HttpRequest};
pub use sequence_generator::SequenceCorpusGenerator;
