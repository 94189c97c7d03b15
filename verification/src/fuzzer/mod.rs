//! Fuzzing inputs, their mutations, and the bookkeeping around each run.
pub mod executor;
pub mod feedback;
pub mod input;
pub mod mutator;
pub mod observer;
pub mod param_mutator;
pub mod rng;
pub mod sequence_executor;
pub mod sequence_input;
pub mod sequence_mutator;
pub mod state;
pub mod state_manager;

pub use input::FuzzHttpRequest;
pub use mutator::HttpRequestMutator;
pub use param_mutator::ParamMutator;
pub use observer::HttpObserver;
pub use feedback::StatusCodeFeedback;
