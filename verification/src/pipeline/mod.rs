pub mod log;
pub mod options;
pub mod run_result;
pub mod stage;
pub mod summary;
pub mod error;
pub mod builder;
pub mod pipeline;
pub mod trace;
