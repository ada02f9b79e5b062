//! The verified core of the FOX serial tools.

pub mod build_time;
pub mod device;
pub mod discovery;
pub mod firmware;
pub mod log_file;
pub mod log_line;
pub mod numbers;
pub mod ports;
pub mod progress;
pub mod prompts;
pub mod protocol;
pub mod registry;
pub mod session;
pub mod summary;
pub mod tasks;
pub mod text;
