//! Photos that match a description in everyday words.
pub mod answer;
pub mod emit;
pub mod laws;

pub use answer::{run_with, AskArgs, AskOutcome, OutputFormat};
