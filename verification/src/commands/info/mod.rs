//! All that is known of one photo, given where it lies on this machine.
pub mod laws;
pub mod lookup;
pub mod prune;
pub mod report;
pub mod text;

pub use lookup::{run_with, InfoBundle};
pub use report::{report, InfoArgs, OutputFormat, Report};
