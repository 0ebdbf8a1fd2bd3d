//! Groups of duplicates: which to stack, which copies to delete, which to leave.
pub mod classify;
pub mod laws;
pub mod plan;
pub mod reports;
pub mod run;
pub mod triage;
pub mod writes;

pub use crate::moments::parse_capture_seconds;
pub use classify::{
    classify_group, parent_dir, sizes_within_tolerance, GroupDecision, Ratio, SkipReason,
};
pub use plan::{
    parse_pick_response, pick_winner_by_size, plan_group, ActionPlan, GpsCopy, PickReason,
};
pub use run::{begin, finish, run_with, DedupArgs, DedupReport, Fraction, Underway};
