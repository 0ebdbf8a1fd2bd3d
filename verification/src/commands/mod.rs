//! The commands.
pub mod ask;
pub mod dedup;
pub mod info;
pub mod search;
