//! Searching by meaning, words, time and place.
pub mod args;
pub mod candidates;
pub mod emit;
pub mod fetch;
pub mod laws;
pub mod query;
pub mod query_laws;
pub mod stacks;

pub use args::{normalize_date_end, normalize_date_start, AssetTypeArg, OutputFormat, SearchArgs};
pub use emit::emit_to_writer;
pub use fetch::{fetch_assets, FetchResult};
pub use query::{perform_search, Backends};
