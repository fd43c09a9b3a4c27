//! A small verified line-search library: given a query string and a block of
//! text, it returns the lines that contain the query, either with the query's
//! exact casing or ignoring case.

mod config;
mod engine;
mod text;

pub use config::Config;
pub use config::ConfigError;
pub use config::RunError;
pub use engine::lemma_empty_query_matches_all;
pub use engine::lemma_empty_text_no_matches;
pub use engine::lemma_search_deterministic;
pub use engine::line_matches;
pub use engine::lower_of;
pub use engine::matches_in;
pub use engine::matching_lines;
pub use engine::run_search;
pub use engine::search;
pub use engine::search_case_insensitive;
pub use text::contains_pat;
pub use text::first_newline;
pub use text::lines_of;
pub use text::matches_at;
pub use text::strip_cr;
