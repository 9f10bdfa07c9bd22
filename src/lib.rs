//! Regular-expression search over in-memory text files.
pub mod engine;
pub mod laws;
pub mod lines;
pub mod search;

pub use engine::Matcher;
pub use lines::split_lines;
pub use search::{pattern_error, push_line_matches, search, within_limits, FileInput, MatchResult};
