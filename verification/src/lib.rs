//! Line-oriented text search.
//!
//! A text is cut into lines, and the lines that hold a query are handed back in
//! the order in which the text has them. The query is looked for either as it
//! is written or with letter case set aside.

pub mod config;
pub mod filter;
pub mod std_str;
pub mod text;

pub use crate::config::{run, Config, IGNORE_CASE_SWITCH};
pub use crate::filter::{search, search_case_insensitive};
