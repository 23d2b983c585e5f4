//! A collection of small, independent building blocks: text alignment, binary
//! trees, order statistics, encodings, paging state machines and a few
//! contracts around widely used crates.

pub mod algorithms;
pub mod concurrency;
pub mod cryptography;
pub mod date_time;
pub mod dev_tools_logging;
pub mod encoding;
pub mod error_handling;
pub mod filesystem;
pub mod iterators;
pub mod numerals;
pub mod science;
pub mod string_manip;
pub mod structured;
pub mod text;
pub mod trees;
pub mod web_programming;
