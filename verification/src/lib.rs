//! Verified core of a desktop usage tracker with end-to-end encrypted
//! multi-device synchronisation: record merging, the encrypted stream and
//! manifest formats, and the decision logic around them.

pub mod text;
pub mod error;
pub mod order;
pub mod records;
pub mod merge;
pub mod merge_meta;
pub mod crypto;
pub mod stream;
pub mod encoding;
pub mod package;
pub mod webdav;
pub mod service;
pub mod run;
pub mod apply;
pub mod numbers;
pub mod types;
pub mod commands;
pub mod repo;
pub mod owner;
pub mod process;
pub mod stats;
pub mod series;
