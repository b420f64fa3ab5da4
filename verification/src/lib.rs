//! Retrieval of time-travel ("wayback") snapshots of a video's comment
//! stream: timeline generation, authorization-key response parsing, legacy
//! protocol request building, and merging of the fetched batches into one
//! deduplicated, position-ordered comment list.

pub mod body;
pub mod channel;
pub mod comment;
pub mod config;
pub mod datetime;
pub mod error;
pub mod text;
pub mod id;
pub mod info;
pub mod json;
pub mod keys;
pub mod process;
pub mod wayback;

pub use error::Error;
