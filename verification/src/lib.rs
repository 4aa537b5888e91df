//! Devlog: a verified core for ingesting, searching and summarizing
//! AI-assistant transcript logs.
//!
//! The library turns line-oriented JSON transcripts into structured
//! conversation records, searches a corpus of stored records, and
//! aggregates usage statistics over the same corpus.  All algorithmic
//! logic lives here and is verified; file, network and process I/O is
//! left to the thin application layer around the library.

pub mod config;
pub mod decode;
pub mod clock;
pub mod extract;
pub mod json;
pub mod model;
pub mod models;
pub mod output;
pub mod reduce;
pub mod search;
pub mod server;
pub mod stats;
pub mod summary;
pub mod text;
