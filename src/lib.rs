//! Content-aware incremental indexing: binary detection, overlap chunking,
//! per-format handlers, handler dispatch, content-hash deduplication and the
//! manifest that lets repeated runs skip unchanged files.

pub mod binary;
pub mod chunking;
pub mod text;
pub mod chunk;
pub mod code;
pub mod config;
pub mod git;
pub mod handlers;
pub mod label;
pub mod manifest;
pub mod markdown;
pub mod policy;
pub mod records;
pub mod run;
pub mod syntax;
