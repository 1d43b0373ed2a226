//! # zed-chat-export
//!
//! Exports [Zed](https://zed.dev) AI chat conversations to local Markdown files.
//!
//! Zed stores AI conversations in a SQLite database (`threads.db`) with Zstd-compressed message
//! bodies. Each conversation becomes a standalone Markdown file with YAML frontmatter that holds
//! metadata like the model used, timestamps, a content hash, and the git context that was active
//! during the conversation.
//!
//! On repeated runs, existing files are compared with the database by the timestamps and the content
//! hashes in their frontmatter. Unchanged conversations are skipped. Conversations with new messages
//! are exported again in place.
//!
//! The library is everything that does not touch the database, the file system or the terminal:
//!
//! - [`importer`], [`json`]: the documents that Zed stores;
//! - [`exporter`], [`frontmatter`], [`yaml`], [`paths`]: rendering a thread;
//! - [`utils`], [`timestamp`]: reading stored data and the headers of exported files;
//! - [`readback`]: what is read back from a header that was written here;
//! - [`naming`]: file names;
//! - [`process`], [`parallel`]: what a run does with each thread;
//! - [`config`]: the settings of a run;
//! - [`text`]: text primitives.
use vstd::prelude::*;

pub mod config;
pub mod exporter;
pub mod frontmatter;
pub mod importer;
pub mod json;
pub mod naming;
pub mod parallel;
pub mod paths;
pub mod process;
pub mod readback;
pub mod text;
pub mod timestamp;
pub mod utils;
pub mod yaml;

verus! {

} // verus!
