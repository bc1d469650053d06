//! Core logic of a Spotify archiving tool: resource identifiers, the manifest
//! file format, scan filtering, tag contents and output layout.

pub mod text;
pub mod id;
pub mod manifest;
pub mod scan;
pub mod metadata;
pub mod tag;
pub mod sources;
pub mod pipeline;
pub mod stages;
pub mod progress;
pub mod watch;
pub mod cache;
pub mod session;
pub mod config;
pub mod download;
