//! Verified core of a static-asset server: path normalization, content
//! classification, a minify-then-compress transform pipeline, and a
//! single-flight asset cache, orchestrated by a per-request handler.

pub mod bytes;
pub mod cache;
pub mod content;
pub mod handler;
pub mod paths;
pub mod transform;
