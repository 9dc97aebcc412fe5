//! Resolve a Steam application identifier to a game title through a locally
//! cached copy of the public application catalog.
//!
//! The verified core: searching a catalog snapshot (`catalog`), the snapshot's
//! on-disk text format with a proven parse/encode round trip (`codec`), the
//! cache path derivation (`paths`), scanning a process table for the shader
//! replay tool (`scanner`), and the cache-first, fetch-on-miss resolution
//! policy as a step function over states and events, with proven bounds on the
//! fetches it performs (`resolver`). All I/O — the process listing, the cache
//! file, the HTTP fetch — stays outside, feeding these functions plain values.

pub mod catalog;
pub mod codec;
pub mod paths;
pub mod resolver;
pub mod scanner;
mod text;
