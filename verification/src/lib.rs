//! Per-directory terminal-multiplexer session persistence.
//!
//! The library holds the verified core of the tool: the session data model,
//! the textual save-file codec, the parsers for the multiplexer's listing
//! output, the derivation of a session identity from a directory, and the
//! planners that decide which multiplexer commands a restore or a default
//! invocation issues.  All process spawning, file I/O and environment reads
//! live outside the library and hand it plain values.

pub mod codec;
pub mod codec_laws;
pub mod dispatch;
pub mod identity;
pub mod listing;
pub mod model;
pub mod restore;
pub mod restore_laws;
pub mod strutil;
