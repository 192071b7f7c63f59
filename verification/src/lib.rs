//! Snapshot a source tree into one human-readable document.
//!
//! The library holds the content-acquisition pipeline of the tool: deciding
//! whether a file's bytes are text or binary, recovering Unicode text from
//! bytes of unknown encoding through an ordered fallback chain, choosing which
//! traversal entries make it into the snapshot, and rendering the final
//! two-section document. File and directory I/O stays with the caller.

pub mod classify;
pub mod decode;
pub mod render;
pub mod utf16;
pub mod walk;
