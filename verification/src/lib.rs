//! A debounced, event-coalescing pull-diagnostics pipeline.
//!
//! Trigger events (document changed, document opened) are coalesced by a
//! resettable-deadline debounce engine; a fired cycle is expanded into
//! (document, server) pull requests carrying the per-(document, server)
//! cache token; responses are merged into the editor-owned diagnostics
//! store with full/unchanged replacement semantics, including related
//! resources attached to a response.

pub mod debounce;
pub mod editor;
pub mod merge;
pub mod orchestrate;
pub mod report;
pub mod trigger;
