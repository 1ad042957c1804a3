//! Core of a terminal binary diff viewer: a signed double-ended buffer of
//! aligned byte pairs, a viewport cursor, per-file search result stores and
//! the controller logic of the aligned view.
pub mod aligned;
pub mod backend;
pub mod buffer;
pub mod cursor;
pub mod search;
