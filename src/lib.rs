//! Encoding of Standard MIDI Files: variable-length quantities, track
//! chunks with patched length fields, and the file header.

pub mod vlq;
pub mod event;
pub mod chunk;
pub mod writer;
