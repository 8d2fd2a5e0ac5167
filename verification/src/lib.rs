//! Playback engine of a note-sequencing plugin: a loaded program of timed
//! notes, the host's transport position, and the note events each processing
//! block must emit.

pub mod active_notes;
pub mod builtin;
pub mod display;
pub mod fixed;
pub mod guard;
pub mod json;
pub mod laws;
pub mod names;
pub mod pass;
pub mod program;
pub mod registration;
pub mod scheduler;
pub mod shared;
pub mod time;
