//! Auto-pairing of brackets and quotes for a shell command-line editor.

pub mod auto_close;
pub mod dparser;
pub mod laws;
pub mod text_buffer;
