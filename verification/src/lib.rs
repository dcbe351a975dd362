//! Opening an opencode session in the current directory.
//!
//! A session that belongs to another project is copied: exported, given new identifiers
//! throughout, and imported again. The library decides and computes; running programs,
//! writing files and showing things on a terminal are left to the program around it.
pub mod clock;
pub mod codec;
pub mod copy;
pub mod draw;
pub mod id;
pub mod import;
pub mod json;
pub mod keys;
pub mod laws;
pub mod project;
pub mod rewrite;
pub mod text;
