//! Structural decoding of a legacy 2D game client's sprite asset files.
//!
//! The client keeps its sprites in two binary files: a fixed-size index file,
//! a concatenation of 40-byte `GraphicInfo` records, and a blob file holding
//! one variable-length `Graphic` record at each byte address the index names.
//! This crate decodes both record kinds from in-memory byte buffers; opening
//! and reading the files themselves is left to the caller.

pub mod cursor;
pub mod resource;
pub mod structure;
