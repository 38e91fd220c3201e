//! A verified symbol-resolution engine for crash-report stack frames.
//!
//! Given debug information for a binary (read from native object files,
//! a companion debug file, an externally generated text symbol table, or
//! reconstructed from per-compilation-unit object files), the library
//! builds an in-memory address table and answers point queries: which
//! function, source file and line correspond to a code address.

pub mod breakpad;
pub mod error;
pub mod fixer;
pub mod interner;
pub mod macho;
pub mod service;
pub mod raw;
pub mod recon;
pub mod strtools;
pub mod symmap;
pub mod table;
