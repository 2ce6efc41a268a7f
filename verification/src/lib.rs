//! Assembly and disassembly of static archives for a linking backend.
//!
//! The crate reads and writes the classic `ar` container format: a magic
//! line followed by members, each a fixed-width header and a raw payload.
//! On top of the byte-level codec it offers the three operations a linker
//! driver needs: extracting bundled native libraries out of an existing
//! archive, building a new archive from accumulated entries, and
//! synthesizing an import library from dynamic-symbol descriptors.
//!
//! All functions work on in-memory bytes; reading and writing files is the
//! caller's business.

pub mod builder;
pub mod decimal;
pub mod errors;
pub mod extract;
pub mod fields;
pub mod imports;
pub mod laws;
pub mod member;
pub mod read;
pub mod write;
