//! Build-time generator for route tables with a machine-readable
//! specification document.
//!
//! The generator consumes a small declarative grammar naming route handling
//! functions (plus an optional specification mutator), derives for every
//! route an operation identifier and a companion registration reference,
//! assembles a specification document from ambient package metadata and the
//! registered operation fragments, and produces the final route collection:
//! one binding per declared route followed by exactly one synthesized
//! binding that serves the document itself.

pub mod document;
pub mod emitter;
pub mod laws;
pub mod parser;
pub mod path;
