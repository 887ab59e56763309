//! Front end of a small assembly-language toolchain.
//!
//! The pipeline takes raw source text, strips end-of-line comments, runs a
//! line-oriented preprocessing pass that classifies labels as code or data,
//! resolves and validates every label reference, loads the data segment into
//! a virtual machine's memory image, and assembles an execution driver that
//! bundles the entry point, the finalized instruction stream and a mapping
//! from code positions back to source offsets.

pub mod errors;
pub mod grammar;
pub mod labels;
pub mod loader;
pub mod pipeline;
pub mod source_index;
pub mod strip;
pub mod text;
pub mod vm;
