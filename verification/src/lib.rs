//! Classification and inventory of debug information files (DIFs).
//!
//! A DIF is a binary artifact (a native debug bundle, an object file with
//! debug sections, an obfuscation mapping file, or a textual symbol file)
//! that carries the data needed to map crash addresses back to source
//! locations.  This crate models such files, extracts the canonical
//! identifiers that tie them to a specific build, discovers them across a
//! set of candidate paths, filters a discovered set by requested
//! identifiers, and plans the resolution of hidden symbols through an
//! external tool.  All file reading is left to the caller: every function
//! here works on plain bytes and paths handed in as values.

use vstd::prelude::*;

pub mod breakpad;
pub mod bytes;
pub mod dif;
pub mod discover;
pub mod elf;
pub mod ident;
pub mod macho;
pub mod problem;
pub mod proguard;
pub mod resolve;
pub mod select;

verus! {

/// The supported DIF variants, in detection priority order.
#[derive(Clone, Copy, Debug, PartialEq, Eq, Structural)]
pub enum Variant {
    /// A native debug bundle or a single native object file with a
    /// debug identifier load command.
    Dsym,
    /// An object file with debug sections and a build identifier note.
    Elf,
    /// An obfuscation mapping file.
    Proguard,
    /// A textual crash-symbol file.
    Breakpad,
}

} // verus!
