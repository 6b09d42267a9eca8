//! Diagnoses for artifacts that were recognized but cannot be used.

use vstd::prelude::*;

verus! {

/// Why a recognized debug artifact is not usable.
#[derive(Clone, Copy, Debug, PartialEq, Eq, Structural)]
pub enum Problem {
    /// An explicit format hint was given and the content does not have
    /// that format's structure.
    TypeMismatch,
    /// A bundle contained no parsable debug data at all.
    NoDebugData,
    /// An object file carries no identifier note or command, so it can
    /// never be matched to a build.
    MissingIdentifier,
    /// The object file's class or byte order is not supported.
    UnsupportedArchitecture,
    /// The object file's structure is malformed.
    CorruptObjectHeader,
    /// The mapping file declares a build marker that is not a valid
    /// identifier.
    CorruptMappingHeader,
    /// The symbol file's module header line is malformed.
    CorruptSymbolHeader,
}

impl Problem {
    /// A short, never-empty human-readable diagnosis.
    pub fn message(&self) -> (m: &'static str)
        ensures
            m@.len() > 0,
    {
        match self {
            Problem::TypeMismatch => {
                let m = "file format does not match the given type";
                proof {
                    reveal_strlit("file format does not match the given type");
                }
                m
            },
            Problem::NoDebugData => {
                let m = "no debug data found";
                proof {
                    reveal_strlit("no debug data found");
                }
                m
            },
            Problem::MissingIdentifier => {
                let m = "missing identifier section";
                proof {
                    reveal_strlit("missing identifier section");
                }
                m
            },
            Problem::UnsupportedArchitecture => {
                let m = "unsupported architecture";
                proof {
                    reveal_strlit("unsupported architecture");
                }
                m
            },
            Problem::CorruptObjectHeader => {
                let m = "corrupt object header";
                proof {
                    reveal_strlit("corrupt object header");
                }
                m
            },
            Problem::CorruptMappingHeader => {
                let m = "corrupt mapping header";
                proof {
                    reveal_strlit("corrupt mapping header");
                }
                m
            },
            Problem::CorruptSymbolHeader => {
                let m = "corrupt symbol header";
                proof {
                    reveal_strlit("corrupt symbol header");
                }
                m
            },
        }
    }
}

} // verus!
