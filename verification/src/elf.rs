//! The object-file format with debug sections.
//!
//! A 64-bit little-endian file of this kind starts with the four magic
//! bytes, a class byte and a data-order byte; its section header table
//! stands at the offset named in the file header.  A section of type 7
//! is a note section; the note record named `GNU` with type 3 carries
//! the build identifier, whose first 16 bytes form the canonical
//! identifier.

use vstd::prelude::*;

use crate::bytes::{push_range, read_u16_le, read_u32_le, read_u64_le, spec_le_value};
use crate::ident::{Ident, IdentView};
use crate::problem::Problem;

verus! {

/// A file of this format is recognized by its four magic bytes.
pub open spec fn spec_is_elf(s: Seq<u8>) -> bool {
    s.len() >= 4 && s[0] == 0x7f && s[1] == 0x45 && s[2] == 0x4c && s[3] == 0x46
}

/// Checks the magic bytes.
pub fn is_elf(s: &Vec<u8>) -> (r: bool)
    ensures
        r == spec_is_elf(s@),
{
    s.len() >= 4 && s[0] == 0x7f && s[1] == 0x45 && s[2] == 0x4c && s[3] == 0x46
}

/// The identifier carried by the first note record of a note section at
/// `off` with `size` bytes, when that record is a well-formed build
/// identifier note: name size 4, name `GNU` with a trailing zero, note
/// type 3, and at least 16 description bytes.
pub open spec fn spec_elf_note_id(s: Seq<u8>, off: int, size: int) -> Option<Seq<u8>> {
    if size < 32 || off < 0 || off + size > s.len() {
        None
    } else {
        let namesz = spec_le_value(s, off, 4);
        let descsz = spec_le_value(s, off + 4, 4);
        let typ = spec_le_value(s, off + 8, 4);
        if namesz == 4 && typ == 3 && descsz >= 16 && s[off + 12] == 71 && s[off + 13] == 78
            && s[off + 14] == 85 && s[off + 15] == 0 {
            Some(s.subrange(off + 16, off + 32))
        } else {
            None
        }
    }
}

/// The identifier found by scanning the section header table from entry
/// `i`: the first note section whose first record is a build identifier
/// note wins; a table without one means the file can never be matched
/// to a build.
pub open spec fn spec_elf_scan(s: Seq<u8>, shoff: int, i: int, shnum: int) -> Result<
    Seq<u8>,
    Problem,
>
    decreases shnum - i,
{
    if i >= shnum {
        Err(Problem::MissingIdentifier)
    } else {
        let h = shoff + 64 * i;
        let typ = spec_le_value(s, h + 4, 4);
        let off = spec_le_value(s, h + 0x18, 8);
        let size = spec_le_value(s, h + 0x20, 8);
        if typ == 7 && spec_elf_note_id(s, off, size) is Some {
            Ok(spec_elf_note_id(s, off, size)->0)
        } else {
            spec_elf_scan(s, shoff, i + 1, shnum)
        }
    }
}

/// The identifier of a file of this format.  Only the 64-bit
/// little-endian class is supported; others are diagnosed as an
/// unsupported architecture.  The section header table must lie inside
/// the file and use the standard 64-byte entries.
pub open spec fn spec_elf_ident(s: Seq<u8>) -> Result<Seq<u8>, Problem> {
    if s.len() < 64 {
        Err(Problem::CorruptObjectHeader)
    } else if !(s[4] == 2 && s[5] == 1) {
        Err(Problem::UnsupportedArchitecture)
    } else {
        let shoff = spec_le_value(s, 0x28, 8);
        let entsize = spec_le_value(s, 0x3a, 2);
        let shnum = spec_le_value(s, 0x3c, 2);
        if entsize != 64 || shoff + 64 * shnum > s.len() {
            Err(Problem::CorruptObjectHeader)
        } else {
            spec_elf_scan(s, shoff, 0, shnum)
        }
    }
}

/// Extracts the identifier of an object file with debug sections by
/// scanning its section header table for a build identifier note.
pub fn elf_ident(s: &Vec<u8>) -> (r: Result<Ident, Problem>)
    ensures
        match r {
            Ok(id) => spec_elf_ident(s@) is Ok && id@ == IdentView::Uuid(
                spec_elf_ident(s@)->Ok_0,
            ) && id@.wf(),
            Err(p) => spec_elf_ident(s@) == Err::<Seq<u8>, Problem>(p),
        },
{
    if s.len() < 64 {
        return Err(Problem::CorruptObjectHeader);
    }
    if !(s[4] == 2 && s[5] == 1) {
        return Err(Problem::UnsupportedArchitecture);
    }
    let shoff = read_u64_le(s, 0x28);
    let entsize = read_u16_le(s, 0x3a);
    let shnum = read_u16_le(s, 0x3c);
    if entsize != 64 {
        return Err(Problem::CorruptObjectHeader);
    }
    let len64 = s.len() as u64;
    let need = 64u64 * (shnum as u64);
    if shoff > len64 || need > len64 - shoff {
        return Err(Problem::CorruptObjectHeader);
    }
    let shoff_us = shoff as usize;
    let n: usize = s.len();
    let mut i: u16 = 0;
    loop
        invariant
            n == s@.len(),
            n >= 64,
            len64 == n,
            shoff_us == shoff,
            shoff + 64 * (shnum as int) <= n,
            i <= shnum,
            spec_elf_ident(s@) == spec_elf_scan(s@, shoff as int, i as int, shnum as int),
        decreases shnum - i,
    {
        if i == shnum {
            return Err(Problem::MissingIdentifier);
        }
        proof {
            assert(64 * (i as int) + 64 <= 64 * (shnum as int));
        }
        let h = shoff_us + 64 * (i as usize);
        let typ = read_u32_le(s, h + 4);
        if typ == 7 {
            let off = read_u64_le(s, h + 0x18);
            let size = read_u64_le(s, h + 0x20);
            if !(size < 32 || off > len64 || size > len64 - off) {
                let off_us = off as usize;
                let namesz = read_u32_le(s, off_us);
                let descsz = read_u32_le(s, off_us + 4);
                let typn = read_u32_le(s, off_us + 8);
                if namesz == 4 && typn == 3 && descsz >= 16 && s[off_us + 12] == 71 && s[off_us
                    + 13] == 78 && s[off_us + 14] == 85 && s[off_us + 15] == 0 {
                    let mut id: Vec<u8> = Vec::new();
                    push_range(&mut id, s, off_us + 16, off_us + 32);
                    proof {
                        assert(id@ =~= s@.subrange(off + 16, off + 32));
                    }
                    return Ok(Ident::Uuid(id));
                }
            }
        }
        proof {
            assert(spec_elf_scan(s@, shoff as int, i as int, shnum as int) == spec_elf_scan(
                s@,
                shoff as int,
                i + 1,
                shnum as int,
            ));
        }
        i = i + 1;
    }
}

} // verus!
