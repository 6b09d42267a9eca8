//! The native object-file format of debug bundles.
//!
//! A 64-bit little-endian object file starts with a fixed 32-byte header
//! whose magic is `0xfeedfacf`, followed by a run of load commands.  The
//! command tagged `0x1b` carries the 16-byte build identifier.

use vstd::prelude::*;

use crate::bytes::{push_range, read_u32_le, spec_le_value};
use crate::ident::{Ident, IdentView};
use crate::problem::Problem;

verus! {

/// An object file is recognized by its magic number.
pub open spec fn spec_is_macho(s: Seq<u8>) -> bool {
    s.len() >= 4 && spec_le_value(s, 0, 4) == 0xfeedfacf
}

/// Checks the object-file magic.
pub fn is_macho(s: &Vec<u8>) -> (r: bool)
    ensures
        r == spec_is_macho(s@),
{
    if s.len() < 4 {
        return false;
    }
    let m = read_u32_le(s, 0);
    m == 0xfeedfacf
}

/// The identifier found by walking the load commands from `off` with
/// `remaining` commands left: the 16 bytes of the first command tagged
/// `0x1b`, or the reason there is none.
pub open spec fn spec_macho_scan(s: Seq<u8>, off: int, remaining: nat) -> Result<Seq<u8>, Problem>
    decreases remaining,
{
    if remaining == 0 {
        Err(Problem::MissingIdentifier)
    } else if off < 0 || off + 8 > s.len() {
        Err(Problem::CorruptObjectHeader)
    } else {
        let cmd = spec_le_value(s, off, 4);
        let sz = spec_le_value(s, off + 4, 4);
        if sz < 8 || off + sz > s.len() {
            Err(Problem::CorruptObjectHeader)
        } else if cmd == 0x1b {
            if sz >= 24 {
                Ok(s.subrange(off + 8, off + 24))
            } else {
                Err(Problem::CorruptObjectHeader)
            }
        } else {
            spec_macho_scan(s, off + sz, (remaining - 1) as nat)
        }
    }
}

/// The identifier of an object file: the command count stands at byte
/// 16 of the header, the commands start at byte 32.
pub open spec fn spec_macho_ident(s: Seq<u8>) -> Result<Seq<u8>, Problem> {
    if s.len() < 32 {
        Err(Problem::CorruptObjectHeader)
    } else {
        spec_macho_scan(s, 32, spec_le_value(s, 16, 4) as nat)
    }
}

/// Extracts the identifier of an object file by walking its load
/// commands.
pub fn macho_ident(s: &Vec<u8>) -> (r: Result<Ident, Problem>)
    ensures
        match r {
            Ok(id) => spec_macho_ident(s@) is Ok && id@ == IdentView::Uuid(
                spec_macho_ident(s@)->Ok_0,
            ) && id@.wf(),
            Err(p) => spec_macho_ident(s@) == Err::<Seq<u8>, Problem>(p),
        },
{
    if s.len() < 32 {
        return Err(Problem::CorruptObjectHeader);
    }
    let ncmds = read_u32_le(s, 16);
    let mut off: usize = 32;
    let mut j: u32 = 0;
    loop
        invariant
            s@.len() >= 32,
            off <= s@.len(),
            j <= ncmds,
            ncmds == spec_le_value(s@, 16, 4),
            spec_macho_ident(s@) == spec_macho_scan(s@, off as int, (ncmds - j) as nat),
        decreases ncmds - j,
    {
        if j == ncmds {
            return Err(Problem::MissingIdentifier);
        }
        if s.len() - off < 8 {
            return Err(Problem::CorruptObjectHeader);
        }
        let cmd = read_u32_le(s, off);
        let sz = read_u32_le(s, off + 4) as usize;
        if sz < 8 || sz > s.len() - off {
            return Err(Problem::CorruptObjectHeader);
        }
        if cmd == 0x1b {
            if sz >= 24 {
                let mut id: Vec<u8> = Vec::new();
                push_range(&mut id, s, off + 8, off + 24);
                proof {
                    assert(id@ =~= s@.subrange(off + 8, off + 24));
                }
                return Ok(Ident::Uuid(id));
            } else {
                return Err(Problem::CorruptObjectHeader);
            }
        }
        proof {
            assert(spec_macho_scan(s@, off as int, (ncmds - j) as nat) == spec_macho_scan(
                s@,
                off + sz,
                (ncmds - j - 1) as nat,
            ));
        }
        off = off + sz;
        j = j + 1;
    }
}

} // verus!
