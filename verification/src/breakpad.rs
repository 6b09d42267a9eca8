//! The textual crash-symbol format.
//!
//! A symbol file begins with a module header line
//! `MODULE <os> <arch> <id> <name>`, whose third field is the build
//! identifier: 33 hex digits, used verbatim.

use vstd::prelude::*;

use crate::bytes::{find_byte, push_range, spec_find, spec_has_prefix};
use crate::ident::{all_hex, is_hex_digit, spec_is_token, spec_uuid_shaped, Ident, IdentView};
use crate::problem::Problem;

verus! {

/// The bytes of `MODULE `, the header-line marker.
pub open spec fn module_prefix() -> Seq<u8> {
    seq![77u8, 79u8, 68u8, 85u8, 76u8, 69u8, 32u8]
}

/// A symbol file is recognized by its header-line marker.
pub open spec fn spec_is_breakpad(s: Seq<u8>) -> bool {
    spec_has_prefix(s, module_prefix())
}

/// Checks for the `MODULE ` marker.
pub fn is_breakpad(s: &Vec<u8>) -> (r: bool)
    ensures
        r == spec_is_breakpad(s@),
{
    let mut p: Vec<u8> = Vec::new();
    p.push(77);
    p.push(79);
    p.push(68);
    p.push(85);
    p.push(76);
    p.push(69);
    p.push(32);
    proof {
        assert(p@ =~= module_prefix());
    }
    crate::bytes::has_prefix(s, &p)
}

/// The identifier field of the module header line, when the line is
/// well formed: four space-separated fields follow `MODULE `, the third
/// is 33 hex digits, and the fourth is non-empty.
pub open spec fn spec_breakpad_ident(s: Seq<u8>) -> Result<Seq<u8>, Problem> {
    let e = spec_find(s, 10, 0);
    let a = spec_find(s, 32, 7);
    let b = spec_find(s, 32, a + 1);
    let c = spec_find(s, 32, b + 1);
    if a >= e || b >= e || c >= e || a == 7 || b == a + 1 || c == b + 1 || c + 1 >= e {
        Err(Problem::CorruptSymbolHeader)
    } else {
        let id = s.subrange(b + 1, c);
        if id.len() == 33 && all_hex(id) {
            Ok(id)
        } else {
            Err(Problem::CorruptSymbolHeader)
        }
    }
}

/// Extracts the identifier of a symbol file: the third field of the
/// module header line, taken verbatim.
pub fn breakpad_ident(s: &Vec<u8>) -> (r: Result<Ident, Problem>)
    requires
        spec_is_breakpad(s@),
    ensures
        match r {
            Ok(id) => spec_breakpad_ident(s@) is Ok && id@ == IdentView::Text(
                spec_breakpad_ident(s@)->Ok_0,
            ) && id@.wf(),
            Err(p) => spec_breakpad_ident(s@) == Err::<Seq<u8>, Problem>(p),
        },
{
    let e = find_byte(s, 10, 0);
    let a = find_byte(s, 32, 7);
    if a >= e || a == 7 {
        return Err(Problem::CorruptSymbolHeader);
    }
    let b = find_byte(s, 32, a + 1);
    if b >= e || b == a + 1 {
        return Err(Problem::CorruptSymbolHeader);
    }
    let c = find_byte(s, 32, b + 1);
    if c >= e || c == b + 1 || c + 1 >= e {
        return Err(Problem::CorruptSymbolHeader);
    }
    let mut id: Vec<u8> = Vec::new();
    push_range(&mut id, s, b + 1, c);
    proof {
        assert(id@ =~= s@.subrange(b + 1, c as int));
    }
    if id.len() != 33 {
        return Err(Problem::CorruptSymbolHeader);
    }
    if !crate::ident::all_hex_check(&id) {
        return Err(Problem::CorruptSymbolHeader);
    }
    proof {
        assert(all_hex(id@));
        assert forall|k: int| 0 <= k < id@.len() implies crate::ident::is_token_byte(
            id@[k],
        ) by {
            assert(is_hex_digit(id@[k]));
        }
        assert(spec_is_token(id@));
        assert(!spec_uuid_shaped(id@));
    }
    Ok(Ident::Text(id))
}

} // verus!
