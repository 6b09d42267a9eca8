//! The obfuscation mapping format.
//!
//! A mapping file is text: comment lines starting with `#`, and mapping
//! lines of the shape `original -> obfuscated:`.  Its identifier is the
//! value declared by a `# build: <value>` header comment when one is
//! present; otherwise it is a stable hash of the whole content, rendered
//! as 16 lower-case hex digits.

use vstd::prelude::*;

use crate::bytes::{
    contains_seq, find_byte, has_prefix, push_range, spec_contains_seq, spec_find,
    spec_has_prefix,
};
use crate::ident::{hex_of, spec_parse_ident, Ident, IdentView};
use crate::problem::Problem;

verus! {

/// The bytes of ` -> `, the marker of a mapping line.
pub open spec fn arrow() -> Seq<u8> {
    seq![32u8, 45u8, 62u8, 32u8]
}

/// The bytes of `# build: `, the declared-identifier marker.
pub open spec fn build_marker() -> Seq<u8> {
    seq![35u8, 32u8, 98u8, 117u8, 105u8, 108u8, 100u8, 58u8, 32u8]
}

/// A mapping file is recognized by a leading comment together with a
/// mapping arrow somewhere in the content, or by a first line that is
/// itself a mapping line (`... -> ...:`).
pub open spec fn spec_is_proguard(s: Seq<u8>) -> bool {
    s.len() > 0 && {
        let l = s.subrange(0, spec_find(s, 10, 0));
        if s[0] == 35 {
            spec_contains_seq(s, arrow())
        } else {
            l.len() > 0 && l[l.len() - 1] == 58 && spec_contains_seq(l, arrow())
        }
    }
}

/// Checks the mapping-file shape.
pub fn is_proguard(s: &Vec<u8>) -> (r: bool)
    ensures
        r == spec_is_proguard(s@),
{
    if s.len() == 0 {
        return false;
    }
    let mut ar: Vec<u8> = Vec::new();
    ar.push(32);
    ar.push(45);
    ar.push(62);
    ar.push(32);
    proof {
        assert(ar@ =~= arrow());
    }
    if s[0] == 35 {
        contains_seq(s, &ar)
    } else {
        let e = find_byte(s, 10, 0);
        let mut l: Vec<u8> = Vec::new();
        push_range(&mut l, s, 0, e);
        proof {
            assert(l@ =~= s@.subrange(0, spec_find(s@, 10, 0)));
        }
        if l.len() == 0 {
            return false;
        }
        if l[l.len() - 1] != 58 {
            return false;
        }
        contains_seq(&l, &ar)
    }
}

/// The declared identifier of the leading comment block: the remainder
/// of the first `# build: ` line among the consecutive `#` lines at the
/// start, or nothing when no such line exists.
pub open spec fn spec_marker_value(s: Seq<u8>, from: int) -> Option<Seq<u8>>
    decreases s.len() - from,
{
    if from < 0 || from >= s.len() {
        None
    } else {
        let e = spec_find(s, 10, from);
        let l = s.subrange(from, e);
        let next = if e + 1 > from + 1 {
            e + 1
        } else {
            from + 1
        };
        let bounded = if next > s.len() {
            s.len() as int
        } else {
            next
        };
        if l.len() == 0 || l[0] != 35 {
            None
        } else if spec_has_prefix(l, build_marker()) {
            Some(l.subrange(9, l.len() as int))
        } else {
            spec_marker_value(s, bounded)
        }
    }
}

/// The 64-bit content hash: the hash-then-multiply fold over the bytes,
/// from an odd offset basis, reduced modulo two to the sixty-fourth.
pub open spec fn content_hash(s: Seq<u8>) -> u64
    decreases s.len(),
{
    if s.len() == 0 {
        0xcbf29ce484222325u64
    } else {
        hash_step(content_hash(s.drop_last()), s.last())
    }
}

/// One fold step of the content hash.
pub open spec fn hash_step(h: u64, b: u8) -> u64 {
    ((((h ^ (b as u64)) as int) * 0x100000001b3) % 0x10000000000000000) as u64
}

/// The big-endian bytes of a 64-bit value.
pub open spec fn u64_be_bytes(h: u64) -> Seq<u8> {
    seq![
        (h as int / 0x100000000000000) as u8,
        ((h as int / 0x1000000000000) % 256) as u8,
        ((h as int / 0x10000000000) % 256) as u8,
        ((h as int / 0x100000000) % 256) as u8,
        ((h as int / 0x1000000) % 256) as u8,
        ((h as int / 0x10000) % 256) as u8,
        ((h as int / 0x100) % 256) as u8,
        (h as int % 256) as u8,
    ]
}

/// What the identifier of a mapping file is: the declared `# build: `
/// value when the leading comment block has one (rejected when it is
/// not a well-formed identifier), else the rendered content hash.
pub open spec fn spec_proguard_ident(s: Seq<u8>) -> Result<IdentView, Problem> {
    match spec_marker_value(s, 0) {
        Some(v) => match spec_parse_ident(v) {
            Some(iv) => Ok(iv),
            None => Err(Problem::CorruptMappingHeader),
        },
        None => Ok(IdentView::Text(hex_of(u64_be_bytes(content_hash(s))))),
    }
}

/// Computes the content hash of the bytes.
pub fn content_hash_of(s: &Vec<u8>) -> (r: u64)
    ensures
        r == content_hash(s@),
{
    let mut h: u64 = 0xcbf29ce484222325;
    let n = s.len();
    let mut i: usize = 0;
    while i < n
        invariant
            n == s.len(),
            i <= n,
            h == content_hash(s@.take(i as int)),
        decreases n - i,
    {
        let x: u64 = h ^ (s[i] as u64);
        let p: u128 = (x as u128) * 0x100000001b3;
        let h2: u64 = (p % 0x10000000000000000) as u64;
        proof {
            assert(s@.take(i + 1).drop_last() =~= s@.take(i as int));
            assert(s@.take(i + 1).last() == s@[i as int]);
            assert(p as int == (x as int) * 0x100000001b3);
            assert(h2 as int == (p as int) % 0x10000000000000000);
            assert(h2 == hash_step(h, s@[i as int]));
        }
        h = h2;
        i += 1;
    }
    proof {
        assert(s@.take(n as int) =~= s@);
    }
    h
}

/// Renders a 64-bit value as 16 lower-case hex digits.
pub fn render_u64_hex(h: u64) -> (r: Vec<u8>)
    ensures
        r@ == hex_of(u64_be_bytes(h)),
{
    let mut bs: Vec<u8> = Vec::new();
    bs.push((h / 0x100000000000000) as u8);
    bs.push(((h / 0x1000000000000) % 256) as u8);
    bs.push(((h / 0x10000000000) % 256) as u8);
    bs.push(((h / 0x100000000) % 256) as u8);
    bs.push(((h / 0x1000000) % 256) as u8);
    bs.push(((h / 0x10000) % 256) as u8);
    bs.push(((h / 0x100) % 256) as u8);
    bs.push((h % 256) as u8);
    proof {
        assert(bs@ =~= u64_be_bytes(h));
    }
    let mut d: Vec<u8> = Vec::new();
    let mut i: usize = 0;
    while i < 8
        invariant
            bs.len() == 8,
            bs@ == u64_be_bytes(h),
            i <= 8,
            d@ == hex_of(bs@.take(i as int)),
        decreases 8 - i,
    {
        let hi = bs[i] / 16;
        let lo = bs[i] % 16;
        d.push(if hi < 10 { 48 + hi } else { 87 + hi });
        d.push(if lo < 10 { 48 + lo } else { 87 + lo });
        proof {
            crate::ident::lemma_hex_of_push(bs@.take(i as int), bs@[i as int]);
            assert(bs@.take(i + 1) =~= bs@.take(i as int).push(bs@[i as int]));
            assert(d@ =~= hex_of(bs@.take(i + 1)));
        }
        i += 1;
    }
    proof {
        assert(bs@.take(8) =~= bs@);
    }
    d
}

/// Extracts the identifier of a mapping file: the declared build value
/// when one is present, else the rendered content hash.  The result is
/// always a valid identifier.
pub fn proguard_ident(s: &Vec<u8>) -> (r: Result<Ident, Problem>)
    ensures
        match r {
            Ok(id) => spec_proguard_ident(s@) == Ok::<IdentView, Problem>(id@) && id@.wf(),
            Err(p) => spec_proguard_ident(s@) == Err::<IdentView, Problem>(p),
        },
{
    let mut marker: Vec<u8> = Vec::new();
    marker.push(35);
    marker.push(32);
    marker.push(98);
    marker.push(117);
    marker.push(105);
    marker.push(108);
    marker.push(100);
    marker.push(58);
    marker.push(32);
    proof {
        assert(marker@ =~= build_marker());
    }
    let declared = find_marker(s, &marker);
    match declared {
        Some(v) => match Ident::parse(&v) {
            Some(id) => Ok(id),
            None => Err(Problem::CorruptMappingHeader),
        },
        None => {
            let h = content_hash_of(s);
            let d = render_u64_hex(h);
            proof {
                crate::ident::lemma_hex_of_props(u64_be_bytes(h));
                assert forall|k: int| 0 <= k < d@.len() implies crate::ident::is_token_byte(
                    d@[k],
                ) by {
                    assert(crate::ident::is_hex_digit(d@[k]));
                }
                assert(crate::ident::spec_is_token(d@));
                assert(!crate::ident::spec_uuid_shaped(d@));
            }
            Ok(Ident::Text(d))
        },
    }
}

/// Scans the leading comment block for the declared-identifier line.
fn find_marker(s: &Vec<u8>, marker: &Vec<u8>) -> (r: Option<Vec<u8>>)
    requires
        marker@ == build_marker(),
    ensures
        match r {
            Some(v) => spec_marker_value(s@, 0) == Some(v@),
            None => spec_marker_value(s@, 0) is None,
        },
{
    let n = s.len();
    let mut from: usize = 0;
    loop
        invariant
            n == s.len(),
            from <= n,
            marker@ == build_marker(),
            spec_marker_value(s@, 0) == spec_marker_value(s@, from as int),
        decreases n - from,
    {
        if from >= n {
            return None;
        }
        let e = find_byte(s, 10, from);
        let mut l: Vec<u8> = Vec::new();
        push_range(&mut l, s, from, e);
        proof {
            assert(l@ =~= s@.subrange(from as int, spec_find(s@, 10, from as int)));
        }
        if l.len() == 0 || l[0] != 35 {
            return None;
        }
        if has_prefix(&l, &marker) {
            let mut v: Vec<u8> = Vec::new();
            push_range(&mut v, &l, 9, l.len());
            proof {
                assert(v@ =~= l@.subrange(9, l@.len() as int));
            }
            return Some(v);
        }
        if e == n {
            proof {
                assert(spec_marker_value(s@, n as int) is None);
            }
            return None;
        }
        proof {
            assert(spec_marker_value(s@, from as int) == spec_marker_value(s@, e + 1));
        }
        from = e + 1;
    }
}

} // verus!
