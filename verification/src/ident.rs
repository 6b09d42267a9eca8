//! Canonical identifiers.
//!
//! A canonical identifier names the build a debug artifact belongs to.  It
//! is either a 16-byte binary identifier, rendered in the lower-case
//! hyphenated form, or a verbatim textual token (a declared version string
//! or a content hash).  Rendering is stable: parsing a rendered identifier
//! yields the identifier back.

use vstd::prelude::*;

use crate::bytes::push_range;

verus! {

/// The byte value of `-`, the separator of the hyphenated rendering.
pub open spec fn dash() -> u8 {
    45
}

/// True for the bytes `0`-`9`, `a`-`f` and `A`-`F`.
pub open spec fn is_hex_digit(c: u8) -> bool {
    (48 <= c && c <= 57) || (97 <= c && c <= 102) || (65 <= c && c <= 70)
}

/// The lower-case hex digit for a value below 16.
pub open spec fn hex_digit_of(n: int) -> u8 {
    if 0 <= n && n < 10 {
        (48 + n) as u8
    } else if 10 <= n && n < 16 {
        (87 + n) as u8
    } else {
        48
    }
}

/// The value of a hex digit byte.
pub open spec fn hex_val_of(c: u8) -> int {
    if 48 <= c && c <= 57 {
        c - 48
    } else if 97 <= c && c <= 102 {
        c - 87
    } else if 65 <= c && c <= 70 {
        c - 55
    } else {
        0
    }
}

/// The two lower-case hex digits of one byte.
pub open spec fn byte_hex(b: u8) -> Seq<u8> {
    seq![hex_digit_of(b as int / 16), hex_digit_of(b as int % 16)]
}

/// The lower-case hex digits of a byte sequence, two per byte.
pub open spec fn hex_of(bs: Seq<u8>) -> Seq<u8>
    decreases bs.len(),
{
    if bs.len() == 0 {
        Seq::empty()
    } else {
        byte_hex(bs[0]) + hex_of(bs.drop_first())
    }
}

/// The bytes encoded by a sequence of hex digit pairs.
pub open spec fn bytes_of_hex(d: Seq<u8>) -> Seq<u8>
    decreases d.len(),
{
    if d.len() < 2 {
        Seq::empty()
    } else {
        seq![(hex_val_of(d[0]) * 16 + hex_val_of(d[1])) as u8] + bytes_of_hex(d.skip(2))
    }
}

/// True when every byte of `d` is a hex digit.
pub open spec fn all_hex(d: Seq<u8>) -> bool {
    forall|i: int| 0 <= i < d.len() ==> is_hex_digit(d[i])
}

/// The 32 digits of a 36-byte hyphenated rendering, hyphens removed.
pub open spec fn spec_strip_dashes(s: Seq<u8>) -> Seq<u8> {
    s.subrange(0, 8) + s.subrange(9, 13) + s.subrange(14, 18) + s.subrange(19, 23)
        + s.subrange(24, 36)
}

/// True when `s` has the shape of a hyphenated binary identifier:
/// 36 bytes, hyphens at the four fixed positions, hex digits elsewhere.
pub open spec fn spec_uuid_shaped(s: Seq<u8>) -> bool {
    s.len() == 36 && s[8] == dash() && s[13] == dash() && s[18] == dash() && s[23] == dash()
        && all_hex(spec_strip_dashes(s))
}

/// The hyphenated lower-case rendering of 16 identifier bytes.
pub open spec fn spec_uuid_render(bs: Seq<u8>) -> Seq<u8> {
    let d = hex_of(bs);
    d.subrange(0, 8) + seq![dash()] + d.subrange(8, 12) + seq![dash()] + d.subrange(12, 16)
        + seq![dash()] + d.subrange(16, 20) + seq![dash()] + d.subrange(20, 32)
}

/// True for a printable, space-free ASCII byte: what a textual
/// identifier token may consist of.
pub open spec fn is_token_byte(c: u8) -> bool {
    33 <= c && c <= 126
}

/// True when `s` is a non-empty token of printable ASCII bytes.
pub open spec fn spec_is_token(s: Seq<u8>) -> bool {
    s.len() > 0 && forall|i: int| 0 <= i < s.len() ==> is_token_byte(s[i])
}

/// A canonical identifier.
#[derive(Debug)]
pub enum Ident {
    /// A 16-byte binary identifier, as carried by native object files.
    Uuid(Vec<u8>),
    /// A verbatim textual token: a declared version string or a content
    /// hash, as carried by mapping and symbol files.
    Text(Vec<u8>),
}

/// The mathematical value of an identifier.
pub enum IdentView {
    Uuid(Seq<u8>),
    Text(Seq<u8>),
}

impl IdentView {
    /// Validity: binary identifiers are exactly 16 bytes; textual ones
    /// are printable tokens that do not themselves look like a
    /// hyphenated binary identifier (so the rendering stays
    /// unambiguous).
    pub open spec fn wf(self) -> bool {
        match self {
            IdentView::Uuid(bs) => bs.len() == 16,
            IdentView::Text(t) => spec_is_token(t) && !spec_uuid_shaped(t),
        }
    }

    /// The normalized textual rendering.
    pub open spec fn rendered(self) -> Seq<u8> {
        match self {
            IdentView::Uuid(bs) => spec_uuid_render(bs),
            IdentView::Text(t) => t,
        }
    }
}

impl View for Ident {
    type V = IdentView;

    open spec fn view(&self) -> IdentView {
        match self {
            Ident::Uuid(b) => IdentView::Uuid(b@),
            Ident::Text(t) => IdentView::Text(t@),
        }
    }
}

/// What parsing a rendered identifier yields: the binary form when the
/// bytes have the hyphenated shape, the verbatim token when they form a
/// printable token, nothing otherwise.
pub open spec fn spec_parse_ident(s: Seq<u8>) -> Option<IdentView> {
    if spec_uuid_shaped(s) {
        Some(IdentView::Uuid(bytes_of_hex(spec_strip_dashes(s))))
    } else if spec_is_token(s) {
        Some(IdentView::Text(s))
    } else {
        None
    }
}

/// Appending a byte appends its two digits.
pub(crate) proof fn lemma_hex_of_push(bs: Seq<u8>, b: u8)
    ensures
        hex_of(bs.push(b)) == hex_of(bs) + byte_hex(b),
    decreases bs.len(),
{
    if bs.len() == 0 {
        assert(bs.push(b).drop_first() =~= Seq::<u8>::empty());
        assert(hex_of(Seq::<u8>::empty()) == Seq::<u8>::empty());
        assert(bs.push(b)[0] == b);
        assert(hex_of(bs.push(b)) == byte_hex(b) + Seq::<u8>::empty());
        assert(hex_of(bs.push(b)) =~= hex_of(bs) + byte_hex(b));
    } else {
        lemma_hex_of_push(bs.drop_first(), b);
        assert(bs.push(b).drop_first() =~= bs.drop_first().push(b));
        assert(bs.push(b)[0] == bs[0]);
        assert(hex_of(bs.push(b)) == byte_hex(bs[0]) + hex_of(bs.drop_first().push(b)));
        assert(hex_of(bs.push(b)) == byte_hex(bs[0]) + (hex_of(bs.drop_first()) + byte_hex(b)));
        assert(hex_of(bs) == byte_hex(bs[0]) + hex_of(bs.drop_first()));
        assert(byte_hex(bs[0]) + (hex_of(bs.drop_first()) + byte_hex(b)) =~= (byte_hex(bs[0])
            + hex_of(bs.drop_first())) + byte_hex(b));
    }
}

/// The digit expansion has two digits per byte, all of them hex.
pub(crate) proof fn lemma_hex_of_props(bs: Seq<u8>)
    ensures
        hex_of(bs).len() == 2 * bs.len(),
        all_hex(hex_of(bs)),
    decreases bs.len(),
{
    if bs.len() > 0 {
        lemma_hex_of_props(bs.drop_first());
        assert forall|i: int| 0 <= i < hex_of(bs).len() implies is_hex_digit(hex_of(bs)[i]) by {
            if i >= 2 {
                assert(hex_of(bs)[i] == hex_of(bs.drop_first())[i - 2]);
            }
        }
    }
}

/// Decoding the digit expansion of a byte sequence gives it back.
proof fn lemma_bytes_of_hex_of(bs: Seq<u8>)
    ensures
        bytes_of_hex(hex_of(bs)) == bs,
    decreases bs.len(),
{
    if bs.len() == 0 {
        assert(bytes_of_hex(hex_of(bs)) =~= bs);
    } else {
        lemma_bytes_of_hex_of(bs.drop_first());
        let d = hex_of(bs);
        let b0 = bs[0];
        assert(d[0] == hex_digit_of(b0 as int / 16) && d[1] == hex_digit_of(b0 as int % 16));
        assert(hex_val_of(d[0]) == b0 as int / 16 && hex_val_of(d[1]) == b0 as int % 16);
        assert(hex_val_of(d[0]) * 16 + hex_val_of(d[1]) == b0) by {
            assert(b0 as int == 16 * (b0 as int / 16) + b0 as int % 16) by (nonlinear_arith);
        }
        assert(d.skip(2) =~= hex_of(bs.drop_first()));
        assert(bytes_of_hex(d) =~= bs);
    }
}

/// Decoding a run of digit pairs, one pair at a time from the front.
proof fn lemma_bytes_of_hex_snoc(d: Seq<u8>, a: u8, b: u8)
    requires
        d.len() % 2 == 0,
    ensures
        bytes_of_hex(d + seq![a, b]) == bytes_of_hex(d).push(
            (hex_val_of(a) * 16 + hex_val_of(b)) as u8,
        ),
    decreases d.len(),
{
    let pair = seq![a, b];
    if d.len() == 0 {
        assert((d + pair)[0] == a && (d + pair)[1] == b);
        assert((d + pair).skip(2) =~= Seq::<u8>::empty());
        assert(bytes_of_hex(Seq::<u8>::empty()) == Seq::<u8>::empty());
        assert((d + pair).len() == 2);
        assert(bytes_of_hex(d + pair) == seq![(hex_val_of(a) * 16 + hex_val_of(b)) as u8]
            + Seq::<u8>::empty());
        assert(bytes_of_hex(d + pair) =~= bytes_of_hex(d).push(
            (hex_val_of(a) * 16 + hex_val_of(b)) as u8,
        ));
    } else {
        lemma_bytes_of_hex_snoc(d.skip(2), a, b);
        assert((d + pair).skip(2) =~= d.skip(2) + pair);
        assert((d + pair)[0] == d[0] && (d + pair)[1] == d[1]);
        let v0 = (hex_val_of(d[0]) * 16 + hex_val_of(d[1])) as u8;
        let vp = (hex_val_of(a) * 16 + hex_val_of(b)) as u8;
        assert(bytes_of_hex(d + pair) == seq![v0] + bytes_of_hex(d.skip(2) + pair));
        assert(bytes_of_hex(d + pair) == seq![v0] + bytes_of_hex(d.skip(2)).push(vp));
        assert(bytes_of_hex(d) == seq![v0] + bytes_of_hex(d.skip(2)));
        assert(seq![v0] + bytes_of_hex(d.skip(2)).push(vp) =~= (seq![v0] + bytes_of_hex(
            d.skip(2),
        )).push(vp));
    }
}

/// Removing the hyphens of a rendering recovers the digit expansion.
proof fn lemma_strip_of_render(bs: Seq<u8>)
    requires
        bs.len() == 16,
    ensures
        spec_uuid_render(bs).len() == 36,
        spec_strip_dashes(spec_uuid_render(bs)) == hex_of(bs),
{
    lemma_hex_of_props(bs);
    let d = hex_of(bs);
    let r = spec_uuid_render(bs);
    assert(r.len() == 36);
    assert(spec_strip_dashes(r) =~= d);
}

/// Stability of the rendering: parsing a rendered identifier yields the
/// identifier itself back, unchanged.
pub proof fn lemma_parse_render_round_trip(v: IdentView)
    requires
        v.wf(),
    ensures
        spec_parse_ident(v.rendered()) == Some(v),
{
    match v {
        IdentView::Uuid(bs) => {
            lemma_hex_of_props(bs);
            lemma_strip_of_render(bs);
            lemma_bytes_of_hex_of(bs);
            let r = spec_uuid_render(bs);
            let d = hex_of(bs);
            assert(r[8] == dash() && r[13] == dash() && r[18] == dash() && r[23] == dash());
            assert(spec_uuid_shaped(r));
        },
        IdentView::Text(t) => {
        },
    }
}

/// Distinct identifiers render distinctly: the normalized textual form
/// is a faithful key for comparisons.
pub proof fn lemma_rendering_injective(a: IdentView, b: IdentView)
    requires
        a.wf(),
        b.wf(),
        a.rendered() == b.rendered(),
    ensures
        a == b,
{
    lemma_parse_render_round_trip(a);
    lemma_parse_render_round_trip(b);
}

impl Ident {
    /// Validity of the executable value.
    pub open spec fn wf(self) -> bool {
        self@.wf()
    }

    /// Renders the identifier in its normalized textual form: the
    /// lower-case hyphenated form for binary identifiers, the verbatim
    /// token for textual ones.
    pub fn render(&self) -> (r: Vec<u8>)
        requires
            self@.wf(),
        ensures
            r@ == self@.rendered(),
    {
        match self {
            Ident::Uuid(b) => {
                let mut d: Vec<u8> = Vec::new();
                let n = b.len();
                let mut i: usize = 0;
                while i < n
                    invariant
                        n == b.len(),
                        i <= n,
                        d@ == hex_of(b@.take(i as int)),
                    decreases n - i,
                {
                    let hi = b[i] / 16;
                    let lo = b[i] % 16;
                    d.push(if hi < 10 { 48 + hi } else { 87 + hi });
                    d.push(if lo < 10 { 48 + lo } else { 87 + lo });
                    proof {
                        lemma_hex_of_push(b@.take(i as int), b@[i as int]);
                        assert(b@.take(i + 1) =~= b@.take(i as int).push(b@[i as int]));
                        assert(d@ =~= hex_of(b@.take(i + 1)));
                    }
                    i += 1;
                }
                proof {
                    assert(b@.take(n as int) =~= b@);
                    lemma_hex_of_props(b@);
                }
                let mut out: Vec<u8> = Vec::new();
                push_range(&mut out, &d, 0, 8);
                out.push(45);
                push_range(&mut out, &d, 8, 12);
                out.push(45);
                push_range(&mut out, &d, 12, 16);
                out.push(45);
                push_range(&mut out, &d, 16, 20);
                out.push(45);
                push_range(&mut out, &d, 20, 32);
                proof {
                    assert(out@ =~= spec_uuid_render(b@));
                }
                out
            },
            Ident::Text(t) => {
                let mut out: Vec<u8> = Vec::new();
                push_range(&mut out, t, 0, t.len());
                proof {
                    assert(out@ =~= t@);
                }
                out
            },
        }
    }

    /// Parses a normalized textual rendering back into an identifier.
    /// Succeeds exactly on hyphenated binary identifiers (either case)
    /// and on printable tokens; the result is a valid identifier.
    pub fn parse(s: &Vec<u8>) -> (r: Option<Ident>)
        ensures
            match r {
                Some(id) => spec_parse_ident(s@) == Some(id@) && id@.wf(),
                None => spec_parse_ident(s@) is None,
            },
    {
        if is_uuid_shaped(s) {
            let mut d: Vec<u8> = Vec::new();
            push_range(&mut d, s, 0, 8);
            push_range(&mut d, s, 9, 13);
            push_range(&mut d, s, 14, 18);
            push_range(&mut d, s, 19, 23);
            push_range(&mut d, s, 24, 36);
            proof {
                assert(d@ =~= spec_strip_dashes(s@));
            }
            let mut out: Vec<u8> = Vec::new();
            let mut k: usize = 0;
            while k < 16
                invariant
                    d@ == spec_strip_dashes(s@),
                    d.len() == 32,
                    k <= 16,
                    out@ == bytes_of_hex(d@.take(2 * k)),
                decreases 16 - k,
            {
                let hi = hex_val(d[2 * k]);
                let lo = hex_val(d[2 * k + 1]);
                out.push(hi * 16 + lo);
                proof {
                    lemma_bytes_of_hex_snoc(d@.take(2 * k), d@[2 * k], d@[2 * k + 1]);
                    assert(d@.take(2 * k + 2) =~= d@.take(2 * k) + seq![
                        d@[2 * k],
                        d@[2 * k + 1],
                    ]);
                }
                k += 1;
            }
            proof {
                assert(d@.take(32) =~= d@);
                lemma_bytes_of_hex_len(d@);
            }
            Some(Ident::Uuid(out))
        } else if is_token(s) {
            let mut t: Vec<u8> = Vec::new();
            push_range(&mut t, s, 0, s.len());
            proof {
                assert(t@ =~= s@);
            }
            Some(Ident::Text(t))
        } else {
            None
        }
    }

    /// A fresh identifier with the same value.
    pub fn duplicate(&self) -> (r: Ident)
        ensures
            r@ == self@,
    {
        match self {
            Ident::Uuid(b) => {
                let mut c: Vec<u8> = Vec::new();
                push_range(&mut c, b, 0, b.len());
                proof {
                    assert(c@ =~= b@);
                }
                Ident::Uuid(c)
            },
            Ident::Text(t) => {
                let mut c: Vec<u8> = Vec::new();
                push_range(&mut c, t, 0, t.len());
                proof {
                    assert(c@ =~= t@);
                }
                Ident::Text(c)
            },
        }
    }
}

/// Decoding `n` digit pairs yields `n` bytes.
proof fn lemma_bytes_of_hex_len(d: Seq<u8>)
    ensures
        bytes_of_hex(d).len() == d.len() / 2,
    decreases d.len(),
{
    if d.len() >= 2 {
        lemma_bytes_of_hex_len(d.skip(2));
    }
}

/// Compares two identifiers for equality of value.
pub fn eq_ident(a: &Ident, b: &Ident) -> (r: bool)
    ensures
        r == (a@ == b@),
{
    match (a, b) {
        (Ident::Uuid(x), Ident::Uuid(y)) => crate::bytes::eq_bytes(x, y),
        (Ident::Text(x), Ident::Text(y)) => crate::bytes::eq_bytes(x, y),
        _ => false,
    }
}

/// Checks the hyphenated-identifier shape.
fn is_uuid_shaped(s: &Vec<u8>) -> (r: bool)
    ensures
        r == spec_uuid_shaped(s@),
{
    if s.len() != 36 {
        return false;
    }
    if !(s[8] == 45 && s[13] == 45 && s[18] == 45 && s[23] == 45) {
        return false;
    }
    let mut d: Vec<u8> = Vec::new();
    push_range(&mut d, s, 0, 8);
    push_range(&mut d, s, 9, 13);
    push_range(&mut d, s, 14, 18);
    push_range(&mut d, s, 19, 23);
    push_range(&mut d, s, 24, 36);
    proof {
        assert(d@ =~= spec_strip_dashes(s@));
    }
    all_hex_check(&d)
}

/// Checks the printable-token shape.
fn is_token(s: &Vec<u8>) -> (r: bool)
    ensures
        r == spec_is_token(s@),
{
    if s.len() == 0 {
        return false;
    }
    let n = s.len();
    let mut i: usize = 0;
    while i < n
        invariant
            n == s.len(),
            i <= n,
            forall|k: int| 0 <= k < i ==> is_token_byte(s@[k]),
        decreases n - i,
    {
        let c = s[i];
        if !(33 <= c && c <= 126) {
            return false;
        }
        i += 1;
    }
    true
}

/// Checks that every byte is a hex digit.
pub fn all_hex_check(v: &Vec<u8>) -> (r: bool)
    ensures
        r == all_hex(v@),
{
    let n = v.len();
    let mut i: usize = 0;
    while i < n
        invariant
            n == v.len(),
            i <= n,
            forall|k: int| 0 <= k < i ==> is_hex_digit(v@[k]),
        decreases n - i,
    {
        let c = v[i];
        if !((48 <= c && c <= 57) || (97 <= c && c <= 102) || (65 <= c && c <= 70)) {
            assert(!all_hex(v@));
            return false;
        }
        i += 1;
    }
    true
}

/// The value of one hex digit byte.
fn hex_val(c: u8) -> (r: u8)
    ensures
        r == hex_val_of(c),
        r < 16,
{
    if 48 <= c && c <= 57 {
        c - 48
    } else if 97 <= c && c <= 102 {
        c - 87
    } else if 65 <= c && c <= 70 {
        c - 55
    } else {
        0
    }
}

} // verus!
