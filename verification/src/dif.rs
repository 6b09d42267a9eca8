//! The debug information file model.
//!
//! A classified artifact carries its variant, its path, the ordered set
//! of canonical identifiers extracted from it, and — exactly when no
//! identifier could be extracted — a diagnosis.  Classification either
//! trusts an explicit hint (a content mismatch then yields an unusable
//! instance, not a failure) or auto-detects the variant by structural
//! markers in a fixed priority order.

use vstd::prelude::*;

use crate::breakpad;
use crate::bytes::{contains_seq, copy_bytes, spec_contains_seq};
use crate::elf;
use crate::ident::{Ident, IdentView};
use crate::macho;
use crate::problem::Problem;
use crate::proguard;
use crate::Variant;

verus! {

/// The bytes of `__hidden#`, the marker of obscured symbol names.
pub open spec fn hidden_marker() -> Seq<u8> {
    seq![95u8, 95u8, 104u8, 105u8, 100u8, 100u8, 101u8, 110u8, 35u8]
}

/// The views of a sequence of identifiers.
pub open spec fn ident_views(s: Seq<Ident>) -> Seq<IdentView> {
    s.map_values(|id: Ident| id@)
}

/// The views of a sequence of byte vectors.
pub open spec fn slice_views(s: Seq<Vec<u8>>) -> Seq<Seq<u8>> {
    s.map_values(|v: Vec<u8>| v@)
}

/// Which variant the bytes auto-detect as: the first structural match
/// in the fixed priority order wins; unrecognizable bytes detect as
/// nothing, which is not an error.
pub open spec fn spec_detect(s: Seq<u8>) -> Option<Variant> {
    if macho::spec_is_macho(s) {
        Some(Variant::Dsym)
    } else if elf::spec_is_elf(s) {
        Some(Variant::Elf)
    } else if breakpad::spec_is_breakpad(s) {
        Some(Variant::Breakpad)
    } else if proguard::spec_is_proguard(s) {
        Some(Variant::Proguard)
    } else {
        None
    }
}

/// Auto-detects the variant of the bytes.
pub fn detect(s: &Vec<u8>) -> (r: Option<Variant>)
    ensures
        r == spec_detect(s@),
{
    if macho::is_macho(s) {
        Some(Variant::Dsym)
    } else if elf::is_elf(s) {
        Some(Variant::Elf)
    } else if breakpad::is_breakpad(s) {
        Some(Variant::Breakpad)
    } else if proguard::is_proguard(s) {
        Some(Variant::Proguard)
    } else {
        None
    }
}

/// True when the bytes have the structural marker of the given variant.
pub open spec fn spec_matches_variant(v: Variant, s: Seq<u8>) -> bool {
    match v {
        Variant::Dsym => macho::spec_is_macho(s),
        Variant::Elf => elf::spec_is_elf(s),
        Variant::Breakpad => breakpad::spec_is_breakpad(s),
        Variant::Proguard => proguard::spec_is_proguard(s),
    }
}

/// Checks the structural marker of the given variant.
pub fn matches_variant(v: Variant, s: &Vec<u8>) -> (r: bool)
    ensures
        r == spec_matches_variant(v, s@),
{
    match v {
        Variant::Dsym => macho::is_macho(s),
        Variant::Elf => elf::is_elf(s),
        Variant::Breakpad => breakpad::is_breakpad(s),
        Variant::Proguard => proguard::is_proguard(s),
    }
}

/// The identifier a single file of the given variant carries, or the
/// reason it carries none.
pub open spec fn spec_extract(v: Variant, s: Seq<u8>) -> Result<IdentView, Problem> {
    match v {
        Variant::Dsym => match macho::spec_macho_ident(s) {
            Ok(b) => Ok(IdentView::Uuid(b)),
            Err(p) => Err(p),
        },
        Variant::Elf => match elf::spec_elf_ident(s) {
            Ok(b) => Ok(IdentView::Uuid(b)),
            Err(p) => Err(p),
        },
        Variant::Breakpad => match breakpad::spec_breakpad_ident(s) {
            Ok(t) => Ok(IdentView::Text(t)),
            Err(p) => Err(p),
        },
        Variant::Proguard => proguard::spec_proguard_ident(s),
    }
}

/// One classified debug information file.
#[derive(Debug)]
pub struct Dif {
    /// The variant the artifact was classified as.
    pub variant: Variant,
    /// Where the artifact stands on disk.
    pub path: Vec<u8>,
    /// The canonical identifiers, in discovery order, without
    /// duplicates.  Empty exactly when the artifact is unusable.
    pub ids: Vec<Ident>,
    /// The diagnosis, present exactly when no identifier was found.
    pub problem: Option<Problem>,
    /// Whether the artifact carries obscured symbol names; only a
    /// native bundle can.
    pub hidden: bool,
}

/// The mathematical value of a classified artifact.
#[verifier::ext_equal]
pub struct DifView {
    pub variant: Variant,
    pub path: Seq<u8>,
    pub ids: Seq<IdentView>,
    pub problem: Option<Problem>,
    pub hidden: bool,
}

impl View for Dif {
    type V = DifView;

    open spec fn view(&self) -> DifView {
        DifView {
            variant: self.variant,
            path: self.path@,
            ids: ident_views(self.ids@),
            problem: self.problem,
            hidden: self.hidden,
        }
    }
}

impl DifView {
    /// Usability: the artifact parsed and carries an identifier.
    pub open spec fn usable(self) -> bool {
        self.ids.len() > 0
    }

    /// Validity: a diagnosis stands exactly when no identifier does;
    /// identifiers are valid and pairwise distinct; only a native
    /// bundle can carry obscured symbols.
    pub open spec fn wf(self) -> bool {
        &&& (self.ids.len() > 0) <==> (self.problem is None)
        &&& forall|i: int| 0 <= i < self.ids.len() ==> self.ids[i].wf()
        &&& forall|i: int, j: int| 0 <= i < j < self.ids.len() ==> self.ids[i] != self.ids[j]
        &&& self.hidden ==> self.variant == Variant::Dsym
    }
}

impl Dif {
    /// Validity of the executable value.
    pub open spec fn wf(self) -> bool {
        self@.wf()
    }

    /// Usability: true exactly when at least one identifier was
    /// extracted.
    pub fn is_usable(&self) -> (r: bool)
        ensures
            r == self@.usable(),
    {
        self.ids.len() > 0
    }

    /// The diagnosis, present exactly when the artifact is unusable.
    pub fn get_problem(&self) -> (r: Option<Problem>)
        ensures
            r == self@.problem,
    {
        self.problem
    }

    /// The identifier sequence; empty exactly when the artifact is
    /// unusable.
    pub fn ids(&self) -> (r: &Vec<Ident>)
        ensures
            ident_views(r@) == self@.ids,
    {
        &self.ids
    }

    /// A fresh instance with the same value.
    pub fn duplicate(&self) -> (r: Dif)
        ensures
            r@ == self@,
    {
        let mut ids: Vec<Ident> = Vec::new();
        let n = self.ids.len();
        let mut i: usize = 0;
        while i < n
            invariant
                n == self.ids.len(),
                i <= n,
                ident_views(ids@) == ident_views(self.ids@).take(i as int),
            decreases n - i,
        {
            let ghost before = ident_views(ids@);
            ids.push(self.ids[i].duplicate());
            proof {
                assert(ident_views(ids@) =~= before.push(self.ids@[i as int]@));
                assert(ident_views(self.ids@).take(i + 1) =~= ident_views(self.ids@).take(
                    i as int,
                ).push(ident_views(self.ids@)[i as int]));
            }
            i += 1;
        }
        let r = Dif {
            variant: self.variant,
            path: copy_bytes(&self.path),
            ids,
            problem: self.problem,
            hidden: self.hidden,
        };
        proof {
            assert(ident_views(self.ids@).take(n as int) =~= ident_views(self.ids@));
            assert(r@ =~= self@);
        }
        r
    }
}

/// What classifying bytes of a known variant yields: a usable instance
/// with the one extracted identifier, or an unusable one carrying the
/// diagnosis.  Obscured-symbol data is noted for native objects.
pub open spec fn spec_make_dif(v: Variant, path: Seq<u8>, data: Seq<u8>) -> DifView {
    let hid = v == Variant::Dsym && spec_contains_seq(data, hidden_marker());
    match spec_extract(v, data) {
        Ok(id) => DifView { variant: v, path, ids: seq![id], problem: None, hidden: hid },
        Err(p) => DifView {
            variant: v,
            path,
            ids: Seq::empty(),
            problem: Some(p),
            hidden: hid,
        },
    }
}

/// What classifying a single file yields.  A hint is trusted: content
/// of another shape becomes an unusable instance with a mismatch
/// diagnosis.  Without a hint, undetectable bytes yield nothing, so a
/// directory walk can pass over them silently.
pub open spec fn spec_classify_data(path: Seq<u8>, data: Seq<u8>, hint: Option<Variant>) -> Option<
    DifView,
> {
    match hint {
        Some(v) => Some(
            if spec_matches_variant(v, data) {
                spec_make_dif(v, path, data)
            } else {
                DifView {
                    variant: v,
                    path,
                    ids: Seq::empty(),
                    problem: Some(Problem::TypeMismatch),
                    hidden: false,
                }
            },
        ),
        None => match spec_detect(data) {
            Some(v) => Some(spec_make_dif(v, path, data)),
            None => None,
        },
    }
}

/// Classifies bytes already known to have the given variant's
/// structure.
fn make_dif(v: Variant, path: &Vec<u8>, data: &Vec<u8>) -> (d: Dif)
    requires
        spec_matches_variant(v, data@),
    ensures
        d@ == spec_make_dif(v, path@, data@),
        d@.wf(),
{
    let hid = match v {
        Variant::Dsym => {
            let mut m: Vec<u8> = Vec::new();
            m.push(95);
            m.push(95);
            m.push(104);
            m.push(105);
            m.push(100);
            m.push(100);
            m.push(101);
            m.push(110);
            m.push(35);
            proof {
                assert(m@ =~= hidden_marker());
            }
            contains_seq(data, &m)
        },
        _ => false,
    };
    let ext: Result<Ident, Problem> = match v {
        Variant::Dsym => macho::macho_ident(data),
        Variant::Elf => elf::elf_ident(data),
        Variant::Breakpad => breakpad::breakpad_ident(data),
        Variant::Proguard => proguard::proguard_ident(data),
    };
    match ext {
        Ok(id) => {
            let mut ids: Vec<Ident> = Vec::new();
            ids.push(id);
            let d = Dif { variant: v, path: copy_bytes(path), ids, problem: None, hidden: hid };
            proof {
                assert(d@.ids =~= seq![spec_extract(v, data@)->Ok_0]);
                assert(d@ =~= spec_make_dif(v, path@, data@));
            }
            d
        },
        Err(p) => {
            let d = Dif {
                variant: v,
                path: copy_bytes(path),
                ids: Vec::new(),
                problem: Some(p),
                hidden: hid,
            };
            proof {
                assert(d@.ids =~= Seq::<IdentView>::empty());
                assert(d@ =~= spec_make_dif(v, path@, data@));
            }
            d
        },
    }
}

/// Classifies one file's bytes, trusting a hint when one is given and
/// auto-detecting otherwise.
pub fn classify_data(path: &Vec<u8>, data: &Vec<u8>, hint: Option<Variant>) -> (r: Option<Dif>)
    ensures
        match r {
            Some(d) => spec_classify_data(path@, data@, hint) == Some(d@) && d@.wf(),
            None => spec_classify_data(path@, data@, hint) is None,
        },
{
    match hint {
        Some(v) => {
            if matches_variant(v, data) {
                Some(make_dif(v, path, data))
            } else {
                let d = Dif {
                    variant: v,
                    path: copy_bytes(path),
                    ids: Vec::new(),
                    problem: Some(Problem::TypeMismatch),
                    hidden: false,
                };
                proof {
                    assert(d@.ids =~= Seq::<IdentView>::empty());
                    assert(Some(d@) =~= spec_classify_data(path@, data@, hint));
                }
                Some(d)
            }
        },
        None => match detect(data) {
            Some(v) => Some(make_dif(v, path, data)),
            None => None,
        },
    }
}

/// The identifiers of a bundle: each object-file slice that parses
/// contributes its identifier, in slice order, first occurrence kept.
pub open spec fn spec_bundle_ids(slices: Seq<Seq<u8>>) -> Seq<IdentView>
    decreases slices.len(),
{
    if slices.len() == 0 {
        Seq::empty()
    } else {
        let rest = spec_bundle_ids(slices.drop_last());
        let last = slices.last();
        if macho::spec_is_macho(last) && macho::spec_macho_ident(last) is Ok {
            let id = IdentView::Uuid(macho::spec_macho_ident(last)->Ok_0);
            if rest.contains(id) {
                rest
            } else {
                rest.push(id)
            }
        } else {
            rest
        }
    }
}

/// True when any slice of the bundle carries the obscured-symbol
/// marker.
pub open spec fn spec_bundle_hidden(slices: Seq<Seq<u8>>) -> bool {
    exists|i: int|
        0 <= i < slices.len() && spec_contains_seq(slices[i], hidden_marker())
}

/// What classifying a bundle yields: the deduplicated identifiers of
/// its parsable slices; a bundle with none is unusable because it holds
/// no debug data.
pub open spec fn spec_classify_bundle(path: Seq<u8>, slices: Seq<Seq<u8>>) -> DifView {
    let ids = spec_bundle_ids(slices);
    DifView {
        variant: Variant::Dsym,
        path,
        ids,
        problem: if ids.len() == 0 {
            Some(Problem::NoDebugData)
        } else {
            None
        },
        hidden: spec_bundle_hidden(slices),
    }
}

/// True when the identifier's value already stands in the vector.
pub fn contains_ident(v: &Vec<Ident>, id: &Ident) -> (r: bool)
    ensures
        r == ident_views(v@).contains(id@),
{
    let n = v.len();
    let mut i: usize = 0;
    while i < n
        invariant
            n == v.len(),
            i <= n,
            forall|k: int| 0 <= k < i ==> ident_views(v@)[k] != id@,
        decreases n - i,
    {
        if crate::ident::eq_ident(&v[i], id) {
            assert(ident_views(v@)[i as int] == id@);
            return true;
        }
        i += 1;
    }
    false
}

/// Classifies a bundle from the bytes of its contained object files,
/// one vector per architecture slice.
pub fn classify_bundle(path: &Vec<u8>, slices: &Vec<Vec<u8>>) -> (d: Dif)
    ensures
        d@ == spec_classify_bundle(path@, slice_views(slices@)),
        d@.wf(),
{
    let ghost vs = slice_views(slices@);
    let mut ids: Vec<Ident> = Vec::new();
    let mut hid: bool = false;
    let mut m: Vec<u8> = Vec::new();
    m.push(95);
    m.push(95);
    m.push(104);
    m.push(105);
    m.push(100);
    m.push(100);
    m.push(101);
    m.push(110);
    m.push(35);
    proof {
        assert(m@ =~= hidden_marker());
    }
    let n = slices.len();
    let mut i: usize = 0;
    while i < n
        invariant
            n == slices.len(),
            i <= n,
            m@ == hidden_marker(),
            vs == slice_views(slices@),
            ident_views(ids@) == spec_bundle_ids(vs.take(i as int)),
            forall|k: int| 0 <= k < ids@.len() ==> ident_views(ids@)[k].wf(),
            forall|k: int, l: int|
                0 <= k < l < ids@.len() ==> ident_views(ids@)[k] != ident_views(ids@)[l],
            hid == spec_bundle_hidden(vs.take(i as int)),
        decreases n - i,
    {
        let sl = &slices[i];
        proof {
            assert(vs[i as int] == sl@);
            assert(vs.take(i + 1).drop_last() =~= vs.take(i as int));
            assert(vs.take(i + 1).last() == vs[i as int]);
        }
        if macho::is_macho(sl) {
            match macho::macho_ident(sl) {
                Ok(id) => {
                    if !contains_ident(&ids, &id) {
                        let ghost before = ident_views(ids@);
                        ids.push(id);
                        proof {
                            assert(ident_views(ids@) =~= before.push(id@));
                        }
                    }
                },
                Err(_) => {},
            }
        }
        let slice_hid = contains_seq(sl, &m);
        proof {
            if slice_hid {
                assert(spec_bundle_hidden(vs.take(i + 1))) by {
                    assert(vs.take(i + 1)[i as int] == vs[i as int]);
                }
            } else {
                if spec_bundle_hidden(vs.take(i + 1)) {
                    let w = choose|k: int|
                        0 <= k < vs.take(i + 1).len() && #[trigger] spec_contains_seq(
                            vs.take(i + 1)[k],
                            hidden_marker(),
                        );
                    if w < i {
                        assert(vs.take(i as int)[w] == vs.take(i + 1)[w]);
                        assert(spec_bundle_hidden(vs.take(i as int)));
                    }
                }
            }
        }
        hid = hid || slice_hid;
        i += 1;
    }
    proof {
        assert(vs.take(n as int) =~= vs);
    }
    let usable = ids.len() > 0;
    let d = Dif {
        variant: Variant::Dsym,
        path: copy_bytes(path),
        ids,
        problem: if usable {
            None
        } else {
            Some(Problem::NoDebugData)
        },
        hidden: hid,
    };
    proof {
        assert(d@ =~= spec_classify_bundle(path@, vs));
    }
    d
}

/// The lower-case form of an ASCII byte.
pub open spec fn spec_ascii_lower(c: u8) -> u8 {
    if 65 <= c && c <= 90 {
        (c + 32) as u8
    } else {
        c
    }
}

/// The bytes of `.dsym`, the bundle directory suffix, lower case.
pub open spec fn bundle_suffix() -> Seq<u8> {
    seq![46u8, 100u8, 115u8, 121u8, 109u8]
}

/// True when the name ends with the bundle suffix, compared without
/// regard to ASCII case.
pub open spec fn spec_is_bundle_name(name: Seq<u8>) -> bool {
    name.len() >= 5 && forall|k: int|
        0 <= k < 5 ==> spec_ascii_lower(name[name.len() - 5 + k]) == bundle_suffix()[k]
}

/// Decides whether a directory name marks a native debug bundle, which
/// a discovery walk treats as one candidate instead of descending
/// further.
pub fn is_bundle_dir(name: &Vec<u8>) -> (r: bool)
    ensures
        r == spec_is_bundle_name(name@),
{
    let n = name.len();
    if n < 5 {
        return false;
    }
    let mut suf: Vec<u8> = Vec::new();
    suf.push(46);
    suf.push(100);
    suf.push(115);
    suf.push(121);
    suf.push(109);
    proof {
        assert(suf@ =~= bundle_suffix());
    }
    let mut k: usize = 0;
    while k < 5
        invariant
            n == name.len() >= 5,
            k <= 5,
            suf@ == bundle_suffix(),
            forall|j: int| 0 <= j < k ==> spec_ascii_lower(name@[n - 5 + j]) == bundle_suffix()[j],
        decreases 5 - k,
    {
        let c = name[n - 5 + k];
        let lc = if 65 <= c && c <= 90 {
            c + 32
        } else {
            c
        };
        if lc != suf[k] {
            return false;
        }
        k += 1;
    }
    true
}

} // verus!
