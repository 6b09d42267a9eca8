//! The discovery engine.
//!
//! A filesystem walk (done by the caller) turns each interesting entry
//! into a candidate: a plain file with its bytes, or a bundle directory
//! with the bytes of its object-file slices.  Discovery classifies the
//! candidates in walk order and accumulates the recognized ones into an
//! ordered result set, deduplicated by variant and path: a path seen
//! twice — a symlinked duplicate, say — contributes one entry.
//! Unrecognizable candidates are passed over silently; recognized but
//! unusable ones are retained with their diagnosis.

use vstd::prelude::*;

use crate::bytes::eq_bytes;
use crate::dif::{
    classify_bundle, classify_data, slice_views, spec_classify_bundle, spec_classify_data, Dif,
    DifView,
};
use crate::Variant;

verus! {

/// One candidate handed in by the walk.
#[derive(Debug)]
pub enum Candidate {
    /// A plain file and its content.
    File { path: Vec<u8>, data: Vec<u8> },
    /// A bundle directory and the content of its object files.
    Bundle { path: Vec<u8>, slices: Vec<Vec<u8>> },
}

/// The mathematical value of a candidate.
pub enum CandView {
    File { path: Seq<u8>, data: Seq<u8> },
    Bundle { path: Seq<u8>, slices: Seq<Seq<u8>> },
}

impl View for Candidate {
    type V = CandView;

    open spec fn view(&self) -> CandView {
        match self {
            Candidate::File { path, data } => CandView::File { path: path@, data: data@ },
            Candidate::Bundle { path, slices } => CandView::Bundle {
                path: path@,
                slices: slice_views(slices@),
            },
        }
    }
}

/// The views of a sequence of candidates.
pub open spec fn cand_views(s: Seq<Candidate>) -> Seq<CandView> {
    s.map_values(|c: Candidate| c@)
}

/// The views of a sequence of classified artifacts.
pub open spec fn dif_views(s: Seq<Dif>) -> Seq<DifView> {
    s.map_values(|d: Dif| d@)
}

/// What classifying one candidate yields.  A file may detect as
/// nothing; a bundle always yields an instance, usable or not.
pub open spec fn spec_classify_cand(c: CandView) -> Option<DifView> {
    match c {
        CandView::File { path, data } => spec_classify_data(path, data, None),
        CandView::Bundle { path, slices } => Some(spec_classify_bundle(path, slices)),
    }
}

/// True when some entry carries the key `(v, p)`.
pub open spec fn spec_has_key(s: Seq<DifView>, v: Variant, p: Seq<u8>) -> bool {
    exists|i: int| 0 <= i < s.len() && s[i].variant == v && s[i].path == p
}

/// Appends an entry unless its key is already present.
pub open spec fn spec_add(s: Seq<DifView>, d: DifView) -> Seq<DifView> {
    if spec_has_key(s, d.variant, d.path) {
        s
    } else {
        s.push(d)
    }
}

/// The result of one discovery pass, in candidate order.
pub open spec fn spec_discover(cs: Seq<CandView>) -> Seq<DifView>
    decreases cs.len(),
{
    if cs.len() == 0 {
        Seq::empty()
    } else {
        let rest = spec_discover(cs.drop_last());
        match spec_classify_cand(cs.last()) {
            Some(d) => spec_add(rest, d),
            None => rest,
        }
    }
}

/// True when no two entries share a key.
pub open spec fn spec_distinct_keys(s: Seq<DifView>) -> bool {
    forall|i: int, j: int|
        0 <= i < j < s.len() ==> !(s[i].variant == s[j].variant && s[i].path == s[j].path)
}

/// An ordered, key-deduplicated set of classified artifacts.
#[derive(Debug)]
pub struct Discovery {
    /// The entries, in first-seen order.
    pub entries: Vec<Dif>,
}

impl View for Discovery {
    type V = Seq<DifView>;

    open spec fn view(&self) -> Seq<DifView> {
        dif_views(self.entries@)
    }
}

impl Discovery {
    /// Validity: entries are valid and pairwise distinct by key.
    pub open spec fn wf(self) -> bool {
        spec_distinct_keys(self@) && forall|i: int| 0 <= i < self@.len() ==> self@[i].wf()
    }

    /// An empty result set.
    pub fn new() -> (r: Discovery)
        ensures
            r@ == Seq::<DifView>::empty(),
            r.wf(),
    {
        let r = Discovery { entries: Vec::new() };
        proof {
            assert(r@ =~= Seq::<DifView>::empty());
        }
        r
    }

    /// True when an entry with the given key is already present.
    pub fn has_key(&self, v: Variant, p: &Vec<u8>) -> (r: bool)
        ensures
            r == spec_has_key(self@, v, p@),
    {
        let n = self.entries.len();
        let mut i: usize = 0;
        while i < n
            invariant
                n == self.entries.len(),
                i <= n,
                forall|k: int|
                    0 <= k < i ==> !(self@[k].variant == v && self@[k].path == p@),
            decreases n - i,
        {
            let e = &self.entries[i];
            if e.variant == v && eq_bytes(&e.path, p) {
                assert(self@[i as int].variant == v && self@[i as int].path == p@);
                return true;
            }
            i += 1;
        }
        false
    }

    /// Adds an entry unless its key is already present, keeping the
    /// first-seen entry in that case.
    pub fn add(&mut self, d: Dif)
        requires
            old(self).wf(),
            d@.wf(),
        ensures
            final(self)@ == spec_add(old(self)@, d@),
            final(self).wf(),
    {
        let present = self.has_key(d.variant, &d.path);
        if !present {
            let ghost before = self@;
            self.entries.push(d);
            proof {
                assert(self@ =~= before.push(d@));
            }
        }
    }
}

/// Discovers debug information files among the walked candidates: each
/// is classified in order, recognized ones are retained, and keys seen
/// twice keep their first entry.
pub fn discover(cands: &Vec<Candidate>) -> (r: Discovery)
    ensures
        r@ == spec_discover(cand_views(cands@)),
        r.wf(),
{
    let ghost cvs = cand_views(cands@);
    let mut r = Discovery::new();
    let n = cands.len();
    let mut i: usize = 0;
    while i < n
        invariant
            n == cands.len(),
            i <= n,
            cvs == cand_views(cands@),
            r@ == spec_discover(cvs.take(i as int)),
            r.wf(),
        decreases n - i,
    {
        proof {
            assert(cvs[i as int] == cands@[i as int]@);
            assert(cvs.take(i + 1).drop_last() =~= cvs.take(i as int));
            assert(cvs.take(i + 1).last() == cvs[i as int]);
        }
        match &cands[i] {
            Candidate::File { path, data } => {
                match classify_data(path, data, None) {
                    Some(d) => {
                        r.add(d);
                    },
                    None => {},
                }
            },
            Candidate::Bundle { path, slices } => {
                let d = classify_bundle(path, slices);
                r.add(d);
            },
        }
        i += 1;
    }
    proof {
        assert(cvs.take(n as int) =~= cvs);
    }
    r
}

/// Adding an entry never drops a key that was present.
proof fn lemma_add_preserves_key(s: Seq<DifView>, d: DifView, v: Variant, p: Seq<u8>)
    requires
        spec_has_key(s, v, p),
    ensures
        spec_has_key(spec_add(s, d), v, p),
{
    let i = choose|i: int| 0 <= i < s.len() && s[i].variant == v && s[i].path == p;
    assert(spec_add(s, d)[i].variant == v && spec_add(s, d)[i].path == p);
}

/// Discovery keeps no two entries with the same variant and path: a
/// duplicate path in the walk — a symlinked copy, say — contributes
/// exactly one entry.
pub proof fn lemma_discover_distinct_keys(cs: Seq<CandView>)
    ensures
        spec_distinct_keys(spec_discover(cs)),
    decreases cs.len(),
{
    if cs.len() > 0 {
        lemma_discover_distinct_keys(cs.drop_last());
        let rest = spec_discover(cs.drop_last());
        match spec_classify_cand(cs.last()) {
            Some(d) => {
                if !spec_has_key(rest, d.variant, d.path) {
                    assert forall|i: int, j: int|
                        0 <= i < j < rest.push(d).len() implies !(rest.push(d)[i].variant
                        == rest.push(d)[j].variant && rest.push(d)[i].path == rest.push(
                        d,
                    )[j].path) by {
                        if j < rest.len() {
                            assert(rest.push(d)[i] == rest[i] && rest.push(d)[j] == rest[j]);
                        } else {
                            assert(rest.push(d)[j] == d);
                            assert(rest.push(d)[i] == rest[i]);
                            if rest[i].variant == d.variant && rest[i].path == d.path {
                                assert(spec_has_key(rest, d.variant, d.path));
                            }
                        }
                    }
                }
            },
            None => {},
        }
    }
}

/// Every recognized candidate leaves its key in the result: nothing
/// that classifies as a debug information file is lost.
pub proof fn lemma_discover_covers(cs: Seq<CandView>, i: int)
    requires
        0 <= i < cs.len(),
        spec_classify_cand(cs[i]) is Some,
    ensures
        spec_has_key(
            spec_discover(cs),
            spec_classify_cand(cs[i])->0.variant,
            spec_classify_cand(cs[i])->0.path,
        ),
    decreases cs.len(),
{
    let d0 = spec_classify_cand(cs[i])->0;
    let rest = spec_discover(cs.drop_last());
    if i == cs.len() - 1 {
        match spec_classify_cand(cs.last()) {
            Some(d) => {
                if spec_has_key(rest, d.variant, d.path) {
                } else {
                    assert(spec_add(rest, d)[rest.len() as int] == d);
                }
            },
            None => {},
        }
    } else {
        assert(cs.drop_last()[i] == cs[i]);
        lemma_discover_covers(cs.drop_last(), i);
        match spec_classify_cand(cs.last()) {
            Some(d) => {
                lemma_add_preserves_key(rest, d, d0.variant, d0.path);
            },
            None => {},
        }
    }
}

/// Every entry of the result is the classification of some candidate:
/// discovery invents nothing, and no entry corresponds to a file that
/// did not classify as a debug information file.
pub proof fn lemma_discovered_from_inputs(cs: Seq<CandView>, j: int)
    requires
        0 <= j < spec_discover(cs).len(),
    ensures
        exists|i: int|
            0 <= i < cs.len() && spec_classify_cand(cs[i]) == Some(spec_discover(cs)[j]),
    decreases cs.len(),
{
    let rest = spec_discover(cs.drop_last());
    match spec_classify_cand(cs.last()) {
        Some(d) => {
            if !spec_has_key(rest, d.variant, d.path) && j == rest.len() {
                assert(spec_discover(cs)[j] == d);
                assert(cs[cs.len() - 1] == cs.last());
                assert(spec_classify_cand(cs[cs.len() - 1]) == Some(spec_discover(cs)[j]));
            } else {
                assert(spec_discover(cs)[j] == rest[j]);
                lemma_discovered_from_inputs(cs.drop_last(), j);
                let i0 = choose|i: int|
                    0 <= i < cs.drop_last().len() && spec_classify_cand(cs.drop_last()[i])
                        == Some(rest[j]);
                assert(cs.drop_last()[i0] == cs[i0]);
                assert(spec_classify_cand(cs[i0]) == Some(spec_discover(cs)[j]));
            }
        },
        None => {
            assert(spec_discover(cs)[j] == rest[j]);
            lemma_discovered_from_inputs(cs.drop_last(), j);
            let i0 = choose|i: int|
                0 <= i < cs.drop_last().len() && spec_classify_cand(cs.drop_last()[i]) == Some(
                    rest[j],
                );
            assert(cs.drop_last()[i0] == cs[i0]);
            assert(spec_classify_cand(cs[i0]) == Some(spec_discover(cs)[j]));
        },
    }
}

/// A key in the result comes from some recognized candidate.
proof fn lemma_key_from_inputs(cs: Seq<CandView>, v: Variant, p: Seq<u8>)
    requires
        spec_has_key(spec_discover(cs), v, p),
    ensures
        exists|i: int|
            0 <= i < cs.len() && spec_classify_cand(cs[i]) is Some && spec_classify_cand(
                cs[i],
            )->0.variant == v && spec_classify_cand(cs[i])->0.path == p,
    decreases cs.len(),
{
    let j = choose|j: int|
        0 <= j < spec_discover(cs).len() && spec_discover(cs)[j].variant == v && spec_discover(
            cs,
        )[j].path == p;
    lemma_discovered_from_inputs(cs, j);
    let i0 = choose|i: int|
        0 <= i < cs.len() && spec_classify_cand(cs[i]) == Some(spec_discover(cs)[j]);
    assert(spec_classify_cand(cs[i0]) is Some && spec_classify_cand(cs[i0])->0.variant == v
        && spec_classify_cand(cs[i0])->0.path == p);
}

/// How many candidates classify as debug information files.
pub open spec fn spec_count_recognized(cs: Seq<CandView>) -> int
    decreases cs.len(),
{
    if cs.len() == 0 {
        0
    } else {
        spec_count_recognized(cs.drop_last()) + if spec_classify_cand(cs.last()) is Some {
            1int
        } else {
            0int
        }
    }
}

/// Over a walk of N recognizable artifacts with pairwise distinct keys
/// and any number of unrelated files, discovery yields exactly N
/// entries.
pub proof fn lemma_discover_count(cs: Seq<CandView>)
    requires
        forall|i: int, j: int|
            0 <= i < j < cs.len() && #[trigger] spec_classify_cand(cs[i]) is Some
                && #[trigger] spec_classify_cand(cs[j]) is Some ==> !(spec_classify_cand(
                cs[i],
            )->0.variant == spec_classify_cand(cs[j])->0.variant && spec_classify_cand(
                cs[i],
            )->0.path == spec_classify_cand(cs[j])->0.path),
    ensures
        spec_discover(cs).len() == spec_count_recognized(cs),
    decreases cs.len(),
{
    if cs.len() > 0 {
        assert forall|i: int, j: int|
            0 <= i < j < cs.drop_last().len() && #[trigger] spec_classify_cand(
                cs.drop_last()[i],
            ) is Some && #[trigger] spec_classify_cand(cs.drop_last()[j]) is Some implies !(
        spec_classify_cand(cs.drop_last()[i])->0.variant == spec_classify_cand(
            cs.drop_last()[j],
        )->0.variant && spec_classify_cand(cs.drop_last()[i])->0.path == spec_classify_cand(
            cs.drop_last()[j],
        )->0.path) by {
            assert(cs.drop_last()[i] == cs[i] && cs.drop_last()[j] == cs[j]);
            assert(spec_classify_cand(cs[i]) is Some && spec_classify_cand(cs[j]) is Some);
        }
        lemma_discover_count(cs.drop_last());
        let rest = spec_discover(cs.drop_last());
        match spec_classify_cand(cs.last()) {
            Some(d) => {
                if spec_has_key(rest, d.variant, d.path) {
                    lemma_key_from_inputs(cs.drop_last(), d.variant, d.path);
                    let i0 = choose|i: int|
                        0 <= i < cs.drop_last().len() && spec_classify_cand(
                            cs.drop_last()[i],
                        ) is Some && spec_classify_cand(cs.drop_last()[i])->0.variant == d.variant
                            && spec_classify_cand(cs.drop_last()[i])->0.path == d.path;
                    assert(cs.drop_last()[i0] == cs[i0]);
                    assert(cs[cs.len() - 1] == cs.last());
                    assert(spec_classify_cand(cs[i0]) is Some && spec_classify_cand(
                        cs[cs.len() - 1],
                    ) is Some);
                    assert(false);
                }
            },
            None => {},
        }
    }
}

} // verus!
