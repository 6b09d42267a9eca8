//! The filter and selection engine.
//!
//! Selection narrows a discovered set by an explicit list of requested
//! identifiers.  An artifact is selected when it is usable and either
//! the request list is empty (select every usable artifact) or it
//! shares at least one identifier with the list.  Requested identifiers
//! that no usable discovered artifact carries are returned as
//! unmatched; under the strict all-or-nothing mode a non-empty
//! unmatched list fails the whole pass, carrying exactly that list.

use vstd::prelude::*;

use crate::dif::{ident_views, Dif, DifView};
use crate::discover::{dif_views, Discovery};
use crate::ident::{eq_ident, Ident, IdentView};

verus! {

/// True when the artifact is usable and the request list is empty or
/// shares an identifier with it.
pub open spec fn spec_matches(d: DifView, req: Seq<IdentView>) -> bool {
    d.usable() && (req.len() == 0 || exists|i: int, j: int|
        0 <= i < d.ids.len() && 0 <= j < req.len() && d.ids[i] == req[j])
}

/// True when some usable discovered artifact carries the identifier.
pub open spec fn spec_covered(r: IdentView, ds: Seq<DifView>) -> bool {
    exists|i: int, j: int|
        0 <= i < ds.len() && ds[i].usable() && 0 <= j < ds[i].ids.len() && ds[i].ids[j] == r
}

/// The matching artifacts, in discovery order.
pub open spec fn spec_selected(ds: Seq<DifView>, req: Seq<IdentView>) -> Seq<DifView>
    decreases ds.len(),
{
    if ds.len() == 0 {
        Seq::empty()
    } else {
        let rest = spec_selected(ds.drop_last(), req);
        if spec_matches(ds.last(), req) {
            rest.push(ds.last())
        } else {
            rest
        }
    }
}

/// The requested identifiers that no usable artifact carries, in
/// request order.
pub open spec fn spec_unmatched(req: Seq<IdentView>, ds: Seq<DifView>) -> Seq<IdentView>
    decreases req.len(),
{
    if req.len() == 0 {
        Seq::empty()
    } else {
        let rest = spec_unmatched(req.drop_last(), ds);
        if !spec_covered(req.last(), ds) {
            rest.push(req.last())
        } else {
            rest
        }
    }
}

/// The outcome of a successful selection pass.
#[derive(Debug)]
pub struct Selection {
    /// The selected artifacts, in discovery order.
    pub selected: Vec<Dif>,
    /// The requested identifiers nothing was found for, in request
    /// order.  Only meaningful outside the strict mode, where they are
    /// silently dropped from the request.
    pub unmatched: Vec<Ident>,
}

/// The strict-mode failure of a selection pass.
#[derive(Debug)]
pub enum SelectError {
    /// The requested identifiers that no usable discovered artifact
    /// carries.
    MissingIdentifiers(Vec<Ident>),
}

/// True when some usable discovered artifact carries the identifier's
/// value.
fn covered(disc: &Discovery, id: &Ident) -> (r: bool)
    ensures
        r == spec_covered(id@, disc@),
{
    let n = disc.entries.len();
    let mut i: usize = 0;
    while i < n
        invariant
            n == disc.entries.len(),
            i <= n,
            forall|a: int, b: int|
                0 <= a < i && 0 <= b < disc@[a].ids.len() ==> !(disc@[a].usable()
                    && disc@[a].ids[b] == id@),
        decreases n - i,
    {
        let e = &disc.entries[i];
        if e.ids.len() > 0 {
            let m = e.ids.len();
            let mut j: usize = 0;
            while j < m
                invariant
                    m == e.ids.len(),
                    j <= m,
                    e == disc.entries@[i as int],
                    i < n == disc.entries.len(),
                    forall|b: int| 0 <= b < j ==> ident_views(e.ids@)[b] != id@,
                decreases m - j,
            {
                if eq_ident(&e.ids[j], id) {
                    proof {
                        assert(disc@[i as int] == e@);
                        assert(disc@[i as int].ids[j as int] == id@);
                        assert(disc@[i as int].usable());
                    }
                    return true;
                }
                j += 1;
            }
            proof {
                assert(disc@[i as int] == e@);
            }
        }
        i += 1;
    }
    false
}

/// True when the artifact is usable and the request list is empty or
/// shares an identifier with it.
fn matches_request(d: &Dif, requested: &Vec<Ident>) -> (r: bool)
    ensures
        r == spec_matches(d@, ident_views(requested@)),
{
    if d.ids.len() == 0 {
        return false;
    }
    if requested.len() == 0 {
        return true;
    }
    let n = d.ids.len();
    let mut i: usize = 0;
    while i < n
        invariant
            n == d.ids.len(),
            i <= n,
            forall|a: int, b: int|
                0 <= a < i && 0 <= b < requested@.len() ==> ident_views(d.ids@)[a]
                    != ident_views(requested@)[b],
        decreases n - i,
    {
        let m = requested.len();
        let mut j: usize = 0;
        while j < m
            invariant
                m == requested.len(),
                j <= m,
                i < n == d.ids.len(),
                forall|b: int| 0 <= b < j ==> ident_views(d.ids@)[i as int] != ident_views(
                    requested@,
                )[b],
            decreases m - j,
        {
            if eq_ident(&d.ids[i], &requested[j]) {
                proof {
                    assert(d@.ids[i as int] == ident_views(requested@)[j as int]);
                }
                return true;
            }
            j += 1;
        }
        i += 1;
    }
    proof {
        if spec_matches(d@, ident_views(requested@)) {
            let (a, b) = choose|a: int, b: int|
                0 <= a < d@.ids.len() && 0 <= b < ident_views(requested@).len()
                    && #[trigger] d@.ids[a] == #[trigger] ident_views(requested@)[b];
            assert(ident_views(d.ids@)[a] != ident_views(requested@)[b]);
        }
    }
    false
}

/// Selects the usable artifacts matching the request and reports the
/// requested identifiers nothing was found for.  Under the strict mode
/// a non-empty unmatched list fails the pass, carrying exactly that
/// list; otherwise unmatched requests are reported and silently
/// dropped.
pub fn select(disc: &Discovery, requested: &Vec<Ident>, require_all: bool) -> (r: Result<
    Selection,
    SelectError,
>)
    ensures
        ({
            let ds = disc@;
            let req = ident_views(requested@);
            let un = spec_unmatched(req, ds);
            match r {
                Ok(sel) => !(require_all && un.len() > 0) && dif_views(sel.selected@)
                    == spec_selected(ds, req) && ident_views(sel.unmatched@) == un,
                Err(e) => match e {
                    SelectError::MissingIdentifiers(m) => require_all && un.len() > 0
                        && ident_views(m@) == un,
                },
            }
        }),
{
    let ghost ds = disc@;
    let ghost req = ident_views(requested@);
    let mut unmatched: Vec<Ident> = Vec::new();
    let n = requested.len();
    let mut i: usize = 0;
    while i < n
        invariant
            n == requested.len(),
            i <= n,
            ds == disc@,
            req == ident_views(requested@),
            ident_views(unmatched@) == spec_unmatched(req.take(i as int), ds),
        decreases n - i,
    {
        proof {
            assert(req.take(i + 1).drop_last() =~= req.take(i as int));
            assert(req.take(i + 1).last() == req[i as int]);
        }
        if !covered(disc, &requested[i]) {
            let ghost before = ident_views(unmatched@);
            unmatched.push(requested[i].duplicate());
            proof {
                assert(ident_views(unmatched@) =~= before.push(req[i as int]));
            }
        }
        i += 1;
    }
    proof {
        assert(req.take(n as int) =~= req);
    }
    if require_all && unmatched.len() > 0 {
        proof {
            assert(spec_unmatched(req, ds).len() > 0);
        }
        return Err(SelectError::MissingIdentifiers(unmatched));
    }
    let mut selected: Vec<Dif> = Vec::new();
    let m = disc.entries.len();
    let mut k: usize = 0;
    while k < m
        invariant
            m == disc.entries.len(),
            k <= m,
            ds == disc@,
            req == ident_views(requested@),
            dif_views(selected@) == spec_selected(ds.take(k as int), req),
        decreases m - k,
    {
        proof {
            assert(ds.take(k + 1).drop_last() =~= ds.take(k as int));
            assert(ds.take(k + 1).last() == ds[k as int]);
            assert(ds[k as int] == disc.entries@[k as int]@);
        }
        let e = &disc.entries[k];
        if matches_request(e, requested) {
            let ghost before = dif_views(selected@);
            selected.push(e.duplicate());
            proof {
                assert(dif_views(selected@) =~= before.push(ds[k as int]));
            }
        }
        k += 1;
    }
    proof {
        assert(ds.take(m as int) =~= ds);
    }
    Ok(Selection { selected, unmatched })
}

/// An uncovered requested identifier always appears in the unmatched
/// list: a strict-mode failure names every missing request.
pub proof fn lemma_unmatched_complete(req: Seq<IdentView>, ds: Seq<DifView>, j: int)
    requires
        0 <= j < req.len(),
        !spec_covered(req[j], ds),
    ensures
        spec_unmatched(req, ds).contains(req[j]),
    decreases req.len(),
{
    if j == req.len() - 1 {
        let u = spec_unmatched(req, ds);
        assert(u.last() == req[j]);
        assert(u.contains(req[j]));
    } else {
        assert(req.drop_last()[j] == req[j]);
        lemma_unmatched_complete(req.drop_last(), ds, j);
        let rest = spec_unmatched(req.drop_last(), ds);
        let w = choose|w: int| 0 <= w < rest.len() && rest[w] == req[j];
        if !spec_covered(req.last(), ds) {
            assert(spec_unmatched(req, ds)[w] == req[j]);
        }
        assert(spec_unmatched(req, ds).contains(req[j]));
    }
}

/// Everything in the unmatched list is an uncovered requested
/// identifier: a strict-mode failure names nothing else.
pub proof fn lemma_unmatched_sound(req: Seq<IdentView>, ds: Seq<DifView>, k: int)
    requires
        0 <= k < spec_unmatched(req, ds).len(),
    ensures
        !spec_covered(spec_unmatched(req, ds)[k], ds),
        req.contains(spec_unmatched(req, ds)[k]),
    decreases req.len(),
{
    if req.len() > 0 {
        let rest = spec_unmatched(req.drop_last(), ds);
        if !spec_covered(req.last(), ds) && k == rest.len() {
            assert(spec_unmatched(req, ds)[k] == req.last());
            assert(req.contains(req.last()));
        } else {
            assert(spec_unmatched(req, ds)[k] == rest[k]);
            lemma_unmatched_sound(req.drop_last(), ds, k);
            let w = choose|w: int| 0 <= w < req.drop_last().len() && req.drop_last()[w] == rest[k];
            assert(req[w] == rest[k]);
            assert(req.contains(spec_unmatched(req, ds)[k]));
        }
    }
}

/// Every selected artifact matches the request and comes from the
/// discovered set.
pub proof fn lemma_selected_sound(ds: Seq<DifView>, req: Seq<IdentView>, k: int)
    requires
        0 <= k < spec_selected(ds, req).len(),
    ensures
        spec_matches(spec_selected(ds, req)[k], req),
        ds.contains(spec_selected(ds, req)[k]),
    decreases ds.len(),
{
    if ds.len() > 0 {
        let rest = spec_selected(ds.drop_last(), req);
        if spec_matches(ds.last(), req) && k == rest.len() {
            assert(spec_selected(ds, req)[k] == ds.last());
            assert(ds.contains(ds.last()));
        } else {
            assert(spec_selected(ds, req)[k] == rest[k]);
            lemma_selected_sound(ds.drop_last(), req, k);
            let w = choose|w: int| 0 <= w < ds.drop_last().len() && ds.drop_last()[w] == rest[k];
            assert(ds[w] == rest[k]);
            assert(ds.contains(spec_selected(ds, req)[k]));
        }
    }
}

/// Every discovered artifact that matches the request is selected:
/// selection loses nothing that was asked for.
pub proof fn lemma_selected_complete(ds: Seq<DifView>, req: Seq<IdentView>, i: int)
    requires
        0 <= i < ds.len(),
        spec_matches(ds[i], req),
    ensures
        spec_selected(ds, req).contains(ds[i]),
    decreases ds.len(),
{
    if i == ds.len() - 1 {
        let s = spec_selected(ds, req);
        assert(s.last() == ds[i]);
        assert(s.contains(ds[i]));
    } else {
        assert(ds.drop_last()[i] == ds[i]);
        lemma_selected_complete(ds.drop_last(), req, i);
        let rest = spec_selected(ds.drop_last(), req);
        let w = choose|w: int| 0 <= w < rest.len() && rest[w] == ds[i];
        if spec_matches(ds.last(), req) {
            assert(spec_selected(ds, req)[w] == ds[i]);
        }
        assert(spec_selected(ds, req).contains(ds[i]));
    }
}

} // verus!
