//! The symbol-map resolver.
//!
//! A native debug bundle with obscured symbol names can be repaired by
//! an external tool, fed with a companion map file.  This module only
//! decides: whether resolution applies to an artifact at all, which of
//! the available map files pairs with it (by identifier match, first
//! match wins), and what arguments the tool is to be invoked with.
//! Running the tool, and treating its absence or failure as fatal, is
//! the caller's part.

use vstd::prelude::*;

use crate::bytes::copy_bytes;
use crate::dif::{contains_ident, Dif, DifView};
use crate::ident::{Ident, IdentView};
use crate::Variant;

verus! {

/// One available companion map file, with the identifier it names.
#[derive(Debug)]
pub struct SymbolMap {
    /// Where the map file stands on disk.
    pub path: Vec<u8>,
    /// The identifier the map file belongs to.
    pub id: Ident,
}

/// The mathematical value of a map file entry.
pub struct SymbolMapView {
    pub path: Seq<u8>,
    pub id: IdentView,
}

impl View for SymbolMap {
    type V = SymbolMapView;

    open spec fn view(&self) -> SymbolMapView {
        SymbolMapView { path: self.path@, id: self.id@ }
    }
}

/// The views of a sequence of map file entries.
pub open spec fn map_views(s: Seq<SymbolMap>) -> Seq<SymbolMapView> {
    s.map_values(|m: SymbolMap| m@)
}

/// The arguments of one external tool invocation: the bundle to
/// repair, the map file to feed it, and where the working copy goes.
#[derive(Debug)]
pub struct Invocation {
    pub bundle: Vec<u8>,
    pub map: Vec<u8>,
    pub output: Vec<u8>,
}

/// What the resolver decides for one artifact.
#[derive(Debug)]
pub enum ResolvePlan {
    /// The artifact is not a native bundle with obscured symbols; it
    /// passes through unchanged.
    NotApplicable,
    /// Resolution applies but none of the available map files carries
    /// one of the artifact's identifiers.
    MissingMap,
    /// Resolution applies; run the external tool with these arguments.
    Invoke(Invocation),
}

/// Resolution applies exactly to native bundles with obscured symbols.
pub open spec fn spec_applicable(d: DifView) -> bool {
    d.variant == Variant::Dsym && d.hidden
}

/// A map file pairs with an artifact when the artifact carries the
/// map's identifier.
pub open spec fn spec_map_matches(m: SymbolMapView, d: DifView) -> bool {
    d.ids.contains(m.id)
}

/// Plans the resolution of one artifact: not applicable outside native
/// bundles with obscured symbols; otherwise the first map file whose
/// identifier the artifact carries is paired with it, and the tool
/// invocation is assembled from the bundle path, that map's path and
/// the given output path.
pub fn plan_resolution(d: &Dif, maps: &Vec<SymbolMap>, output: &Vec<u8>) -> (r: ResolvePlan)
    ensures
        ({
            let ms = map_views(maps@);
            match r {
                ResolvePlan::NotApplicable => !spec_applicable(d@),
                ResolvePlan::MissingMap => spec_applicable(d@) && forall|i: int|
                    0 <= i < ms.len() ==> !spec_map_matches(ms[i], d@),
                ResolvePlan::Invoke(inv) => spec_applicable(d@) && inv.bundle@ == d@.path
                    && inv.output@ == output@ && exists|i: int|
                    0 <= i < ms.len() && #[trigger] spec_map_matches(ms[i], d@) && inv.map@
                        == ms[i].path && forall|k: int| 0 <= k < i ==> !spec_map_matches(
                        ms[k],
                        d@,
                    ),
            }
        }),
{
    let applicable = match d.variant {
        Variant::Dsym => d.hidden,
        _ => false,
    };
    if !applicable {
        return ResolvePlan::NotApplicable;
    }
    let n = maps.len();
    let mut i: usize = 0;
    while i < n
        invariant
            n == maps.len(),
            i <= n,
            spec_applicable(d@),
            forall|k: int| 0 <= k < i ==> !spec_map_matches(map_views(maps@)[k], d@),
        decreases n - i,
    {
        let m = &maps[i];
        if contains_ident(&d.ids, &m.id) {
            proof {
                assert(spec_map_matches(map_views(maps@)[i as int], d@));
            }
            return ResolvePlan::Invoke(
                Invocation {
                    bundle: copy_bytes(&d.path),
                    map: copy_bytes(&m.path),
                    output: copy_bytes(output),
                },
            );
        }
        i += 1;
    }
    ResolvePlan::MissingMap
}

} // verus!
