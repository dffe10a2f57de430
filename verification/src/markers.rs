//! The rectangles that mark the reported origins on a picture of the
//! source.

use vstd::prelude::*;
use crate::matcher::MatchResult;

verus! {

/// The width and the height of the rectangle that marks an origin.
pub const MARKER_SIZE: u32 = 20;

/// A rectangle to draw: its top-left corner and its size.
#[derive(Clone, Copy, Debug, PartialEq, Eq, Structural)]
pub struct Marker {
    pub left: u32,
    pub top: u32,
    pub width: u32,
    pub height: u32,
}

/// The rectangle that marks an origin.
pub open spec fn marker_at(origin: (u32, u32)) -> Marker {
    Marker { left: origin.0, top: origin.1, width: MARKER_SIZE, height: MARKER_SIZE }
}

/// The rectangles that mark the given origins, in their order.
pub open spec fn markers_of(origins: Seq<(u32, u32)>) -> Seq<Marker> {
    Seq::new(origins.len(), |i: int| marker_at(origins[i]))
}

/// The rectangles that mark every origin of the results, template by
/// template.
pub open spec fn all_markers(results: Seq<MatchResult>) -> Seq<Marker>
    decreases results.len(),
{
    if results.len() == 0 {
        Seq::empty()
    } else {
        all_markers(results.drop_last()) + markers_of(results.last().origins@)
    }
}

/// The results hold at least as many markers as any one of them has
/// origins.
pub proof fn lemma_all_markers_cover(results: Seq<MatchResult>, i: int)
    requires
        0 <= i < results.len(),
    ensures
        all_markers(results).len() >= results[i].origins@.len(),
    decreases results.len(),
{
    if i < results.len() - 1 {
        lemma_all_markers_cover(results.drop_last(), i);
    }
}

/// Decides whether a run has found anything: whether any template was
/// reported at any origin.
pub fn has_matches(results: &Vec<MatchResult>) -> (found: bool)
    ensures
        found == (all_markers(results@).len() > 0),
{
    let mut i: usize = 0;
    while i < results.len()
        invariant
            i <= results.len(),
            all_markers(results@.take(i as int)).len() == 0,
        decreases results.len() - i,
    {
        if results[i].origins.len() > 0 {
            proof {
                lemma_all_markers_cover(results@, i as int);
            }
            return true;
        }
        proof {
            assert(results@.take(i + 1).drop_last() =~= results@.take(i as int));
        }
        i = i + 1;
    }
    proof {
        assert(results@.take(i as int) =~= results@);
    }
    false
}

/// Lists the rectangles to draw for the results of a run: one of the
/// fixed size at each reported origin, template by template.
pub fn match_markers(results: &Vec<MatchResult>) -> (markers: Vec<Marker>)
    ensures
        markers@ == all_markers(results@),
{
    let mut markers: Vec<Marker> = Vec::new();
    let mut i: usize = 0;
    while i < results.len()
        invariant
            i <= results.len(),
            markers@ == all_markers(results@.take(i as int)),
        decreases results.len() - i,
    {
        let origins = &results[i].origins;
        let ghost before = markers@;
        let mut j: usize = 0;
        while j < origins.len()
            invariant
                j <= origins.len(),
                markers@ == before + markers_of(origins@.take(j as int)),
            decreases origins.len() - j,
        {
            let (left, top) = origins[j];
            markers.push(Marker { left, top, width: MARKER_SIZE, height: MARKER_SIZE });
            assert(markers@ == before + markers_of(origins@.take(j + 1)));
            j = j + 1;
        }
        proof {
            assert(origins@.take(j as int) =~= origins@);
            assert(results@.take(i + 1).drop_last() =~= results@.take(i as int));
        }
        i = i + 1;
    }
    proof {
        assert(results@.take(i as int) =~= results@);
    }
    markers
}

} // verus!
