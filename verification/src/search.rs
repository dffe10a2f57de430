//! The exhaustive search for one template within a search zone.

use vstd::prelude::*;
use rayon::iter::{IntoParallelIterator, ParallelIterator};
use crate::pixel::{lemma_pixels_match_exact, pixels_match};
use crate::raster::{Image, Raster};
use crate::window::{
    evaluate, lemma_window_mismatches_bounded, lemma_window_without_mismatch, mismatch_budget,
    mismatch_budget_of, window_fits, window_passes,
};
use crate::zone::{
    candidate_origins, candidate_origins_of, in_scan_order, is_candidate,
    covering_zone, lemma_candidate_origins_contains, lemma_candidate_origins_in_scan_order,
    scan_before, zone_error, ConfigError, SearchZone,
};

verus! {

/// The test that a search applies to each origin: does the window at it
/// pass?
pub open spec fn passes_at(source: Raster, template: Raster, tolerance: u8, budget: nat) -> spec_fn(
    (u32, u32),
) -> bool {
    |origin: (u32, u32)|
        window_passes(source, template, origin.0 as int, origin.1 as int, tolerance, budget)
}

/// The origins that a search reports: the candidate origins whose window
/// passes, rows from the top, each row from the left.
pub open spec fn matching_origins(
    source: Raster,
    template: Raster,
    tolerance: u8,
    percentage: nat,
    zone: SearchZone,
) -> Seq<(u32, u32)> {
    candidate_origins(source, template, zone).filter(
        passes_at(
            source,
            template,
            tolerance,
            mismatch_budget(template.pixel_count(), percentage),
        ),
    )
}

/// Hands back the origin where the window at it passes.
fn passing_origin(
    source: &Image,
    template: &Image,
    x: u32,
    y: u32,
    tolerance: u8,
    mismatch_budget: u128,
) -> (kept: Option<(u32, u32)>)
    requires
        window_fits(source@, template@, x as int, y as int),
    ensures
        kept == if passes_at(source@, template@, tolerance, mismatch_budget as nat)((x, y)) {
            Some((x, y))
        } else {
            None
        },
{
    if evaluate(source, template, x, y, tolerance, mismatch_budget) {
        Some((x, y))
    } else {
        None
    }
}

/// Evaluates the given origins in parallel and keeps those whose window
/// passes.
///
/// Trusted, not proved: the body is one chain of rayon calls,
/// `IntoParallelIterator::into_par_iter` on the vector, then
/// `ParallelIterator::filter_map` with a closure that calls
/// `passing_origin`, then `ParallelIterator::collect` into a vector. The
/// contract claims of rayon that it calls the closure on every origin and
/// collects the origins that the closure hands back in the order in which
/// the vector held them.
#[verifier::external_body]
fn filter_passing(
    source: &Image,
    template: &Image,
    tolerance: u8,
    mismatch_budget: u128,
    origins: Vec<(u32, u32)>,
) -> (kept: Vec<(u32, u32)>)
    requires
        forall|i: int|
            0 <= i < origins@.len() ==> window_fits(
                source@,
                template@,
                (#[trigger] origins@[i]).0 as int,
                origins@[i].1 as int,
            ),
    ensures
        kept@ == origins@.filter(passes_at(source@, template@, tolerance, mismatch_budget as nat)),
{
    origins
        .into_par_iter()
        .filter_map(|(x, y)| passing_origin(source, template, x, y, tolerance, mismatch_budget))
        .collect()
}

/// Searches a zone that is known to be no larger than the source.
pub(crate) fn search_zone_for(
    source: &Image,
    template: &Image,
    tolerance: u8,
    percentage: usize,
    zone: SearchZone,
) -> (found: Vec<(u32, u32)>)
    ensures
        found@ == matching_origins(source@, template@, tolerance, percentage as nat, zone),
{
    let budget = mismatch_budget_of(template.pixel_count(), percentage);
    let origins = candidate_origins_of(source, template, zone);
    proof {
        source.lemma_view_wf();
        assert forall|i: int| 0 <= i < origins@.len() implies window_fits(
            source@,
            template@,
            (#[trigger] origins@[i]).0 as int,
            origins@[i].1 as int,
        ) by {
            assert(origins@.contains(origins@[i]));
            lemma_candidate_origins_contains(
                source@,
                template@,
                zone,
                origins@[i].0,
                origins@[i].1,
            );
        }
    }
    filter_passing(source, template, tolerance, budget, origins)
}

/// Finds every place of the larger image, within the search zone, at which
/// the subimage matches.
///
/// A zone that is larger than the image is rejected before any window is
/// looked at. Otherwise every origin that the zone admits is evaluated,
/// and those whose window differs from the subimage in no more than the
/// given percentage of its pixels are reported, rows from the top, each
/// row from the left.
pub fn template_match(
    larger_image: &Image,
    subimage: &Image,
    tolerance: u8,
    percentage: usize,
    search_zone: SearchZone,
) -> (found: Result<Vec<(u32, u32)>, ConfigError>)
    ensures
        match found {
            Ok(origins) => zone_error(larger_image@, search_zone) is None && origins@
                == matching_origins(
                larger_image@,
                subimage@,
                tolerance,
                percentage as nat,
                search_zone,
            ),
            Err(error) => zone_error(larger_image@, search_zone) == Some(error),
        },
{
    match search_zone.validate(larger_image) {
        Err(error) => Err(error),
        Ok(_) => Ok(search_zone_for(larger_image, subimage, tolerance, percentage, search_zone)),
    }
}

/// A search reports exactly the origins that the zone admits and whose
/// window passes.
pub proof fn lemma_matching_origins_contains(
    source: Raster,
    template: Raster,
    tolerance: u8,
    percentage: nat,
    zone: SearchZone,
    x: u32,
    y: u32,
)
    requires
        source.wf(),
    ensures
        matching_origins(source, template, tolerance, percentage, zone).contains((x, y)) <==> (
        is_candidate(source, template, zone, x as int, y as int) && window_passes(
            source,
            template,
            x as int,
            y as int,
            tolerance,
            mismatch_budget(template.pixel_count(), percentage),
        )),
{
    let candidates = candidate_origins(source, template, zone);
    let test = passes_at(
        source,
        template,
        tolerance,
        mismatch_budget(template.pixel_count(), percentage),
    );
    let matching = candidates.filter(test);
    lemma_candidate_origins_contains(source, template, zone, x, y);
    if matching.contains((x, y)) {
        candidates.lemma_filter_contains_rev(test, (x, y));
        let i = choose|i: int| 0 <= i < matching.len() && matching[i] == (x, y);
        candidates.lemma_filter_pred(test, i);
    }
    if candidates.contains((x, y)) && test((x, y)) {
        let i = choose|i: int| 0 <= i < candidates.len() && candidates[i] == (x, y);
        candidates.lemma_filter_contains(test, i);
    }
}

/// Taking origins out of a list in scan order leaves a list in scan
/// order.
pub proof fn lemma_filter_keeps_scan_order(
    origins: Seq<(u32, u32)>,
    test: spec_fn((u32, u32)) -> bool,
)
    requires
        in_scan_order(origins),
    ensures
        in_scan_order(origins.filter(test)),
    decreases origins.len(),
{
    reveal(Seq::filter);
    if origins.len() > 0 {
        let rest = origins.drop_last();
        let kept = rest.filter(test);
        assert forall|i: int, j: int| 0 <= i < j < rest.len() implies scan_before(
            #[trigger] rest[i],
            #[trigger] rest[j],
        ) by {
            assert(rest[i] == origins[i] && rest[j] == origins[j]);
        }
        lemma_filter_keeps_scan_order(rest, test);
        if test(origins.last()) {
            let all = kept.push(origins.last());
            assert forall|i: int, j: int| 0 <= i < j < all.len() implies scan_before(
                #[trigger] all[i],
                #[trigger] all[j],
            ) by {
                if j < kept.len() {
                    assert(all[i] == kept[i] && all[j] == kept[j]);
                } else {
                    assert(kept.contains(kept[i]));
                    rest.lemma_filter_contains_rev(test, kept[i]);
                    let k = choose|k: int| 0 <= k < rest.len() && rest[k] == kept[i];
                    assert(origins[k] == kept[i]);
                    assert(all[j] == origins[origins.len() - 1]);
                }
            }
        }
    }
}

/// A search reports its origins in scan order, rows from the top and each
/// row from the left, and so none of them twice.
pub proof fn lemma_matching_origins_in_scan_order(
    source: Raster,
    template: Raster,
    tolerance: u8,
    percentage: nat,
    zone: SearchZone,
)
    requires
        source.wf(),
    ensures
        in_scan_order(matching_origins(source, template, tolerance, percentage, zone)),
        matching_origins(source, template, tolerance, percentage, zone).no_duplicates(),
{
    lemma_candidate_origins_in_scan_order(source, template, zone);
    lemma_filter_keeps_scan_order(
        candidate_origins(source, template, zone),
        passes_at(
            source,
            template,
            tolerance,
            mismatch_budget(template.pixel_count(), percentage),
        ),
    );
    let matching = matching_origins(source, template, tolerance, percentage, zone);
    assert forall|i: int, j: int|
        0 <= i < matching.len() && 0 <= j < matching.len() && i != j implies matching[i]
        != matching[j] by {
        if i < j {
            assert(scan_before(matching[i], matching[j]));
        } else {
            assert(scan_before(matching[j], matching[i]));
        }
    }
}

/// A template that equals the region of the source at an origin which the
/// zone admits is reported at that origin, whatever the tolerance and the
/// percentage.
pub proof fn lemma_identical_region_is_reported(
    source: Raster,
    template: Raster,
    tolerance: u8,
    percentage: nat,
    zone: SearchZone,
    x0: u32,
    y0: u32,
)
    requires
        source.wf(),
        is_candidate(source, template, zone, x0 as int, y0 as int),
        forall|tx: int, ty: int|
            template.has(tx, ty) ==> template.at(tx, ty) == source.at(x0 + tx, y0 + ty),
    ensures
        matching_origins(source, template, tolerance, percentage, zone).contains((x0, y0)),
{
    lemma_window_without_mismatch(source, template, x0 as int, y0 as int, tolerance);
    lemma_matching_origins_contains(source, template, tolerance, percentage, zone, x0, y0);
}

/// A template that equals the region of the source at `(x0, y0)` is
/// reported there by a search of the whole source.
pub proof fn lemma_identical_region_is_found_in_whole_source(
    source: Raster,
    template: Raster,
    tolerance: u8,
    percentage: nat,
    x0: u32,
    y0: u32,
)
    requires
        source.wf(),
        window_fits(source, template, x0 as int, y0 as int),
        forall|tx: int, ty: int|
            template.has(tx, ty) ==> template.at(tx, ty) == source.at(x0 + tx, y0 + ty),
    ensures
        zone_error(source, covering_zone(source)) is None,
        matching_origins(source, template, tolerance, percentage, covering_zone(source)).contains(
            (x0, y0),
        ),
{
    lemma_identical_region_is_reported(
        source,
        template,
        tolerance,
        percentage,
        covering_zone(source),
        x0,
        y0,
    );
}

/// At a percentage of 100 or more every origin that the zone admits is
/// reported.
pub proof fn lemma_full_percentage_reports_every_candidate(
    source: Raster,
    template: Raster,
    tolerance: u8,
    percentage: nat,
    zone: SearchZone,
    x: u32,
    y: u32,
)
    requires
        source.wf(),
        percentage >= 100,
    ensures
        matching_origins(source, template, tolerance, percentage, zone).contains((x, y))
            <==> is_candidate(source, template, zone, x as int, y as int),
{
    let count = template.pixel_count();
    assert(count * percentage / 100 >= count) by (nonlinear_arith)
        requires
            percentage >= 100,
            count >= 0,
    ;
    lemma_window_mismatches_bounded(source, template, x as int, y as int, tolerance);
    lemma_matching_origins_contains(source, template, tolerance, percentage, zone, x, y);
}

/// At percentage 0 and tolerance 0 an origin is reported exactly when the
/// zone admits it and every pixel of the template equals the source pixel
/// below it.
pub proof fn lemma_exact_search(
    source: Raster,
    template: Raster,
    zone: SearchZone,
    x: u32,
    y: u32,
)
    requires
        source.wf(),
    ensures
        matching_origins(source, template, 0, 0, zone).contains((x, y)) <==> (is_candidate(
            source,
            template,
            zone,
            x as int,
            y as int,
        ) && forall|tx: int, ty: int|
            template.has(tx, ty) ==> template.at(tx, ty) == source.at(x + tx, y + ty)),
{
    lemma_matching_origins_contains(source, template, 0, 0, zone, x, y);
    lemma_window_without_mismatch(source, template, x as int, y as int, 0);
    assert(mismatch_budget(template.pixel_count(), 0) == 0) by (nonlinear_arith);
    assert forall|tx: int, ty: int|
        pixels_match(source.at(x + tx, y + ty), template.at(tx, ty), 0) <==> template.at(tx, ty)
            == source.at(x + tx, y + ty) by {
        lemma_pixels_match_exact(source.at(x + tx, y + ty), template.at(tx, ty));
    }
}

/// A zone that admits no origin gives an empty result.
pub proof fn lemma_no_candidate_no_match(
    source: Raster,
    template: Raster,
    tolerance: u8,
    percentage: nat,
    zone: SearchZone,
)
    requires
        source.wf(),
        forall|x: u32, y: u32| !is_candidate(source, template, zone, x as int, y as int),
    ensures
        matching_origins(source, template, tolerance, percentage, zone) == Seq::<
            (u32, u32),
        >::empty(),
{
    let matching = matching_origins(source, template, tolerance, percentage, zone);
    if matching.len() > 0 {
        let first = matching[0];
        assert(matching.contains(first));
        lemma_matching_origins_contains(
            source,
            template,
            tolerance,
            percentage,
            zone,
            first.0,
            first.1,
        );
    }
    assert(matching =~= Seq::<(u32, u32)>::empty());
}

/// A zone that is smaller than the template, yet no larger than the
/// source, gives an empty result and no error.
pub proof fn lemma_zone_smaller_than_template(
    source: Raster,
    template: Raster,
    tolerance: u8,
    percentage: nat,
    zone: SearchZone,
)
    requires
        source.wf(),
        zone.width <= source.width,
        zone.height <= source.height,
        zone.width < template.width || zone.height < template.height,
    ensures
        zone_error(source, zone) is None,
        matching_origins(source, template, tolerance, percentage, zone) == Seq::<
            (u32, u32),
        >::empty(),
{
    lemma_no_candidate_no_match(source, template, tolerance, percentage, zone);
}

/// A zone that is larger than the source is an error, whatever the
/// template.
pub proof fn lemma_zone_larger_than_source(source: Raster, zone: SearchZone)
    ensures
        zone_error(source, zone) is Some <==> (zone.width > source.width || zone.height
            > source.height),
{
}

/// Two searches over the same inputs report the same origins in the same
/// order: what a search reports is a function of its inputs alone.
pub proof fn lemma_search_is_repeatable(
    source: Raster,
    template: Raster,
    tolerance: u8,
    percentage: nat,
    zone: SearchZone,
    first: Seq<(u32, u32)>,
    second: Seq<(u32, u32)>,
)
    requires
        first == matching_origins(source, template, tolerance, percentage, zone),
        second == matching_origins(source, template, tolerance, percentage, zone),
    ensures
        first == second,
        first.to_set() == second.to_set(),
{
}

} // verus!
