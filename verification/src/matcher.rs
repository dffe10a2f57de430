//! Matching a set of templates against one source image.

use vstd::prelude::*;
use rayon::iter::{IntoParallelRefIterator, ParallelIterator};
use crate::naming::{name_label, name_percentage, name_tolerance, parse_template_name};
use crate::raster::{Image, Raster};
use crate::search::{matching_origins, search_zone_for};
use crate::zone::{zone_error, ConfigError, SearchZone};

verus! {

/// A reference image to look for, with the parameters of its search.
#[derive(Debug)]
pub struct Template {
    /// The name that identifies the template in the results.
    pub name: String,
    pub image: Image,
    /// The largest difference per channel at which two pixels still match.
    pub tolerance: u8,
    /// The percentage of the template's pixels that may mismatch.
    pub percentage: usize,
}

impl Template {
    /// The template of the given name and image: the name gives the
    /// label under which the template is reported, its tolerance and its
    /// percentage.
    pub fn from_name(name: &str, image: Image) -> (template: Template)
        ensures
            template.name@ == name_label(name@),
            template.tolerance == name_tolerance(name@),
            template.percentage == name_percentage(name@),
            template.image == image,
    {
        let params = parse_template_name(name);
        Template {
            name: params.label,
            image,
            tolerance: params.tolerance,
            percentage: params.percentage,
        }
    }
}

/// The origins at which one template matched, with the template's name.
#[derive(Debug)]
pub struct MatchResult {
    pub name: String,
    pub origins: Vec<(u32, u32)>,
}

/// `result` is what the search for `template` in `source` reports.
pub open spec fn is_result_of(
    result: MatchResult,
    source: Raster,
    template: Template,
    zone: SearchZone,
) -> bool {
    &&& result.name@ == template.name@
    &&& result.origins@ == matching_origins(
        source,
        template.image@,
        template.tolerance,
        template.percentage as nat,
        zone,
    )
}

/// `results` holds, for each template and at the template's index, what
/// the search for it reports.
pub open spec fn are_results_of(
    results: Seq<MatchResult>,
    source: Raster,
    templates: Seq<Template>,
    zone: SearchZone,
) -> bool {
    &&& results.len() == templates.len()
    &&& forall|i: int|
        0 <= i < templates.len() ==> is_result_of(#[trigger] results[i], source, templates[i], zone)
}

/// Searches the source for one template.
fn search_template(source: &Image, template: &Template, zone: SearchZone) -> (result: MatchResult)
    ensures
        is_result_of(result, source@, *template, zone),
{
    let origins = search_zone_for(
        source,
        &template.image,
        template.tolerance,
        template.percentage,
        zone,
    );
    MatchResult { name: template.name.clone(), origins }
}

/// Matches one template against the larger image within the search
/// zone.
///
/// A zone that is larger than the image is rejected before the search
/// begins.
pub fn match_template(larger_image: &Image, template: &Template, search_zone: SearchZone) -> (outcome:
    Result<MatchResult, ConfigError>)
    ensures
        match outcome {
            Ok(result) => zone_error(larger_image@, search_zone) is None && is_result_of(
                result,
                larger_image@,
                *template,
                search_zone,
            ),
            Err(error) => zone_error(larger_image@, search_zone) == Some(error),
        },
{
    match search_zone.validate(larger_image) {
        Err(error) => Err(error),
        Ok(_) => Ok(search_template(larger_image, template, search_zone)),
    }
}

/// Searches the source for every template, the templates in parallel.
///
/// Trusted, not proved: the body is one chain of rayon calls,
/// `IntoParallelRefIterator::par_iter` on the templates, then
/// `ParallelIterator::map` with a closure that calls `search_template`,
/// then `ParallelIterator::collect` into a vector. The contract claims of
/// rayon that it calls the closure on every template and collects what
/// the closure returns in the order of the templates, whichever search
/// ends first.
#[verifier::external_body]
fn search_each(source: &Image, templates: &Vec<Template>, zone: SearchZone) -> (results: Vec<
    MatchResult,
>)
    ensures
        are_results_of(results@, source@, templates@, zone),
{
    templates.par_iter().map(|template| search_template(source, template, zone)).collect()
}

/// Matches every template against the larger image within the search
/// zone.
///
/// A zone that is larger than the image is rejected before any search
/// begins. Otherwise the result holds one entry per template, at the
/// template's index.
pub fn get_template_matches(
    larger_image: &Image,
    templates: &Vec<Template>,
    search_zone: SearchZone,
) -> (outcome: Result<Vec<MatchResult>, ConfigError>)
    ensures
        match outcome {
            Ok(results) => zone_error(larger_image@, search_zone) is None && are_results_of(
                results@,
                larger_image@,
                templates@,
                search_zone,
            ),
            Err(error) => zone_error(larger_image@, search_zone) == Some(error),
        },
{
    match search_zone.validate(larger_image) {
        Err(error) => Err(error),
        Ok(_) => Ok(search_each(larger_image, templates, search_zone)),
    }
}

} // verus!
