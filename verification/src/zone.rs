//! Search zones and the window origins that they admit.

use vstd::prelude::*;
use crate::raster::{Image, Raster};
use crate::window::window_fits;

verus! {

/// A rectangle of the source image's coordinate space that restricts where
/// a template may be placed.
#[derive(Clone, Copy, Debug, PartialEq, Eq, Structural)]
pub struct SearchZone {
    pub left: u32,
    pub top: u32,
    pub width: u32,
    pub height: u32,
}

/// A search zone that no search can be run with.
#[derive(Clone, Copy, Debug, PartialEq, Eq, Structural)]
pub enum ConfigError {
    /// The zone is wider than the source image.
    ZoneWiderThanSource { zone_width: u32, source_width: u32 },
    /// The zone is taller than the source image.
    ZoneTallerThanSource { zone_height: u32, source_height: u32 },
}

/// The error that a zone gives for a source, the width being judged
/// first, or `None` where the zone is no larger than the source.
pub open spec fn zone_error(source: Raster, zone: SearchZone) -> Option<ConfigError> {
    if zone.width > source.width {
        Some(
            ConfigError::ZoneWiderThanSource {
                zone_width: zone.width,
                source_width: source.width as u32,
            },
        )
    } else if zone.height > source.height {
        Some(
            ConfigError::ZoneTallerThanSource {
                zone_height: zone.height,
                source_height: source.height as u32,
            },
        )
    } else {
        None
    }
}

/// The zone that covers the whole of a grid.
pub open spec fn covering_zone(source: Raster) -> SearchZone {
    SearchZone { left: 0, top: 0, width: source.width as u32, height: source.height as u32 }
}

/// `(x, y)` is an origin that the zone admits for the template: the
/// window at it lies within the zone and within the source.
pub open spec fn is_candidate(
    source: Raster,
    template: Raster,
    zone: SearchZone,
    x: int,
    y: int,
) -> bool {
    &&& zone.left <= x && x + template.width <= zone.left + zone.width
    &&& zone.top <= y && y + template.height <= zone.top + zone.height
    &&& window_fits(source, template, x, y)
}

/// The number of positions `p` along one axis with `first <= p`,
/// `p + extent <= first + length` and `p + extent <= bound`.
pub open spec fn span_count(first: int, length: int, bound: int, extent: int) -> nat {
    let limit = if first + length <= bound {
        first + length
    } else {
        bound
    };
    if first + extent <= limit {
        (limit - first - extent + 1) as nat
    } else {
        0
    }
}

/// The number of columns at which the zone admits the template.
pub open spec fn candidate_columns(source: Raster, template: Raster, zone: SearchZone) -> nat {
    span_count(zone.left as int, zone.width as int, source.width as int, template.width as int)
}

/// The number of rows at which the zone admits the template.
pub open spec fn candidate_rows(source: Raster, template: Raster, zone: SearchZone) -> nat {
    span_count(zone.top as int, zone.height as int, source.height as int, template.height as int)
}

/// The origins of row `y` from column `first_x` on, `count` of them, from
/// the left.
pub open spec fn origin_row(first_x: int, count: nat, y: int) -> Seq<(u32, u32)> {
    Seq::new(count, |i: int| ((first_x + i) as u32, y as u32))
}

/// The origins of `rows` rows from row `first_y` on, from the top, each
/// row from the left.
pub open spec fn origin_rows(first_x: int, count: nat, first_y: int, rows: nat) -> Seq<(u32, u32)>
    decreases rows,
{
    if rows == 0 {
        Seq::empty()
    } else {
        origin_rows(first_x, count, first_y, (rows - 1) as nat) + origin_row(
            first_x,
            count,
            first_y + rows - 1,
        )
    }
}

/// Every origin that the zone admits for the template, rows from the top,
/// each row from the left.
pub open spec fn candidate_origins(source: Raster, template: Raster, zone: SearchZone) -> Seq<
    (u32, u32),
> {
    origin_rows(
        zone.left as int,
        candidate_columns(source, template, zone),
        zone.top as int,
        candidate_rows(source, template, zone),
    )
}

/// The positions that `span_count` counts are those from `first` on.
pub proof fn lemma_span_positions(first: int, length: int, bound: int, extent: int, p: int)
    ensures
        first <= p < first + span_count(first, length, bound, extent) <==> (first <= p && p
            + extent <= first + length && p + extent <= bound),
{
}

/// What a row of origins holds.
pub proof fn lemma_origin_row_contains(first_x: int, count: nat, y: int, px: u32, py: u32)
    requires
        0 <= first_x,
        first_x + count <= u32::MAX + 1,
        0 <= y <= u32::MAX,
    ensures
        origin_row(first_x, count, y).contains((px, py)) <==> (py == y && first_x <= px < first_x
            + count),
{
    let row = origin_row(first_x, count, y);
    if py == y && first_x <= px < first_x + count {
        assert(row[px - first_x] == (px, py));
    }
}

/// What consecutive rows of origins hold.
pub proof fn lemma_origin_rows_contains(
    first_x: int,
    count: nat,
    first_y: int,
    rows: nat,
    px: u32,
    py: u32,
)
    requires
        0 <= first_x,
        first_x + count <= u32::MAX + 1,
        0 <= first_y,
        first_y + rows <= u32::MAX + 1,
    ensures
        origin_rows(first_x, count, first_y, rows).contains((px, py)) <==> (first_x <= px < first_x
            + count && first_y <= py < first_y + rows),
    decreases rows,
{
    if rows > 0 {
        let above = origin_rows(first_x, count, first_y, (rows - 1) as nat);
        let last = origin_row(first_x, count, first_y + rows - 1);
        lemma_origin_rows_contains(first_x, count, first_y, (rows - 1) as nat, px, py);
        lemma_origin_row_contains(first_x, count, first_y + rows - 1, px, py);
        let all = above + last;
        if above.contains((px, py)) {
            let i = choose|i: int| 0 <= i < above.len() && above[i] == (px, py);
            assert(all[i] == (px, py));
        }
        if last.contains((px, py)) {
            let i = choose|i: int| 0 <= i < last.len() && last[i] == (px, py);
            assert(all[above.len() + i] == (px, py));
        }
        if all.contains((px, py)) {
            let i = choose|i: int| 0 <= i < all.len() && all[i] == (px, py);
            if i < above.len() {
                assert(above[i] == (px, py));
            } else {
                assert(last[i - above.len()] == (px, py));
            }
        }
    }
}

/// The candidate origins are exactly the origins that the zone admits.
pub proof fn lemma_candidate_origins_contains(
    source: Raster,
    template: Raster,
    zone: SearchZone,
    x: u32,
    y: u32,
)
    requires
        source.wf(),
    ensures
        candidate_origins(source, template, zone).contains((x, y)) <==> is_candidate(
            source,
            template,
            zone,
            x as int,
            y as int,
        ),
{
    lemma_span_positions(
        zone.left as int,
        zone.width as int,
        source.width as int,
        template.width as int,
        x as int,
    );
    lemma_span_positions(
        zone.top as int,
        zone.height as int,
        source.height as int,
        template.height as int,
        y as int,
    );
    lemma_origin_rows_contains(
        zone.left as int,
        candidate_columns(source, template, zone),
        zone.top as int,
        candidate_rows(source, template, zone),
        x,
        y,
    );
}

/// `first` comes before `second` when the origins are read row by row
/// from the top, each row from the left.
pub open spec fn scan_before(first: (u32, u32), second: (u32, u32)) -> bool {
    first.1 < second.1 || (first.1 == second.1 && first.0 < second.0)
}

/// The origins stand in the order in which a scan meets them, none of
/// them twice.
pub open spec fn in_scan_order(origins: Seq<(u32, u32)>) -> bool {
    forall|i: int, j: int|
        0 <= i < j < origins.len() ==> scan_before(#[trigger] origins[i], #[trigger] origins[j])
}

/// Consecutive rows of origins stand in scan order.
pub proof fn lemma_origin_rows_in_scan_order(first_x: int, count: nat, first_y: int, rows: nat)
    requires
        0 <= first_x,
        first_x + count <= u32::MAX + 1,
        0 <= first_y,
        first_y + rows <= u32::MAX + 1,
    ensures
        in_scan_order(origin_rows(first_x, count, first_y, rows)),
    decreases rows,
{
    if rows > 0 {
        let above = origin_rows(first_x, count, first_y, (rows - 1) as nat);
        let last = origin_row(first_x, count, first_y + rows - 1);
        let all = above + last;
        lemma_origin_rows_in_scan_order(first_x, count, first_y, (rows - 1) as nat);
        assert forall|i: int, j: int| 0 <= i < j < all.len() implies scan_before(
            #[trigger] all[i],
            #[trigger] all[j],
        ) by {
            if j < above.len() {
                assert(all[i] == above[i] && all[j] == above[j]);
            } else if i < above.len() {
                assert(above.contains(above[i]));
                lemma_origin_rows_contains(
                    first_x,
                    count,
                    first_y,
                    (rows - 1) as nat,
                    above[i].0,
                    above[i].1,
                );
                assert(all[j] == last[j - above.len()]);
            } else {
                assert(all[i] == last[i - above.len()]);
                assert(all[j] == last[j - above.len()]);
            }
        }
    }
}

/// The candidate origins stand in scan order.
pub proof fn lemma_candidate_origins_in_scan_order(
    source: Raster,
    template: Raster,
    zone: SearchZone,
)
    requires
        source.wf(),
    ensures
        in_scan_order(candidate_origins(source, template, zone)),
{
    lemma_origin_rows_in_scan_order(
        zone.left as int,
        candidate_columns(source, template, zone),
        zone.top as int,
        candidate_rows(source, template, zone),
    );
}

/// Counts the positions of one axis, as `span_count` does.
fn span_count_of(first: u32, length: u32, bound: u32, extent: u32) -> (count: u64)
    ensures
        count == span_count(first as int, length as int, bound as int, extent as int),
        first + count <= u32::MAX + 1,
{
    let end: u64 = first as u64 + length as u64;
    let limit: u64 = if end <= bound as u64 {
        end
    } else {
        bound as u64
    };
    let reach: u64 = first as u64 + extent as u64;
    if reach <= limit {
        limit - reach + 1
    } else {
        0
    }
}

impl SearchZone {
    /// The zone of the given top-left corner and size.
    pub fn new(left: u32, top: u32, width: u32, height: u32) -> (zone: SearchZone)
        ensures
            zone == (SearchZone { left, top, width, height }),
    {
        SearchZone { left, top, width, height }
    }

    /// The zone that covers the whole of an image.
    pub fn covering(source: &Image) -> (zone: SearchZone)
        ensures
            zone == covering_zone(source@),
    {
        let (width, height) = source.dimensions();
        SearchZone { left: 0, top: 0, width, height }
    }

    /// Rejects a zone that is larger than the source image.
    pub fn validate(&self, source: &Image) -> (validated: Result<(), ConfigError>)
        ensures
            match validated {
                Ok(_) => zone_error(source@, *self) is None,
                Err(error) => zone_error(source@, *self) == Some(error),
            },
    {
        let (source_width, source_height) = source.dimensions();
        if source_width < self.width {
            Err(ConfigError::ZoneWiderThanSource { zone_width: self.width, source_width })
        } else if source_height < self.height {
            Err(ConfigError::ZoneTallerThanSource { zone_height: self.height, source_height })
        } else {
            Ok(())
        }
    }
}

/// Lists every origin that the zone admits for the template, rows from
/// the top, each row from the left.
pub fn candidate_origins_of(source: &Image, template: &Image, zone: SearchZone) -> (origins: Vec<
    (u32, u32),
>)
    ensures
        origins@ == candidate_origins(source@, template@, zone),
{
    let (source_width, source_height) = source.dimensions();
    let (template_width, template_height) = template.dimensions();
    let columns: u64 = span_count_of(zone.left, zone.width, source_width, template_width);
    let rows: u64 = span_count_of(zone.top, zone.height, source_height, template_height);
    let mut origins: Vec<(u32, u32)> = Vec::new();
    let mut row: u64 = 0;
    while row < rows
        invariant
            row <= rows,
            zone.left + columns <= u32::MAX + 1,
            zone.top + rows <= u32::MAX + 1,
            columns == candidate_columns(source@, template@, zone),
            rows == candidate_rows(source@, template@, zone),
            origins@ == origin_rows(zone.left as int, columns as nat, zone.top as int, row as nat),
        decreases rows - row,
    {
        let y: u32 = (zone.top as u64 + row) as u32;
        let ghost above = origins@;
        let mut column: u64 = 0;
        while column < columns
            invariant
                column <= columns,
                zone.left + columns <= u32::MAX + 1,
                y == zone.top + row,
                origins@ == above + origin_row(zone.left as int, column as nat, y as int),
            decreases columns - column,
        {
            let x: u32 = (zone.left as u64 + column) as u32;
            origins.push((x, y));
            assert(origins@ == above + origin_row(
                zone.left as int,
                (column + 1) as nat,
                y as int,
            ));
            column = column + 1;
        }
        row = row + 1;
    }
    origins
}

} // verus!
