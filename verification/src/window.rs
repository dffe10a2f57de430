//! Scoring one window of the source image against a template.

use vstd::prelude::*;
use crate::pixel::{pixels_match, pixels_match_with_tolerance};
use crate::raster::{Image, Raster};

verus! {

/// The window of the template's dimensions whose top-left corner is
/// `(x, y)` lies within the source.
pub open spec fn window_fits(source: Raster, template: Raster, x: int, y: int) -> bool {
    &&& 0 <= x && x + template.width <= source.width
    &&& 0 <= y && y + template.height <= source.height
}

/// The template pixel `(tx, ty)` and the source pixel below it, for the
/// window at `(x, y)`, differ by more than the tolerance.
pub open spec fn mismatch_at(
    source: Raster,
    template: Raster,
    x: int,
    y: int,
    tolerance: u8,
    tx: int,
    ty: int,
) -> bool {
    !pixels_match(source.at(x + tx, y + ty), template.at(tx, ty), tolerance)
}

/// The number of mismatches among the first `cols` pixels of template row
/// `ty`.
pub open spec fn row_mismatches(
    source: Raster,
    template: Raster,
    x: int,
    y: int,
    tolerance: u8,
    ty: int,
    cols: nat,
) -> nat
    decreases cols,
{
    if cols == 0 {
        0
    } else {
        let before = row_mismatches(source, template, x, y, tolerance, ty, (cols - 1) as nat);
        if mismatch_at(source, template, x, y, tolerance, cols - 1, ty) {
            before + 1
        } else {
            before
        }
    }
}

/// The number of mismatches in the first `rows` rows of the template.
pub open spec fn rows_mismatches(
    source: Raster,
    template: Raster,
    x: int,
    y: int,
    tolerance: u8,
    rows: nat,
) -> nat
    decreases rows,
{
    if rows == 0 {
        0
    } else {
        rows_mismatches(source, template, x, y, tolerance, (rows - 1) as nat) + row_mismatches(
            source,
            template,
            x,
            y,
            tolerance,
            rows - 1,
            template.width,
        )
    }
}

/// The number of template pixels that mismatch the window at `(x, y)`.
pub open spec fn window_mismatches(
    source: Raster,
    template: Raster,
    x: int,
    y: int,
    tolerance: u8,
) -> nat {
    rows_mismatches(source, template, x, y, tolerance, template.height)
}

/// The number of mismatching pixels that a window may hold and still
/// pass: the given percentage of the template's pixels, rounded down.
pub open spec fn mismatch_budget(pixel_count: nat, percentage: nat) -> nat {
    pixel_count * percentage / 100
}

/// The window at `(x, y)` passes when its mismatches stay within the
/// budget.
pub open spec fn window_passes(
    source: Raster,
    template: Raster,
    x: int,
    y: int,
    tolerance: u8,
    budget: nat,
) -> bool {
    window_mismatches(source, template, x, y, tolerance) <= budget
}

/// A row prefix holds no more mismatches than pixels, and no more than a
/// longer prefix of the same row.
pub proof fn lemma_row_mismatches_grow(
    source: Raster,
    template: Raster,
    x: int,
    y: int,
    tolerance: u8,
    ty: int,
    fewer: nat,
    more: nat,
)
    requires
        fewer <= more,
    ensures
        row_mismatches(source, template, x, y, tolerance, ty, fewer) <= row_mismatches(
            source,
            template,
            x,
            y,
            tolerance,
            ty,
            more,
        ),
        row_mismatches(source, template, x, y, tolerance, ty, more) <= more,
    decreases more,
{
    if more > 0 {
        if fewer < more {
            lemma_row_mismatches_grow(source, template, x, y, tolerance, ty, fewer, (more - 1) as nat);
        } else {
            lemma_row_mismatches_grow(
                source,
                template,
                x,
                y,
                tolerance,
                ty,
                (more - 1) as nat,
                (more - 1) as nat,
            );
        }
    }
}

/// The first rows hold no more mismatches than pixels, and no more than a
/// larger number of first rows.
pub proof fn lemma_rows_mismatches_grow(
    source: Raster,
    template: Raster,
    x: int,
    y: int,
    tolerance: u8,
    fewer: nat,
    more: nat,
)
    requires
        fewer <= more,
    ensures
        rows_mismatches(source, template, x, y, tolerance, fewer) <= rows_mismatches(
            source,
            template,
            x,
            y,
            tolerance,
            more,
        ),
        rows_mismatches(source, template, x, y, tolerance, more) <= more * template.width,
    decreases more,
{
    if more > 0 {
        let rest = (more - 1) as nat;
        if fewer < more {
            lemma_rows_mismatches_grow(source, template, x, y, tolerance, fewer, rest);
        } else {
            lemma_rows_mismatches_grow(source, template, x, y, tolerance, rest, rest);
        }
        lemma_row_mismatches_grow(
            source,
            template,
            x,
            y,
            tolerance,
            more - 1,
            template.width,
            template.width,
        );
        assert(more * template.width == rest * template.width + template.width)
            by (nonlinear_arith)
            requires
                more == rest + 1,
        ;
    } else {
        assert(more * template.width == 0) by (nonlinear_arith)
            requires
                more == 0,
        ;
    }
}

/// A window holds no more mismatches than the template has pixels.
pub proof fn lemma_window_mismatches_bounded(
    source: Raster,
    template: Raster,
    x: int,
    y: int,
    tolerance: u8,
)
    ensures
        window_mismatches(source, template, x, y, tolerance) <= template.pixel_count(),
{
    lemma_rows_mismatches_grow(
        source,
        template,
        x,
        y,
        tolerance,
        template.height,
        template.height,
    );
    assert(template.height * template.width == template.width * template.height)
        by (nonlinear_arith);
}

/// A row prefix is free of mismatches exactly when each of its pixels
/// matches.
pub proof fn lemma_row_without_mismatch(
    source: Raster,
    template: Raster,
    x: int,
    y: int,
    tolerance: u8,
    ty: int,
    cols: nat,
)
    ensures
        row_mismatches(source, template, x, y, tolerance, ty, cols) == 0 <==> (forall|tx: int|
            0 <= tx < cols ==> !mismatch_at(source, template, x, y, tolerance, tx, ty)),
    decreases cols,
{
    if cols > 0 {
        lemma_row_without_mismatch(source, template, x, y, tolerance, ty, (cols - 1) as nat);
        if row_mismatches(source, template, x, y, tolerance, ty, cols) == 0 {
            assert forall|tx: int| 0 <= tx < cols implies !mismatch_at(
                source,
                template,
                x,
                y,
                tolerance,
                tx,
                ty,
            ) by {
                if tx < cols - 1 {
                } else {
                    assert(tx == cols - 1);
                }
            }
        }
    }
}

/// The first rows are free of mismatches exactly when each of their
/// pixels matches.
pub proof fn lemma_rows_without_mismatch(
    source: Raster,
    template: Raster,
    x: int,
    y: int,
    tolerance: u8,
    rows: nat,
)
    ensures
        rows_mismatches(source, template, x, y, tolerance, rows) == 0 <==> (forall|
            tx: int,
            ty: int,
        |
            0 <= tx < template.width && 0 <= ty < rows ==> !mismatch_at(
                source,
                template,
                x,
                y,
                tolerance,
                tx,
                ty,
            )),
    decreases rows,
{
    if rows > 0 {
        let rest = (rows - 1) as nat;
        lemma_rows_without_mismatch(source, template, x, y, tolerance, rest);
        lemma_row_without_mismatch(source, template, x, y, tolerance, rows - 1, template.width);
        if rows_mismatches(source, template, x, y, tolerance, rows) == 0 {
            assert forall|tx: int, ty: int|
                0 <= tx < template.width && 0 <= ty < rows implies !mismatch_at(
                source,
                template,
                x,
                y,
                tolerance,
                tx,
                ty,
            ) by {
                if ty < rows - 1 {
                } else {
                    assert(ty == rows - 1);
                }
            }
        }
    }
}

/// A window is free of mismatches exactly when every pixel of the
/// template matches the source pixel below it.
pub proof fn lemma_window_without_mismatch(
    source: Raster,
    template: Raster,
    x: int,
    y: int,
    tolerance: u8,
)
    ensures
        window_mismatches(source, template, x, y, tolerance) == 0 <==> (forall|tx: int, ty: int|
            template.has(tx, ty) ==> pixels_match(
                source.at(x + tx, y + ty),
                template.at(tx, ty),
                tolerance,
            )),
{
    lemma_rows_without_mismatch(source, template, x, y, tolerance, template.height);
    if window_mismatches(source, template, x, y, tolerance) == 0 {
        assert forall|tx: int, ty: int| template.has(tx, ty) implies pixels_match(
            source.at(x + tx, y + ty),
            template.at(tx, ty),
            tolerance,
        ) by {
            assert(!mismatch_at(source, template, x, y, tolerance, tx, ty));
        }
    }
    if forall|tx: int, ty: int|
        template.has(tx, ty) ==> pixels_match(
            source.at(x + tx, y + ty),
            template.at(tx, ty),
            tolerance,
        ) {
        assert forall|tx: int, ty: int|
            0 <= tx < template.width && 0 <= ty < template.height implies !mismatch_at(
            source,
            template,
            x,
            y,
            tolerance,
            tx,
            ty,
        ) by {
            assert(template.has(tx, ty));
        }
    }
}

/// Computes the mismatch budget of a template of `pixel_count` pixels.
pub fn mismatch_budget_of(pixel_count: usize, percentage: usize) -> (budget: u128)
    ensures
        budget == mismatch_budget(pixel_count as nat, percentage as nat),
{
    assert(pixel_count as nat * percentage as nat <= 0xffff_ffff_ffff_ffff * 0xffff_ffff_ffff_ffff)
        by (nonlinear_arith)
        requires
            pixel_count <= 0xffff_ffff_ffff_ffff,
            percentage <= 0xffff_ffff_ffff_ffff,
    ;
    (pixel_count as u128 * percentage as u128) / 100
}

/// Decides whether the window at `(x, y)` passes: counts the template
/// pixels that mismatch the source pixels below them, and gives up as soon
/// as the count exceeds the budget.
pub fn evaluate(
    source: &Image,
    template: &Image,
    x: u32,
    y: u32,
    tolerance: u8,
    mismatch_budget: u128,
) -> (passes: bool)
    requires
        window_fits(source@, template@, x as int, y as int),
    ensures
        passes == window_passes(
            source@,
            template@,
            x as int,
            y as int,
            tolerance,
            mismatch_budget as nat,
        ),
{
    let (tw, th) = template.dimensions();
    proof {
        source.lemma_view_wf();
    }
    let mut fail_count: u128 = 0;
    let mut ty: u32 = 0;
    while ty < th
        invariant
            tw == template@.width,
            th == template@.height,
            source@.width <= u32::MAX,
            source@.height <= u32::MAX,
            window_fits(source@, template@, x as int, y as int),
            ty <= th,
            fail_count == rows_mismatches(
                source@,
                template@,
                x as int,
                y as int,
                tolerance,
                ty as nat,
            ),
            fail_count <= mismatch_budget,
        decreases th - ty,
    {
        let mut tx: u32 = 0;
        while tx < tw
            invariant
                tw == template@.width,
                th == template@.height,
                source@.width <= u32::MAX,
                source@.height <= u32::MAX,
                window_fits(source@, template@, x as int, y as int),
                ty < th,
                tx <= tw,
                fail_count == rows_mismatches(
                    source@,
                    template@,
                    x as int,
                    y as int,
                    tolerance,
                    ty as nat,
                ) + row_mismatches(
                    source@,
                    template@,
                    x as int,
                    y as int,
                    tolerance,
                    ty as int,
                    tx as nat,
                ),
                fail_count <= mismatch_budget,
            decreases tw - tx,
        {
            let source_pixel = source.get_pixel(x + tx, y + ty);
            let template_pixel = template.get_pixel(tx, ty);
            if !pixels_match_with_tolerance(&source_pixel, &template_pixel, tolerance) {
                if fail_count >= mismatch_budget {
                    proof {
                        lemma_row_mismatches_grow(
                            source@,
                            template@,
                            x as int,
                            y as int,
                            tolerance,
                            ty as int,
                            (tx + 1) as nat,
                            tw as nat,
                        );
                        lemma_rows_mismatches_grow(
                            source@,
                            template@,
                            x as int,
                            y as int,
                            tolerance,
                            (ty + 1) as nat,
                            th as nat,
                        );
                    }
                    return false;
                }
                fail_count = fail_count + 1;
            }
            tx = tx + 1;
        }
        ty = ty + 1;
    }
    true
}

} // verus!
