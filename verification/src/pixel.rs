//! Pixels and their comparison under a per-channel tolerance.

use vstd::prelude::*;

verus! {

/// One pixel: four 8-bit channels.
#[derive(Clone, Copy, Debug, PartialEq, Eq, Structural)]
pub struct Pixel {
    pub r: u8,
    pub g: u8,
    pub b: u8,
    pub a: u8,
}

/// The absolute difference of two channel values.
pub open spec fn channel_distance(a: u8, b: u8) -> nat {
    if a >= b {
        (a - b) as nat
    } else {
        (b - a) as nat
    }
}

/// Two pixels match when no channel differs by more than the tolerance.
pub open spec fn pixels_match(a: Pixel, b: Pixel, tolerance: u8) -> bool {
    &&& channel_distance(a.r, b.r) <= tolerance
    &&& channel_distance(a.g, b.g) <= tolerance
    &&& channel_distance(a.b, b.b) <= tolerance
    &&& channel_distance(a.a, b.a) <= tolerance
}

fn channel_within(a: u8, b: u8, tolerance: u8) -> (within: bool)
    ensures
        within == (channel_distance(a, b) <= tolerance),
{
    if a >= b {
        a - b <= tolerance
    } else {
        b - a <= tolerance
    }
}

/// Compares two pixels channel by channel.
pub fn pixels_match_with_tolerance(pixel1: &Pixel, pixel2: &Pixel, tolerance: u8) -> (matched: bool)
    ensures
        matched == pixels_match(*pixel1, *pixel2, tolerance),
{
    channel_within(pixel1.r, pixel2.r, tolerance)
        && channel_within(pixel1.g, pixel2.g, tolerance)
        && channel_within(pixel1.b, pixel2.b, tolerance)
        && channel_within(pixel1.a, pixel2.a, tolerance)
}

/// Matching does not depend on the order of the two pixels.
pub proof fn lemma_pixels_match_symmetric(a: Pixel, b: Pixel, tolerance: u8)
    ensures
        pixels_match(a, b, tolerance) == pixels_match(b, a, tolerance),
{
}

/// Under tolerance zero two pixels match exactly when they are equal.
pub proof fn lemma_pixels_match_exact(a: Pixel, b: Pixel)
    ensures
        pixels_match(a, b, 0) <==> a == b,
{
}

} // verus!
