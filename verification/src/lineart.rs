use vstd::prelude::*;
use crate::raster::{GrayImage, count_fg};
use crate::tone::{build_tone_mask, tone_mask};

verus! {

/// Gray intensities strictly below this global threshold are line-art
/// foreground; at or above, background.
pub const LINEART_THRESHOLD: u8 = 140;

/// The line-art mask: one global binary threshold over the whole image.
pub open spec fn lineart_mask(px: Seq<u8>) -> Seq<u8> {
    tone_mask(px, 0, LINEART_THRESHOLD as int)
}

/// Builds the single line-art mask and counts its foreground pixels.
pub fn build_lineart_mask(gray: &GrayImage) -> (r: (Vec<u8>, usize))
    ensures
        r.0@ == lineart_mask(gray.pixels@),
        r.1 == count_fg(r.0@),
{
    build_tone_mask(&gray.pixels, 0, LINEART_THRESHOLD)
}

} // verus!
