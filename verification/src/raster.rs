use vstd::prelude::*;

verus! {

/// Alpha values strictly above this count as visible; at or below, the pixel
/// is background for clustering and masking purposes.
pub const VISIBLE_ALPHA: u8 = 20;

/// A representative color with all three channels strictly above this value is
/// treated as near-white background and never materialized as a layer.
pub const NEAR_WHITE: u8 = 245;

/// Mask byte for a foreground pixel.
pub const MASK_FG: u8 = 0;

/// Mask byte for a background pixel.
pub const MASK_BG: u8 = 255;

/// One RGBA sample of the source image.
#[derive(Clone, Copy)]
pub struct Rgba {
    pub r: u8,
    pub g: u8,
    pub b: u8,
    pub a: u8,
}

/// A decoded RGBA raster; `pixels[y * width + x]` is the sample at (x, y).
pub struct RgbaImage {
    pub width: u32,
    pub height: u32,
    pub pixels: Vec<Rgba>,
}

impl RgbaImage {
    /// The pixel buffer holds exactly one sample per coordinate.
    pub open spec fn wf(&self) -> bool {
        self.pixels@.len() == self.width as int * self.height as int
    }
}

/// A grayscale raster; `pixels[y * width + x]` is the intensity at (x, y).
pub struct GrayImage {
    pub width: u32,
    pub height: u32,
    pub pixels: Vec<u8>,
}

impl GrayImage {
    /// The pixel buffer holds exactly one sample per coordinate.
    pub open spec fn wf(&self) -> bool {
        self.pixels@.len() == self.width as int * self.height as int
    }
}

/// A pixel takes part in clustering and color masks only when its alpha
/// exceeds the visibility threshold.
pub open spec fn is_visible(p: Rgba) -> bool {
    p.a > VISIBLE_ALPHA
}

/// A well-formed mask over `len` pixels: every byte is exactly foreground or
/// background, never anything in between.
pub open spec fn mask_wf(m: Seq<u8>, len: int) -> bool {
    &&& m.len() == len
    &&& forall|i: int| 0 <= i < m.len() ==> m[i] == MASK_FG || m[i] == MASK_BG
}

/// The number of foreground bytes in a mask.
pub open spec fn count_fg(m: Seq<u8>) -> nat
    decreases m.len(),
{
    if m.len() == 0 {
        0
    } else {
        count_fg(m.drop_last()) + if m.last() == MASK_FG {
            1nat
        } else {
            0nat
        }
    }
}

/// Appending one byte to a mask raises the foreground count exactly when the
/// byte is foreground.
pub proof fn lemma_count_fg_push(m: Seq<u8>, x: u8)
    ensures
        count_fg(m.push(x)) == count_fg(m) + if x == MASK_FG {
            1nat
        } else {
            0nat
        },
{
    assert(m.push(x).drop_last() =~= m);
    assert(m.push(x).last() == x);
}

} // verus!
