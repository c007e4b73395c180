use vstd::prelude::*;
use vstd::arithmetic::div_mod::{lemma_div_is_ordered, lemma_div_multiples_vanish};
use vstd::arithmetic::mul::lemma_mul_inequality;
use crate::raster::{GrayImage, MASK_BG, MASK_FG, NEAR_WHITE, count_fg, lemma_count_fg_push, mask_wf};

verus! {

/// A tone band is skipped when it holds fewer foreground pixels than this
/// noise floor.
pub const MIN_TONE_PIXELS: usize = 50;

/// The boundary value `i * 255 / n` separating tone band `i - 1` from band `i`.
pub open spec fn tone_boundary(n: int, i: int) -> int
    recommends
        1 <= n,
{
    i * 255 / n
}

/// The representative intensity of band `i`: the midpoint of its interval.
pub open spec fn tone_rep(n: int, i: int) -> int
    recommends
        1 <= n,
{
    (tone_boundary(n, i) + tone_boundary(n, i + 1)) / 2
}

/// The mask selecting pixels whose intensity lies in the half-open interval
/// `[lo, hi)`.
pub open spec fn tone_mask(px: Seq<u8>, lo: int, hi: int) -> Seq<u8> {
    Seq::new(px.len(), |j: int| if lo <= px[j] < hi { MASK_FG } else { MASK_BG })
}

/// The mask of tone band `i` out of `n`.
pub open spec fn band_mask(px: Seq<u8>, n: int, i: int) -> Seq<u8> {
    tone_mask(px, tone_boundary(n, i), tone_boundary(n, i + 1))
}

/// A band is materialized as a layer exactly when its representative intensity
/// is not near-white and its mask clears the noise floor.
pub open spec fn band_emitted(px: Seq<u8>, n: int, i: int) -> bool {
    &&& tone_rep(n, i) <= NEAR_WHITE as int
    &&& count_fg(band_mask(px, n, i)) >= MIN_TONE_PIXELS as int
}

/// The indices of the bands below `upto` that are materialized, in increasing
/// order.
pub open spec fn emitted_bands(px: Seq<u8>, n: int, upto: int) -> Seq<int>
    decreases upto,
{
    if upto <= 0 {
        Seq::empty()
    } else {
        emitted_bands(px, n, upto - 1) + if band_emitted(px, n, upto - 1) {
            seq![upto - 1]
        } else {
            Seq::empty()
        }
    }
}

/// The boundaries `0 * 255 / n, ..., n * 255 / n` of the `n` tone bands.
pub fn tone_boundaries(num_tones: u32) -> (r: Vec<u8>)
    requires
        1 <= num_tones,
    ensures
        r@.len() == num_tones + 1,
        forall|i: int| 0 <= i <= num_tones ==> r@[i] as int == tone_boundary(num_tones as int, i),
{
    let n = num_tones as u64;
    let mut r: Vec<u8> = Vec::new();
    let mut i: u64 = 0;
    while i <= n
        invariant
            1 <= n <= u32::MAX,
            i <= n + 1,
            r@.len() == i,
            forall|j: int| 0 <= j < i ==> r@[j] as int == tone_boundary(n as int, j),
        decreases n + 1 - i,
    {
        let v: u64 = i * 255 / n;
        proof {
            lemma_mul_inequality(i as int, n as int, 255);
            lemma_div_is_ordered(i as int * 255, n as int * 255, n as int);
            lemma_div_multiples_vanish(255, n as int);
            assert(v <= 255);
        }
        r.push(v as u8);
        i = i + 1;
    }
    r
}

/// The boundary values grow with the index.
pub proof fn lemma_tone_boundary_mono(n: int, i: int, j: int)
    requires
        1 <= n,
        i <= j,
    ensures
        tone_boundary(n, i) <= tone_boundary(n, j),
{
    lemma_mul_inequality(i, j, 255);
    lemma_div_is_ordered(i * 255, j * 255, n);
}

/// The first boundary is 0 and the last is 255; every boundary lies between.
pub proof fn lemma_tone_boundary_range(n: int, i: int)
    requires
        1 <= n,
        0 <= i <= n,
    ensures
        tone_boundary(n, 0) == 0,
        tone_boundary(n, n) == 255,
        0 <= tone_boundary(n, i) <= 255,
{
    lemma_div_multiples_vanish(255, n);
    assert(n * 255 == 255 * n) by (nonlinear_arith);
    lemma_tone_boundary_mono(n, 0, i);
    lemma_tone_boundary_mono(n, i, n);
}

proof fn find_band(px: Seq<u8>, n: int, v: int, i: int) -> (b: int)
    requires
        1 <= n,
        0 <= v < 255,
        0 <= i < n,
        tone_boundary(n, i) <= v,
    ensures
        i <= b < n,
        tone_boundary(n, b) <= v < tone_boundary(n, b + 1),
    decreases n - i,
{
    if v < tone_boundary(n, i + 1) {
        i
    } else {
        lemma_tone_boundary_range(n, i);
        if i + 1 == n {
            assert(tone_boundary(n, n) == 255);
            assert(false);
        }
        find_band(px, n, v, i + 1)
    }
}

/// The `n` tone bands are contiguous, non-overlapping, and together cover
/// every intensity from 0 up to (excluding) 255: each such intensity lies in
/// exactly one half-open band `[boundary(i), boundary(i + 1))`. The top
/// intensity 255 itself equals the last boundary and, the intervals being
/// half-open, falls in no band.
pub proof fn lemma_tone_bands_partition(n: int, v: int)
    requires
        1 <= n,
        0 <= v < 255,
    ensures
        tone_boundary(n, 0) == 0,
        tone_boundary(n, n) == 255,
        forall|i: int, j: int| 0 <= i <= j <= n ==> tone_boundary(n, i) <= tone_boundary(n, j),
        exists|i: int|
            0 <= i < n && #[trigger] tone_boundary(n, i) <= v < tone_boundary(n, i + 1),
        forall|i: int, j: int|
            0 <= i < n && 0 <= j < n && #[trigger] tone_boundary(n, i) <= v < tone_boundary(n, i + 1)
                && #[trigger] tone_boundary(n, j) <= v < tone_boundary(n, j + 1) ==> i == j,
{
    lemma_tone_boundary_range(n, 0);
    assert forall|i: int, j: int| 0 <= i <= j <= n implies tone_boundary(n, i) <= tone_boundary(
        n,
        j,
    ) by {
        lemma_tone_boundary_mono(n, i, j);
    }
    let b = find_band(Seq::<u8>::empty(), n, v, 0);
    assert(0 <= b < n && tone_boundary(n, b) <= v < tone_boundary(n, b + 1));
    assert forall|i: int, j: int|
        0 <= i < n && 0 <= j < n && #[trigger] tone_boundary(n, i) <= v < tone_boundary(n, i + 1)
            && #[trigger] tone_boundary(n, j) <= v < tone_boundary(n, j + 1) implies i == j by {
        if i < j {
            lemma_tone_boundary_mono(n, i + 1, j);
        }
        if j < i {
            lemma_tone_boundary_mono(n, j + 1, i);
        }
    }
}

/// A band whose mask holds any foreground pixel spans a non-empty interval.
pub proof fn lemma_band_nonempty(px: Seq<u8>, n: int, i: int)
    requires
        count_fg(band_mask(px, n, i)) >= 1,
    ensures
        tone_boundary(n, i) < tone_boundary(n, i + 1),
    decreases px.len(),
{
    if tone_boundary(n, i) >= tone_boundary(n, i + 1) {
        lemma_count_all_bg(px, tone_boundary(n, i), tone_boundary(n, i + 1));
    }
}

proof fn lemma_count_all_bg(px: Seq<u8>, lo: int, hi: int)
    requires
        lo >= hi,
    ensures
        count_fg(tone_mask(px, lo, hi)) == 0,
    decreases px.len(),
{
    if px.len() > 0 {
        lemma_count_all_bg(px.drop_last(), lo, hi);
        assert(tone_mask(px, lo, hi).drop_last() =~= tone_mask(px.drop_last(), lo, hi));
        assert(tone_mask(px, lo, hi).last() == MASK_BG);
    }
}

/// Distinct non-empty bands have strictly increasing representative
/// intensities.
pub proof fn lemma_tone_rep_strict(n: int, i: int, j: int)
    requires
        1 <= n,
        0 <= i < j < n,
        tone_boundary(n, i) < tone_boundary(n, i + 1),
        tone_boundary(n, j) < tone_boundary(n, j + 1),
    ensures
        tone_rep(n, i) < tone_rep(n, j),
{
    lemma_tone_boundary_mono(n, i + 1, j);
    lemma_tone_boundary_mono(n, j, j + 1);
    assert(tone_rep(n, i) < tone_boundary(n, i + 1));
    assert(tone_rep(n, j) >= tone_boundary(n, j));
}

/// The materialized band indices are strictly increasing; each lies below
/// `upto` and is materialized.
pub proof fn lemma_emitted_bands_increasing(px: Seq<u8>, n: int, upto: int)
    ensures
        forall|k: int|
            0 <= k < emitted_bands(px, n, upto).len() ==> 0 <= #[trigger] emitted_bands(
                px,
                n,
                upto,
            )[k] < upto && band_emitted(px, n, emitted_bands(px, n, upto)[k]),
        forall|k: int, l: int|
            0 <= k < l < emitted_bands(px, n, upto).len() ==> #[trigger] emitted_bands(
                px,
                n,
                upto,
            )[k] < #[trigger] emitted_bands(px, n, upto)[l],
    decreases upto,
{
    if upto <= 0 {
    } else {
        lemma_emitted_bands_increasing(px, n, upto - 1);
        let pre = emitted_bands(px, n, upto - 1);
        let cur = emitted_bands(px, n, upto);
        assert forall|k: int| 0 <= k < cur.len() implies 0 <= #[trigger] cur[k] < upto
            && band_emitted(px, n, cur[k]) by {
            if k < pre.len() {
                assert(cur[k] == pre[k]);
            }
        }
        assert forall|k: int, l: int| 0 <= k < l < cur.len() implies #[trigger] cur[k]
            < #[trigger] cur[l] by {
            if l < pre.len() {
                assert(cur[k] == pre[k] && cur[l] == pre[l]);
            } else {
                assert(cur[k] == pre[k] && cur[l] == upto - 1);
            }
        }
    }
}

/// Distinct tone jobs carry strictly increasing representative intensities, in
/// band order: no two materialized bands share a tone.
pub proof fn lemma_tone_jobs_strict(jobs: Seq<ToneJob>, px: Seq<u8>, n: int)
    requires
        1 <= n,
        tone_jobs_match(jobs, px, n, n),
    ensures
        forall|k: int, l: int|
            0 <= k < l < jobs.len() ==> (#[trigger] jobs[k]).tone < (#[trigger] jobs[l]).tone,
{
    lemma_emitted_bands_increasing(px, n, n);
    assert forall|k: int, l: int| 0 <= k < l < jobs.len() implies (#[trigger] jobs[k]).tone < (
    #[trigger] jobs[l]).tone by {
        let i = emitted_bands(px, n, n)[k];
        let j = emitted_bands(px, n, n)[l];
        assert(0 <= i < n && band_emitted(px, n, i));
        assert(0 <= j < n && band_emitted(px, n, j));
        assert(i < j);
        assert(jobs[k].tone as int == tone_rep(n, i));
        assert(jobs[l].tone as int == tone_rep(n, j));
        lemma_band_nonempty(px, n, i);
        lemma_band_nonempty(px, n, j);
        lemma_tone_rep_strict(n, i, j);
    }
}

/// One tone layer awaiting tracing: the band index, its representative
/// intensity, its binary mask, and the mask's foreground pixel count.
pub struct ToneJob {
    pub band: usize,
    pub tone: u8,
    pub mask: Vec<u8>,
    pub fg_count: usize,
}

/// The jobs `jobs` are exactly the materialized bands below `upto`, in band
/// order, each carrying its band's mask, representative intensity, and
/// foreground count.
pub open spec fn tone_jobs_match(jobs: Seq<ToneJob>, px: Seq<u8>, n: int, upto: int) -> bool {
    &&& jobs.len() == emitted_bands(px, n, upto).len()
    &&& forall|k: int|
        0 <= k < jobs.len() ==> {
            let i = emitted_bands(px, n, upto)[k];
            &&& (#[trigger] jobs[k]).band as int == i
            &&& jobs[k].tone as int == tone_rep(n, i)
            &&& jobs[k].mask@ == band_mask(px, n, i)
            &&& jobs[k].fg_count == count_fg(band_mask(px, n, i))
        }
}

/// The mask of the pixels whose intensity lies in `[lo, hi)`, with its
/// foreground count.
pub fn build_tone_mask(pixels: &Vec<u8>, lo: u8, hi: u8) -> (r: (Vec<u8>, usize))
    ensures
        r.0@ == tone_mask(pixels@, lo as int, hi as int),
        mask_wf(r.0@, pixels@.len() as int),
        r.1 == count_fg(r.0@),
{
    let mut mask: Vec<u8> = Vec::new();
    let mut count: usize = 0;
    let mut j: usize = 0;
    while j < pixels.len()
        invariant
            j <= pixels@.len(),
            mask@.len() == j,
            forall|jj: int|
                0 <= jj < j ==> mask@[jj] == (if lo as int <= pixels@[jj] < hi as int {
                    MASK_FG
                } else {
                    MASK_BG
                }),
            count == count_fg(mask@),
            count <= j,
        decreases pixels@.len() - j,
    {
        let p = pixels[j];
        let v: u8 = if lo <= p && p < hi {
            MASK_FG
        } else {
            MASK_BG
        };
        proof {
            lemma_count_fg_push(mask@, v);
        }
        mask.push(v);
        if v == MASK_FG {
            count = count + 1;
        }
        j = j + 1;
    }
    assert(mask@ =~= tone_mask(pixels@, lo as int, hi as int));
    assert(mask_wf(mask@, pixels@.len() as int));
    (mask, count)
}

/// Splits the grayscale image into `num_tones` contiguous bands and builds one
/// mask per band, skipping near-white bands and bands under the noise floor.
/// Every returned job holds at least the noise-floor number of foreground
/// pixels.
pub fn plan_tone_layers(gray: &GrayImage, num_tones: u32) -> (jobs: Vec<ToneJob>)
    requires
        1 <= num_tones,
    ensures
        tone_jobs_match(jobs@, gray.pixels@, num_tones as int, num_tones as int),
        forall|k: int|
            0 <= k < jobs@.len() ==> (#[trigger] jobs@[k]).fg_count >= MIN_TONE_PIXELS
                && jobs@[k].tone as int <= NEAR_WHITE as int,
{
    let bounds = tone_boundaries(num_tones);
    let n = num_tones as usize;
    let ghost px = gray.pixels@;
    let ghost ni = num_tones as int;
    let mut jobs: Vec<ToneJob> = Vec::new();
    let mut i: usize = 0;
    while i < n
        invariant
            n == ni,
            1 <= ni,
            i <= n,
            bounds@.len() == ni + 1,
            forall|j: int| 0 <= j <= ni ==> bounds@[j] as int == tone_boundary(ni, j),
            px == gray.pixels@,
            tone_jobs_match(jobs@, px, ni, i as int),
            forall|k: int|
                0 <= k < jobs@.len() ==> (#[trigger] jobs@[k]).fg_count >= MIN_TONE_PIXELS
                    && jobs@[k].tone as int <= NEAR_WHITE as int,
        decreases n - i,
    {
        let lo = bounds[i];
        let hi = bounds[i + 1];
        let tone = ((lo as u16 + hi as u16) / 2) as u8;
        assert(tone as int == tone_rep(ni, i as int));
        let ghost prev = jobs@;
        if tone <= NEAR_WHITE {
            let (mask, cnt) = build_tone_mask(&gray.pixels, lo, hi);
            if cnt >= MIN_TONE_PIXELS {
                jobs.push(ToneJob { band: i, tone, mask, fg_count: cnt });
                assert(band_emitted(px, ni, i as int));
                assert(jobs@ =~= prev.push(jobs@[jobs@.len() - 1]));
            } else {
                assert(!band_emitted(px, ni, i as int));
            }
        } else {
            assert(!band_emitted(px, ni, i as int));
        }
        proof {
            assert(emitted_bands(px, ni, i + 1) == emitted_bands(px, ni, i as int)
                + if band_emitted(px, ni, i as int) {
                seq![i as int]
            } else {
                Seq::<int>::empty()
            });
            if band_emitted(px, ni, i as int) {
                assert(emitted_bands(px, ni, i + 1) =~= emitted_bands(px, ni, i as int).push(
                    i as int,
                ));
            } else {
                assert(emitted_bands(px, ni, i + 1) =~= emitted_bands(px, ni, i as int));
            }
        }
        i = i + 1;
    }
    jobs
}

} // verus!
