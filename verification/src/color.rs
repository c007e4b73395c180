use vstd::prelude::*;
use crate::GenError;
use crate::raster::{
    MASK_BG, MASK_FG, NEAR_WHITE, Rgba, RgbaImage, count_fg, is_visible, lemma_count_fg_push,
    mask_wf,
};

verus! {

/// A point in perceptual Lab space, held in fixed-point units. The scale does
/// not matter to the library: classification only compares squared distances,
/// which the scale preserves.
#[derive(Clone, Copy)]
pub struct LabPoint {
    pub l: i32,
    pub a: i32,
    pub b: i32,
}

/// One cluster centroid: its Lab position and the 8-bit display color derived
/// from it.
#[derive(Clone, Copy)]
pub struct Centroid {
    pub lab: LabPoint,
    pub red: u8,
    pub green: u8,
    pub blue: u8,
}

/// The squared Euclidean distance between two Lab points.
pub open spec fn dist2(p: LabPoint, q: LabPoint) -> int {
    (p.l - q.l) * (p.l - q.l) + (p.a - q.a) * (p.a - q.a) + (p.b - q.b) * (p.b - q.b)
}

/// The index of the centroid nearest to `p` by squared distance; under the
/// strict less-than comparison the earliest centroid wins ties.
pub open spec fn nearest_idx(cs: Seq<LabPoint>, p: LabPoint) -> int
    decreases cs.len(),
{
    if cs.len() <= 1 {
        0
    } else {
        let r = nearest_idx(cs.drop_last(), p);
        if dist2(cs.last(), p) < dist2(cs[r], p) {
            cs.len() - 1
        } else {
            r
        }
    }
}

/// The nearest index always points into the centroid list.
pub proof fn lemma_nearest_idx_range(cs: Seq<LabPoint>, p: LabPoint)
    requires
        cs.len() >= 1,
    ensures
        0 <= nearest_idx(cs, p) < cs.len(),
    decreases cs.len(),
{
    if cs.len() > 1 {
        lemma_nearest_idx_range(cs.drop_last(), p);
    }
}

/// Nearest-centroid classification is an exact minimum with a first-wins tie
/// break: no centroid is strictly closer, and every earlier centroid is
/// strictly farther.
pub proof fn lemma_nearest_idx_min(cs: Seq<LabPoint>, p: LabPoint)
    requires
        cs.len() >= 1,
    ensures
        0 <= nearest_idx(cs, p) < cs.len(),
        forall|j: int|
            0 <= j < cs.len() ==> dist2(cs[nearest_idx(cs, p)], p) <= #[trigger] dist2(cs[j], p),
        forall|j: int|
            0 <= j < nearest_idx(cs, p) ==> #[trigger] dist2(cs[j], p) > dist2(
                cs[nearest_idx(cs, p)],
                p,
            ),
    decreases cs.len(),
{
    lemma_nearest_idx_range(cs, p);
    if cs.len() > 1 {
        lemma_nearest_idx_min(cs.drop_last(), p);
        assert forall|j: int| 0 <= j < cs.len() implies dist2(cs[nearest_idx(cs, p)], p)
            <= #[trigger] dist2(cs[j], p) by {
            if j < cs.len() - 1 {
                assert(cs.drop_last()[j] == cs[j]);
            }
        }
        assert forall|j: int| 0 <= j < nearest_idx(cs, p) implies #[trigger] dist2(cs[j], p)
            > dist2(cs[nearest_idx(cs, p)], p) by {
            assert(cs.drop_last()[j] == cs[j]);
            if nearest_idx(cs, p) < cs.len() - 1 {
                assert(cs.drop_last()[nearest_idx(cs, p)] == cs[nearest_idx(cs, p)]);
            }
        }
    }
}

proof fn lemma_sq_bound(x: int, b: int)
    requires
        0 <= b,
        -b <= x <= b,
    ensures
        0 <= x * x <= b * b,
{
    assert(0 <= x * x <= b * b) by (nonlinear_arith)
        requires
            0 <= b,
            -b <= x <= b,
    ;
}

fn dist2_exec(p: &LabPoint, q: &LabPoint) -> (d: i128)
    ensures
        d == dist2(*p, *q),
{
    let dl: i128 = p.l as i128 - q.l as i128;
    let da: i128 = p.a as i128 - q.a as i128;
    let db: i128 = p.b as i128 - q.b as i128;
    proof {
        lemma_sq_bound(dl as int, 0x1_0000_0000);
        lemma_sq_bound(da as int, 0x1_0000_0000);
        lemma_sq_bound(db as int, 0x1_0000_0000);
    }
    dl * dl + da * da + db * db
}

/// The index of the centroid nearest to `p`, ties going to the earliest
/// centroid. The result is a pure function of the centroid list and the
/// point, so repeated classification of the same input is reproducible.
pub fn nearest_centroid(cs: &Vec<LabPoint>, p: &LabPoint) -> (r: usize)
    requires
        cs@.len() >= 1,
    ensures
        r as int == nearest_idx(cs@, *p),
        r < cs@.len(),
{
    let mut best: usize = 0;
    let mut bestd = dist2_exec(&cs[0], p);
    let mut i: usize = 1;
    proof {
        assert(cs@.take(1).len() == 1);
        assert(cs@.take(1)[0] == cs@[0]);
    }
    while i < cs.len()
        invariant
            1 <= i <= cs@.len(),
            cs@.len() >= 1,
            best < i,
            best as int == nearest_idx(cs@.take(i as int), *p),
            bestd == dist2(cs@[best as int], *p),
        decreases cs@.len() - i,
    {
        let d = dist2_exec(&cs[i], p);
        proof {
            let pre = cs@.take(i as int);
            let cur = cs@.take(i + 1);
            assert(cur.drop_last() =~= pre);
            assert(cur.last() == cs@[i as int]);
            lemma_nearest_idx_range(pre, *p);
            assert(cur[nearest_idx(pre, *p)] == pre[nearest_idx(pre, *p)]);
        }
        if d < bestd {
            best = i;
            bestd = d;
        }
        i = i + 1;
    }
    proof {
        assert(cs@.take(cs@.len() as int) =~= cs@);
    }
    best
}

/// The visible pixels of the image, in image order.
pub open spec fn visible_pixels(px: Seq<Rgba>) -> Seq<Rgba>
    decreases px.len(),
{
    if px.len() == 0 {
        Seq::empty()
    } else {
        visible_pixels(px.drop_last()) + if is_visible(px.last()) {
            seq![px.last()]
        } else {
            Seq::empty()
        }
    }
}

/// Collects the pixels above the visibility threshold, in image order.
pub fn collect_visible(img: &RgbaImage) -> (r: Vec<Rgba>)
    ensures
        r@ == visible_pixels(img.pixels@),
{
    let px = &img.pixels;
    let mut r: Vec<Rgba> = Vec::new();
    let mut j: usize = 0;
    proof {
        assert(px@.take(0) =~= Seq::<Rgba>::empty());
    }
    while j < px.len()
        invariant
            j <= px@.len(),
            px@ == img.pixels@,
            r@ == visible_pixels(px@.take(j as int)),
        decreases px@.len() - j,
    {
        let p = px[j];
        proof {
            assert(px@.take(j + 1).drop_last() =~= px@.take(j as int));
            assert(px@.take(j + 1).last() == px@[j as int]);
            if is_visible(px@[j as int]) {
                assert(visible_pixels(px@.take(j + 1)) =~= visible_pixels(px@.take(j as int)).push(
                    px@[j as int],
                ));
            } else {
                assert(visible_pixels(px@.take(j + 1)) =~= visible_pixels(px@.take(j as int)));
            }
        }
        if p.a > crate::raster::VISIBLE_ALPHA {
            r.push(p);
        }
        j = j + 1;
    }
    proof {
        assert(px@.take(px@.len() as int) =~= px@);
    }
    r
}

/// Decides whether color quantization can run: with no visible pixel it fails
/// — whatever count was requested — and nothing further is generated. With at
/// least one it hands back the visible pixels and the cluster count: the
/// requested count capped by the number of visible pixels, so at least 1 for
/// any requested count of at least 1.
pub fn cluster_request(img: &RgbaImage, num_colors: u32) -> (r: Result<
    (Vec<Rgba>, usize),
    GenError,
>)
    ensures
        r is Ok <==> visible_pixels(img.pixels@).len() >= 1,
        r matches Ok(v) ==> {
            &&& v.0@ == visible_pixels(img.pixels@)
            &&& v.1 as int == if num_colors as int <= visible_pixels(img.pixels@).len() {
                num_colors as int
            } else {
                visible_pixels(img.pixels@).len() as int
            }
            &&& v.1 <= num_colors
            &&& num_colors >= 1 ==> 1 <= v.1
        },
        r matches Err(e) ==> e is NoVisiblePixels,
{
    let vis = collect_visible(img);
    if vis.len() == 0 {
        return Err(GenError::NoVisiblePixels);
    }
    let k: usize = if (num_colors as usize) <= vis.len() {
        num_colors as usize
    } else {
        vis.len()
    };
    Ok((vis, k))
}

/// The Lab positions of a centroid list.
pub open spec fn cent_labs(cs: Seq<Centroid>) -> Seq<LabPoint> {
    cs.map_values(|c: Centroid| c.lab)
}

/// A centroid whose display color has all three channels above the near-white
/// threshold is background and never materialized as a layer.
pub open spec fn cent_near_white(c: Centroid) -> bool {
    c.red > NEAR_WHITE && c.green > NEAR_WHITE && c.blue > NEAR_WHITE
}

/// The mask of centroid `target`: a pixel is foreground exactly when it is
/// visible and its nearest centroid is `target`.
pub open spec fn color_mask(
    px: Seq<Rgba>,
    labs: Seq<LabPoint>,
    cents: Seq<LabPoint>,
    target: int,
) -> Seq<u8> {
    Seq::new(
        px.len(),
        |j: int|
            if is_visible(px[j]) && nearest_idx(cents, labs[j]) == target {
                MASK_FG
            } else {
                MASK_BG
            },
    )
}

/// Builds the binary mask of centroid `target` and counts its foreground
/// pixels. `labs[j]` is the Lab position of pixel `j`.
pub fn build_color_mask(
    img: &RgbaImage,
    labs: &Vec<LabPoint>,
    cents: &Vec<LabPoint>,
    target: usize,
) -> (r: (Vec<u8>, usize))
    requires
        labs@.len() == img.pixels@.len(),
        cents@.len() >= 1,
    ensures
        r.0@ == color_mask(img.pixels@, labs@, cents@, target as int),
        mask_wf(r.0@, img.pixels@.len() as int),
        r.1 == count_fg(r.0@),
{
    let px = &img.pixels;
    let mut mask: Vec<u8> = Vec::new();
    let mut count: usize = 0;
    let mut j: usize = 0;
    while j < px.len()
        invariant
            j <= px@.len(),
            px@ == img.pixels@,
            labs@.len() == px@.len(),
            cents@.len() >= 1,
            mask@.len() == j,
            forall|jj: int|
                0 <= jj < j ==> mask@[jj] == (if is_visible(px@[jj]) && nearest_idx(
                    cents@,
                    labs@[jj],
                ) == target as int {
                    MASK_FG
                } else {
                    MASK_BG
                }),
            count == count_fg(mask@),
            count <= j,
        decreases px@.len() - j,
    {
        let p = px[j];
        let v: u8 = if p.a > crate::raster::VISIBLE_ALPHA && nearest_centroid(cents, &labs[j])
            == target {
            MASK_FG
        } else {
            MASK_BG
        };
        proof {
            lemma_count_fg_push(mask@, v);
        }
        mask.push(v);
        if v == MASK_FG {
            count = count + 1;
        }
        j = j + 1;
    }
    proof {
        assert(mask@ =~= color_mask(img.pixels@, labs@, cents@, target as int));
        assert(mask_wf(mask@, img.pixels@.len() as int));
    }
    (mask, count)
}

/// A centroid is materialized as a layer exactly when its display color is
/// not near-white and its mask holds at least one foreground pixel.
pub open spec fn color_emitted(
    px: Seq<Rgba>,
    labs: Seq<LabPoint>,
    cents: Seq<Centroid>,
    i: int,
) -> bool {
    &&& !cent_near_white(cents[i])
    &&& count_fg(color_mask(px, labs, cent_labs(cents), i)) >= 1
}

/// The indices of the centroids below `upto` that are materialized, in
/// centroid order.
pub open spec fn emitted_colors(
    px: Seq<Rgba>,
    labs: Seq<LabPoint>,
    cents: Seq<Centroid>,
    upto: int,
) -> Seq<int>
    decreases upto,
{
    if upto <= 0 {
        Seq::empty()
    } else {
        emitted_colors(px, labs, cents, upto - 1) + if color_emitted(px, labs, cents, upto - 1) {
            seq![upto - 1]
        } else {
            Seq::empty()
        }
    }
}

/// One color layer awaiting tracing: the centroid index, its display color,
/// its binary mask, and the mask's foreground pixel count.
pub struct ColorJob {
    pub index: usize,
    pub red: u8,
    pub green: u8,
    pub blue: u8,
    pub mask: Vec<u8>,
    pub fg_count: usize,
}

/// The jobs are exactly the materialized centroids below `upto`, in centroid
/// order, each carrying its centroid's mask, display color, and foreground
/// count.
pub open spec fn color_jobs_match(
    jobs: Seq<ColorJob>,
    px: Seq<Rgba>,
    labs: Seq<LabPoint>,
    cents: Seq<Centroid>,
    upto: int,
) -> bool {
    &&& jobs.len() == emitted_colors(px, labs, cents, upto).len()
    &&& forall|k: int|
        0 <= k < jobs.len() ==> {
            let i = emitted_colors(px, labs, cents, upto)[k];
            &&& (#[trigger] jobs[k]).index as int == i
            &&& jobs[k].red == cents[i].red
            &&& jobs[k].green == cents[i].green
            &&& jobs[k].blue == cents[i].blue
            &&& jobs[k].mask@ == color_mask(px, labs, cent_labs(cents), i)
            &&& jobs[k].fg_count == count_fg(jobs[k].mask@)
        }
}

/// The Lab positions of the centroids, as a list of their own.
pub fn centroid_labs(cents: &Vec<Centroid>) -> (r: Vec<LabPoint>)
    ensures
        r@ == cent_labs(cents@),
{
    let mut r: Vec<LabPoint> = Vec::new();
    let mut j: usize = 0;
    while j < cents.len()
        invariant
            j <= cents@.len(),
            r@.len() == j,
            forall|jj: int| 0 <= jj < j ==> r@[jj] == cents@[jj].lab,
        decreases cents@.len() - j,
    {
        r.push(cents[j].lab);
        j = j + 1;
    }
    proof {
        assert(r@ =~= cent_labs(cents@));
    }
    r
}

/// Builds one mask per centroid, skipping near-white centroids and masks
/// without a single foreground pixel, in centroid order. Every returned job's
/// mask holds at least one foreground pixel.
pub fn plan_color_layers(img: &RgbaImage, labs: &Vec<LabPoint>, cents: &Vec<Centroid>) -> (jobs:
    Vec<ColorJob>)
    requires
        labs@.len() == img.pixels@.len(),
        cents@.len() >= 1,
    ensures
        color_jobs_match(jobs@, img.pixels@, labs@, cents@, cents@.len() as int),
        forall|k: int|
            0 <= k < jobs@.len() ==> (#[trigger] jobs@[k]).fg_count >= 1 && !(jobs@[k].red
                > NEAR_WHITE && jobs@[k].green > NEAR_WHITE && jobs@[k].blue > NEAR_WHITE),
{
    let clabs = centroid_labs(cents);
    let ghost px = img.pixels@;
    let mut jobs: Vec<ColorJob> = Vec::new();
    let mut i: usize = 0;
    while i < cents.len()
        invariant
            i <= cents@.len(),
            cents@.len() >= 1,
            labs@.len() == img.pixels@.len(),
            px == img.pixels@,
            clabs@ == cent_labs(cents@),
            color_jobs_match(jobs@, px, labs@, cents@, i as int),
            forall|k: int|
                0 <= k < jobs@.len() ==> (#[trigger] jobs@[k]).fg_count >= 1 && !(jobs@[k].red
                    > NEAR_WHITE && jobs@[k].green > NEAR_WHITE && jobs@[k].blue > NEAR_WHITE),
        decreases cents@.len() - i,
    {
        let c = cents[i];
        let ghost prev = jobs@;
        if !(c.red > NEAR_WHITE && c.green > NEAR_WHITE && c.blue > NEAR_WHITE) {
            let (mask, cnt) = build_color_mask(img, labs, &clabs, i);
            if cnt >= 1 {
                jobs.push(
                    ColorJob {
                        index: i,
                        red: c.red,
                        green: c.green,
                        blue: c.blue,
                        mask,
                        fg_count: cnt,
                    },
                );
                assert(color_emitted(px, labs@, cents@, i as int));
                assert(jobs@ =~= prev.push(jobs@[jobs@.len() - 1]));
            } else {
                assert(!color_emitted(px, labs@, cents@, i as int));
            }
        } else {
            assert(!color_emitted(px, labs@, cents@, i as int));
        }
        proof {
            if color_emitted(px, labs@, cents@, i as int) {
                assert(emitted_colors(px, labs@, cents@, i + 1) =~= emitted_colors(
                    px,
                    labs@,
                    cents@,
                    i as int,
                ).push(i as int));
            } else {
                assert(emitted_colors(px, labs@, cents@, i + 1) =~= emitted_colors(
                    px,
                    labs@,
                    cents@,
                    i as int,
                ));
            }
        }
        i = i + 1;
    }
    jobs
}

} // verus!
