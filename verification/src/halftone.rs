use vstd::prelude::*;
use vstd::arithmetic::div_mod::lemma_div_is_ordered;
use vstd::string::{StrSliceExecFns, StringSliceAdditionalSpecFns};
use crate::raster::GrayImage;
use crate::svg::footer_bytes;
use crate::text::{dec_digits, push_bytes, u32_dec};

verus! {

/// The grid step between halftone dots along the rotated axes.
pub const DOT_SPACING: i64 = 5;

/// Fixed-point cosine (and sine) of the 45-degree screen angle, in parts of
/// `ROT_SCALE`.
pub const ROT_COS: i64 = 70711;

/// The fixed-point scale of `ROT_COS`.
pub const ROT_SCALE: i64 = 100000;

/// Radii are held in hundredths of a pixel; the largest dot radius is 2.40:
/// the dot size of 3 scaled by 0.8.
pub const MAX_RADIUS_HUNDREDTHS: u32 = 240;

/// A dot is emitted only when its exact radius exceeds half a pixel.
pub const MIN_RADIUS_HUNDREDTHS: u32 = 50;

/// Signed division truncating toward zero, as the grid's inverse rotation
/// rounds.
pub open spec fn trunc_div(a: int, b: int) -> int
    recommends
        b > 0,
{
    if a >= 0 {
        a / b
    } else {
        -((-a) / b)
    }
}

/// The source column of grid point (gx, gy): inverse-rotate by the screen
/// angle around the image center.
pub open spec fn source_x(gx: int, gy: int, w: int) -> int {
    trunc_div((gx - gy) * ROT_COS as int, ROT_SCALE as int) + w / 2
}

/// The source row of grid point (gx, gy).
pub open spec fn source_y(gx: int, gy: int, h: int) -> int {
    trunc_div((gx + gy) * ROT_COS as int, ROT_SCALE as int) + h / 2
}

/// A dot is emitted exactly when the radius — the maximum radius scaled by
/// the sample's darkness — exceeds half a pixel. The comparison is exact, on
/// the unrounded radius: `240 * (255 - gray) / 255 / 100 > 50 / 100` cleared
/// of its denominators.
pub open spec fn dot_emitted(gray: int) -> bool {
    MAX_RADIUS_HUNDREDTHS as int * (255 - gray) > MIN_RADIUS_HUNDREDTHS as int * 255
}

/// The dot radius at a gray value, in hundredths of a pixel, rounded to the
/// nearest hundredth — the value the two-decimal output writes.
pub open spec fn radius_hundredths(gray: int) -> int {
    (MAX_RADIUS_HUNDREDTHS as int * (255 - gray) + 127) / 255
}

/// One halftone dot: a filled circle at a source pixel, its radius in
/// hundredths of a pixel.
#[derive(Clone, Copy, PartialEq, Eq, Structural)]
pub struct Circle {
    pub cx: u32,
    pub cy: u32,
    pub r_hundredths: u32,
}

/// The dot of one grid point: a circle at the inverse-rotated source pixel,
/// provided that pixel is on the canvas and the dot is visibly large.
pub open spec fn cell_circle(g: Seq<u8>, w: int, h: int, gy: int, gx: int) -> Seq<Circle> {
    let x = source_x(gx, gy, w);
    let y = source_y(gx, gy, h);
    if 0 <= x < w && 0 <= y < h {
        if dot_emitted(g[y * w + x] as int) {
            seq![
                Circle {
                    cx: x as u32,
                    cy: y as u32,
                    r_hundredths: radius_hundredths(g[y * w + x] as int) as u32,
                },
            ]
        } else {
            Seq::empty()
        }
    } else {
        Seq::empty()
    }
}

/// The dots of one grid row from `gx` on, stepping by the dot spacing.
pub open spec fn row_circles(g: Seq<u8>, w: int, h: int, d: int, gy: int, gx: int) -> Seq<Circle>
    decreases (d - gx + 4) / 5,
{
    if gx >= d {
        Seq::empty()
    } else {
        cell_circle(g, w, h, gy, gx) + row_circles(g, w, h, d, gy, gx + 5)
    }
}

/// The dots of the grid rows from `gy` on, stepping by the dot spacing.
pub open spec fn rows_circles(g: Seq<u8>, w: int, h: int, d: int, gy: int) -> Seq<Circle>
    decreases (d - gy + 4) / 5,
{
    if gy >= d {
        Seq::empty()
    } else {
        row_circles(g, w, h, d, gy, -d) + rows_circles(g, w, h, d, gy + 5)
    }
}

/// The integer square root taken from `r` upward.
pub open spec fn isqrt_from(n: int, r: int) -> int
    decreases n - r * r,
    when 0 <= r && r * r <= n
    via isqrt_from_dec
{
    if (r + 1) * (r + 1) <= n {
        isqrt_from(n, r + 1)
    } else {
        r
    }
}

#[via_fn]
proof fn isqrt_from_dec(n: int, r: int) {
    assert((r + 1) * (r + 1) > r * r) by (nonlinear_arith)
        requires
            0 <= r,
    ;
}

/// The grid extent: the integer square root of the squared image diagonal, so
/// the rotated grid covers the whole canvas after inverse-mapping.
pub open spec fn diag_extent(w: int, h: int) -> int {
    isqrt_from(w * w + h * h, 0)
}

/// All halftone dots of a `w` by `h` image, row by row over the rotated grid.
pub open spec fn halftone_spec(g: Seq<u8>, w: int, h: int) -> Seq<Circle> {
    rows_circles(g, w, h, diag_extent(w, h), -diag_extent(w, h))
}

/// The integer square root is the largest value whose square is at most `n`.
pub proof fn lemma_isqrt_bounds(n: int, r: int)
    requires
        0 <= r,
        r * r <= n,
    ensures
        r <= isqrt_from(n, r),
        isqrt_from(n, r) * isqrt_from(n, r) <= n,
        (isqrt_from(n, r) + 1) * (isqrt_from(n, r) + 1) > n,
    decreases n - r * r,
{
    assert((r + 1) * (r + 1) > r * r) by (nonlinear_arith)
        requires
            0 <= r,
    ;
    if (r + 1) * (r + 1) <= n {
        lemma_isqrt_bounds(n, r + 1);
    }
}

/// The integer square root of `n`, counting up from zero.
pub fn isqrt(n: u128) -> (r: u128)
    requires
        n as int <= 0x40000000000000000,
    ensures
        r as int == isqrt_from(n as int, 0),
{
    let mut r: u128 = 0;
    while (r + 1) * (r + 1) <= n
        invariant
            n as int <= 0x40000000000000000,
            r as int <= 0x200000000,
            (r as int + 1) * (r as int + 1) <= 0x50000000000000000,
            r as int * r as int <= n as int,
            isqrt_from(n as int, 0) == isqrt_from(n as int, r as int),
        decreases n as int - r as int,
    {
        r = r + 1;
        proof {
            assert(r as int <= 0x200000000) by (nonlinear_arith)
                requires
                    r as int * r as int <= 0x40000000000000000,
                    0 <= r as int,
            ;
            assert((r as int + 1) * (r as int + 1) <= 0x50000000000000000) by (nonlinear_arith)
                requires
                    0 <= r as int <= 0x200000000,
            ;
            assert(r as int * r as int <= n as int ==> r as int <= n as int) by (nonlinear_arith)
                requires
                    0 <= r as int,
            ;
        }
    }
    r
}

fn trunc_div_scale(num: i64) -> (q: i64)
    requires
        -4000000000000000 <= num <= 4000000000000000,
    ensures
        q as int == trunc_div(num as int, ROT_SCALE as int),
{
    if num >= 0 {
        ((num as u64) / 100000) as i64
    } else {
        -(((-num) as u64 / 100000) as i64)
    }
}

fn source_x_exec(gx: i64, gy: i64, w: u32) -> (r: i64)
    requires
        -20000000000 <= gx <= 20000000000,
        -20000000000 <= gy <= 20000000000,
    ensures
        r as int == source_x(gx as int, gy as int, w as int),
{
    let q = trunc_div_scale((gx - gy) * ROT_COS);
    q + (w / 2) as i64
}

fn source_y_exec(gx: i64, gy: i64, h: u32) -> (r: i64)
    requires
        -20000000000 <= gx <= 20000000000,
        -20000000000 <= gy <= 20000000000,
    ensures
        r as int == source_y(gx as int, gy as int, h as int),
{
    let q = trunc_div_scale((gx + gy) * ROT_COS);
    q + (h / 2) as i64
}

/// Samples the rotated dot grid over the whole canvas and emits one circle
/// per grid point whose source pixel is in bounds and whose dot is visibly
/// large.
#[verifier::rlimit(100)]
pub fn halftone_circles(gray: &GrayImage) -> (out: Vec<Circle>)
    requires
        gray.wf(),
    ensures
        out@ == halftone_spec(gray.pixels@, gray.width as int, gray.height as int),
{
    let w = gray.width;
    let h = gray.height;
    let ghost g = gray.pixels@;
    let ghost wi = w as int;
    let ghost hi = h as int;
    let plen = gray.pixels.len();
    let wu: u128 = w as u128;
    let hu: u128 = h as u128;
    proof {
        assert(0 <= (wu as int) * (wu as int) <= 0x10000000000000000) by (nonlinear_arith)
            requires
                0 <= (wu as int) && (wu as int) < 0x100000000,
        ;
        assert(0 <= (hu as int) * (hu as int) <= 0x10000000000000000) by (nonlinear_arith)
            requires
                0 <= (hu as int) && (hu as int) < 0x100000000,
        ;
    }
    let n: u128 = wu * wu + hu * hu;
    let d128 = isqrt(n);
    proof {
        lemma_isqrt_bounds(n as int, 0);
        assert(d128 as int <= 20000000000) by (nonlinear_arith)
            requires
                d128 as int * d128 as int <= 0x40000000000000000,
                0 <= d128 as int,
        ;
    }
    let d = d128 as i64;
    let ghost di = d as int;
    let mut out: Vec<Circle> = Vec::new();
    let mut gy: i64 = -d;
    proof {
        assert(Seq::<Circle>::empty() + rows_circles(g, wi, hi, di, -di) =~= rows_circles(
            g,
            wi,
            hi,
            di,
            -di,
        ));
    }
    while gy < d
        invariant
            gray.wf(),
            g == gray.pixels@,
            wi == gray.width as int,
            hi == gray.height as int,
            w == gray.width,
            h == gray.height,
            plen == gray.pixels@.len(),
            0 <= di <= 20000000000,
            di == d as int,
            -di <= gy <= di + 4,
            halftone_spec(g, wi, hi) == out@ + rows_circles(g, wi, hi, di, gy as int),
            di == diag_extent(wi, hi),
        decreases (di - gy + 4) / 5,
    {
        let mut gx: i64 = -d;
        let ghost row_start = out@;
        proof {
            assert(rows_circles(g, wi, hi, di, gy as int) == row_circles(g, wi, hi, di, gy as int, -di)
                + rows_circles(g, wi, hi, di, gy as int + 5));
            assert(out@ + rows_circles(g, wi, hi, di, gy as int) =~= out@ + row_circles(
                g,
                wi,
                hi,
                di,
                gy as int,
                -di,
            ) + rows_circles(g, wi, hi, di, gy as int + 5));
        }
        while gx < d
            invariant
                gray.wf(),
                g == gray.pixels@,
                wi == gray.width as int,
                hi == gray.height as int,
                w == gray.width,
                h == gray.height,
                plen == gray.pixels@.len(),
                0 <= di <= 20000000000,
                di == d as int,
                -di <= gx <= di + 4,
                -di <= gy,
                (gy as int) < di,
                halftone_spec(g, wi, hi) == out@ + row_circles(g, wi, hi, di, gy as int, gx as int)
                    + rows_circles(g, wi, hi, di, gy as int + 5),
            decreases (di - gx + 4) / 5,
        {
            let sx = source_x_exec(gx, gy, w);
            let sy = source_y_exec(gx, gy, h);
            let ghost cell = cell_circle(g, wi, hi, gy as int, gx as int);
            if 0 <= sx && sx < w as i64 && 0 <= sy && sy < h as i64 {
                proof {
                    assert((sy as int) * wi + (sx as int) < hi * wi) by (nonlinear_arith)
                        requires
                            0 <= (sx as int) && (sx as int) < wi,
                            0 <= (sy as int) && (sy as int) < hi,
                    ;
                    assert(wi * hi == hi * wi) by (nonlinear_arith);
                }
                let idx: usize = (sy as usize) * (w as usize) + (sx as usize);
                let v = gray.pixels[idx];
                let num: u32 = MAX_RADIUS_HUNDREDTHS * (255 - v as u32);
                if num > MIN_RADIUS_HUNDREDTHS * 255 {
                    let rad: u32 = (num + 127) / 255;
                    out.push(
                        Circle { cx: sx as u32, cy: sy as u32, r_hundredths: rad },
                    );
                    proof {
                        assert(cell =~= seq![
                            Circle { cx: sx as u32, cy: sy as u32, r_hundredths: rad },
                        ]);
                    }
                } else {
                    proof {
                        assert(cell =~= Seq::<Circle>::empty());
                    }
                }
            } else {
                proof {
                    assert(cell =~= Seq::<Circle>::empty());
                }
            }
            proof {
                assert(row_circles(g, wi, hi, di, gy as int, gx as int) == cell + row_circles(
                    g,
                    wi,
                    hi,
                    di,
                    gy as int,
                    gx as int + 5,
                ));
            }
            gx = gx + DOT_SPACING;
        }
        proof {
            assert(row_circles(g, wi, hi, di, gy as int, gx as int) =~= Seq::<Circle>::empty());
            assert(out@ + Seq::<Circle>::empty() + rows_circles(g, wi, hi, di, gy as int + 5)
                =~= out@ + rows_circles(g, wi, hi, di, gy as int + 5));
        }
        gy = gy + DOT_SPACING;
    }
    proof {
        assert(rows_circles(g, wi, hi, di, gy as int) =~= Seq::<Circle>::empty());
        assert(out@ + Seq::<Circle>::empty() =~= out@);
    }
    out
}

/// What holds of every emitted halftone dot: it lies on the canvas, its
/// source pixel's exact radius exceeds the visibility floor, and its recorded
/// radius is that radius rounded to the hundredth, above the floor and at
/// most the maximum dot radius.
pub open spec fn dot_ok(g: Seq<u8>, w: int, h: int, c: Circle) -> bool {
    &&& c.cx < w
    &&& c.cy < h
    &&& MIN_RADIUS_HUNDREDTHS < c.r_hundredths <= MAX_RADIUS_HUNDREDTHS
    &&& dot_emitted(g[c.cy as int * w + c.cx as int] as int)
    &&& c.r_hundredths as int == radius_hundredths(g[c.cy as int * w + c.cx as int] as int)
}

/// Rounding keeps an emitted radius strictly between the visibility floor and
/// the maximum dot radius.
pub proof fn lemma_radius_bounds(v: int)
    requires
        0 <= v <= 255,
    ensures
        0 <= radius_hundredths(v) <= MAX_RADIUS_HUNDREDTHS as int,
        dot_emitted(v) ==> radius_hundredths(v) > MIN_RADIUS_HUNDREDTHS as int,
{
    let num = MAX_RADIUS_HUNDREDTHS as int * (255 - v);
    assert(0 <= MAX_RADIUS_HUNDREDTHS as int * (255 - v) <= 61200) by (nonlinear_arith)
        requires
            0 <= v <= 255,
    ;
    lemma_div_is_ordered(0, num + 127, 255);
    lemma_div_is_ordered(num + 127, 61327, 255);
    assert(61327int / 255 == 240);
    if dot_emitted(v) {
        assert(255 - v >= 54) by (nonlinear_arith)
            requires
                0 <= v <= 255,
                MAX_RADIUS_HUNDREDTHS as int * (255 - v) > MIN_RADIUS_HUNDREDTHS as int * 255,
        ;
        assert(MAX_RADIUS_HUNDREDTHS as int * (255 - v) >= 12960) by (nonlinear_arith)
            requires
                255 - v >= 54,
        ;
        lemma_div_is_ordered(13087, num + 127, 255);
        assert(13087int / 255 == 51);
    }
}

proof fn lemma_row_dots(g: Seq<u8>, w: int, h: int, d: int, gy: int, gx: int)
    requires
        0 <= w <= u32::MAX,
        0 <= h <= u32::MAX,
    ensures
        forall|k: int|
            0 <= k < row_circles(g, w, h, d, gy, gx).len() ==> dot_ok(
                g,
                w,
                h,
                #[trigger] row_circles(g, w, h, d, gy, gx)[k],
            ),
    decreases (d - gx + 4) / 5,
{
    if gx >= d {
    } else {
        lemma_row_dots(g, w, h, d, gy, gx + 5);
        let cell = cell_circle(g, w, h, gy, gx);
        let rest = row_circles(g, w, h, d, gy, gx + 5);
        let x = source_x(gx, gy, w);
        let y = source_y(gx, gy, h);
        if 0 <= x < w && 0 <= y < h {
            lemma_radius_bounds(g[y * w + x] as int);
        }
        assert forall|k: int| 0 <= k < row_circles(g, w, h, d, gy, gx).len() implies dot_ok(
            g,
            w,
            h,
            #[trigger] row_circles(g, w, h, d, gy, gx)[k],
        ) by {
            if k < cell.len() {
                assert(row_circles(g, w, h, d, gy, gx)[k] == cell[k]);
            } else {
                assert(row_circles(g, w, h, d, gy, gx)[k] == rest[k - cell.len()]);
            }
        }
    }
}

proof fn lemma_rows_dots(g: Seq<u8>, w: int, h: int, d: int, gy: int)
    requires
        0 <= w <= u32::MAX,
        0 <= h <= u32::MAX,
    ensures
        forall|k: int|
            0 <= k < rows_circles(g, w, h, d, gy).len() ==> dot_ok(
                g,
                w,
                h,
                #[trigger] rows_circles(g, w, h, d, gy)[k],
            ),
    decreases (d - gy + 4) / 5,
{
    if gy >= d {
    } else {
        lemma_row_dots(g, w, h, d, gy, -d);
        lemma_rows_dots(g, w, h, d, gy + 5);
        let row = row_circles(g, w, h, d, gy, -d);
        let rest = rows_circles(g, w, h, d, gy + 5);
        assert forall|k: int| 0 <= k < rows_circles(g, w, h, d, gy).len() implies dot_ok(
            g,
            w,
            h,
            #[trigger] rows_circles(g, w, h, d, gy)[k],
        ) by {
            if k < row.len() {
                assert(rows_circles(g, w, h, d, gy)[k] == row[k]);
            } else {
                assert(rows_circles(g, w, h, d, gy)[k] == rest[k - row.len()]);
            }
        }
    }
}

/// Every halftone dot lies on the canvas; its radius is exactly the radius of
/// its source pixel's gray value, above the visibility floor and at most the
/// maximum dot radius.
pub proof fn lemma_halftone_dots(g: Seq<u8>, w: int, h: int)
    requires
        0 <= w <= u32::MAX,
        0 <= h <= u32::MAX,
    ensures
        forall|k: int|
            0 <= k < halftone_spec(g, w, h).len() ==> dot_ok(
                g,
                w,
                h,
                #[trigger] halftone_spec(g, w, h)[k],
            ),
{
    lemma_rows_dots(g, w, h, diag_extent(w, h), -diag_extent(w, h));
}

/// On a uniform-gray canvas every halftone dot has one and the same radius:
/// that of the shared gray value; none is zero, and none reaches the maximum
/// dot size.
pub proof fn lemma_halftone_uniform_radius(g: Seq<u8>, w: int, h: int, v: u8)
    requires
        g.len() == w * h,
        0 <= w <= u32::MAX,
        0 <= h <= u32::MAX,
        forall|p: int| 0 <= p < g.len() ==> g[p] == v,
    ensures
        forall|k: int|
            0 <= k < halftone_spec(g, w, h).len()
                ==> (#[trigger] halftone_spec(g, w, h)[k]).r_hundredths as int
                == radius_hundredths(v as int),
        forall|k: int|
            0 <= k < halftone_spec(g, w, h).len() ==> MIN_RADIUS_HUNDREDTHS < (
            #[trigger] halftone_spec(g, w, h)[k]).r_hundredths <= MAX_RADIUS_HUNDREDTHS,
{
    lemma_halftone_dots(g, w, h);
    assert forall|k: int| 0 <= k < halftone_spec(g, w, h).len() implies (
    #[trigger] halftone_spec(g, w, h)[k]).r_hundredths as int == radius_hundredths(v as int) by {
        let c = halftone_spec(g, w, h)[k];
        assert((c.cy as int) * w + (c.cx as int) < h * w) by (nonlinear_arith)
            requires
                0 <= (c.cx as int) && (c.cx as int) < w,
                0 <= (c.cy as int) && (c.cy as int) < h,
        ;
        assert(w * h == h * w) by (nonlinear_arith);
        assert((c.cy as int) * w + (c.cx as int) >= 0) by (nonlinear_arith)
            requires
                0 <= (c.cx as int),
                0 <= (c.cy as int),
                0 <= w,
        ;
    }
}

/// The halftone document header: XML declaration, root element with the pixel
/// dimensions, and the white backing rectangle.
pub open spec fn halftone_header_bytes(w: u32, h: u32) -> Seq<u8> {
    "<?xml version=\"1.0\" encoding=\"UTF-8\"?>\n<svg xmlns=\"http://www.w3.org/2000/svg\" width=\"".spec_bytes()
        + dec_digits(w as int) + "\" height=\"".spec_bytes() + dec_digits(h as int)
        + "\" viewBox=\"0 0 ".spec_bytes() + dec_digits(w as int) + " ".spec_bytes() + dec_digits(
        h as int,
    ) + "\">\n<rect width=\"100%\" height=\"100%\" fill=\"white\"/>\n".spec_bytes()
}

/// One circle element, indented, with its radius written to two decimal
/// places, followed by a newline.
pub open spec fn circle_bytes(c: Circle) -> Seq<u8> {
    "  <circle cx=\"".spec_bytes() + dec_digits(c.cx as int) + "\" cy=\"".spec_bytes()
        + dec_digits(c.cy as int) + "\" r=\"".spec_bytes() + dec_digits(c.r_hundredths as int / 100)
        + seq![
        '.' as u8,
        (48 + (c.r_hundredths as int % 100) / 10) as u8,
        (48 + c.r_hundredths as int % 10) as u8,
    ] + "\" fill=\"#000\" />\n".spec_bytes()
}

/// The concatenation of the circle elements.
pub open spec fn circles_concat(cs: Seq<Circle>) -> Seq<u8>
    decreases cs.len(),
{
    if cs.len() == 0 {
        Seq::empty()
    } else {
        circles_concat(cs.drop_last()) + circle_bytes(cs.last())
    }
}

/// Assembles the halftone document: header with backing rectangle, the circle
/// elements in grid order, then the footer.
#[verifier::rlimit(100)]
pub fn compose_halftone_document(w: u32, h: u32, circles: &Vec<Circle>) -> (r: Vec<u8>)
    ensures
        r@ == halftone_header_bytes(w, h) + circles_concat(circles@) + footer_bytes(),
{
    let mut r = "<?xml version=\"1.0\" encoding=\"UTF-8\"?>\n<svg xmlns=\"http://www.w3.org/2000/svg\" width=\"".as_bytes_vec();
    let wd = u32_dec(w);
    let hd = u32_dec(h);
    push_bytes(&mut r, &wd);
    push_bytes(&mut r, &"\" height=\"".as_bytes_vec());
    push_bytes(&mut r, &hd);
    push_bytes(&mut r, &"\" viewBox=\"0 0 ".as_bytes_vec());
    push_bytes(&mut r, &wd);
    push_bytes(&mut r, &" ".as_bytes_vec());
    push_bytes(&mut r, &hd);
    push_bytes(
        &mut r,
        &"\">\n<rect width=\"100%\" height=\"100%\" fill=\"white\"/>\n".as_bytes_vec(),
    );
    let mut j: usize = 0;
    proof {
        assert(circles@.take(0) =~= Seq::<Circle>::empty());
        assert(r@ + circles_concat(circles@.take(0)) =~= r@);
        assert(r@ == halftone_header_bytes(w, h));
    }
    while j < circles.len()
        invariant
            j <= circles@.len(),
            r@ == halftone_header_bytes(w, h) + circles_concat(circles@.take(j as int)),
        decreases circles@.len() - j,
    {
        let cb = circle_element(&circles[j]);
        push_bytes(&mut r, &cb);
        proof {
            assert(circles@.take(j + 1).drop_last() =~= circles@.take(j as int));
            assert(circles@.take(j + 1).last() == circles@[j as int]);
            assert(r@ =~= halftone_header_bytes(w, h) + circles_concat(circles@.take(j + 1)));
        }
        j = j + 1;
    }
    proof {
        assert(circles@.take(circles@.len() as int) =~= circles@);
    }
    let f = crate::svg::document_footer();
    push_bytes(&mut r, &f);
    r
}

/// Serializes one circle element, indented and newline-terminated.
fn circle_element(c: &Circle) -> (v: Vec<u8>)
    ensures
        v@ == circle_bytes(*c),
{
    let mut v = "  <circle cx=\"".as_bytes_vec();
    let cxd = u32_dec(c.cx);
    push_bytes(&mut v, &cxd);
    push_bytes(&mut v, &"\" cy=\"".as_bytes_vec());
    let cyd = u32_dec(c.cy);
    push_bytes(&mut v, &cyd);
    push_bytes(&mut v, &"\" r=\"".as_bytes_vec());
    let whole = u32_dec(c.r_hundredths / 100);
    push_bytes(&mut v, &whole);
    v.push('.' as u8);
    v.push(48 + ((c.r_hundredths % 100) / 10) as u8);
    v.push(48 + (c.r_hundredths % 10) as u8);
    push_bytes(&mut v, &"\" fill=\"#000\" />\n".as_bytes_vec());
    proof {
        assert(v@ =~= circle_bytes(*c));
    }
    v
}

} // verus!
