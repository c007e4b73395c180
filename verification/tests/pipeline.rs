use vectorize::color::{
    Centroid, LabPoint, cluster_request, nearest_centroid, plan_color_layers,
};
use vectorize::halftone::{compose_halftone_document, halftone_circles};
use vectorize::lineart::build_lineart_mask;
use vectorize::raster::{GrayImage, Rgba, RgbaImage};
use vectorize::svg::{
    ToneLayer, assemble_lineart_document, compose_document, layer_bodies, sort_layers_desc,
};
use vectorize::tone::{plan_tone_layers, tone_boundaries};
use vectorize::{GenAction, GenError, TraceMode, generation_action, trace_corner_tenths, trace_speckle_size};

fn gray(width: u32, height: u32, pixels: Vec<u8>) -> GrayImage {
    assert_eq!(pixels.len(), (width * height) as usize);
    GrayImage { width, height, pixels }
}

fn header(w: u32, h: u32) -> String {
    format!(
        "<?xml version=\"1.0\" encoding=\"UTF-8\" standalone=\"no\"?>\n<svg version=\"1.1\" xmlns=\"http://www.w3.org/2000/svg\" width=\"{}\" height=\"{}\" viewBox=\"0 0 {} {}\">\n",
        w, h, w, h
    )
}

#[test]
fn tone_boundaries_exact() {
    assert_eq!(tone_boundaries(2), vec![0, 127, 255]);
    assert_eq!(tone_boundaries(4), vec![0, 63, 127, 191, 255]);
    assert_eq!(tone_boundaries(1), vec![0, 255]);
}

#[test]
fn tone_bands_partition_every_value() {
    for n in [1u32, 2, 3, 5, 7, 16, 255] {
        let b = tone_boundaries(n);
        assert_eq!(b[0], 0);
        assert_eq!(b[n as usize], 255);
        for v in 0u8..255 {
            let holders = (0..n as usize)
                .filter(|&i| b[i] <= v && v < b[i + 1])
                .count();
            assert_eq!(holders, 1, "value {} with {} bands", v, n);
        }
    }
}

#[test]
fn solid_white_tone_collapse_gives_empty_document() {
    // a fully opaque solid white canvas: both bands collapse to skips
    let img = gray(10, 10, vec![255u8; 100]);
    let jobs = plan_tone_layers(&img, 2);
    assert_eq!(jobs.len(), 0);
    let doc = compose_document(10, 10, &Vec::new());
    let expected = format!("{}</svg>", header(10, 10));
    assert_eq!(String::from_utf8(doc).unwrap(), expected);
}

#[test]
fn tone_plan_gradient_two_bands() {
    // top half dark, bottom half light: one mask per band, in band order
    let mut px = vec![30u8; 200];
    px.extend(vec![200u8; 200]);
    let img = gray(20, 20, px);
    let jobs = plan_tone_layers(&img, 2);
    assert_eq!(jobs.len(), 2);
    assert_eq!(jobs[0].tone, 63);
    assert_eq!(jobs[0].fg_count, 200);
    assert_eq!(jobs[1].tone, 191);
    assert_eq!(jobs[1].fg_count, 200);
    assert!(jobs[0].mask[0..200].iter().all(|&m| m == 0));
    assert!(jobs[0].mask[200..].iter().all(|&m| m == 255));
}

#[test]
fn tone_plan_noise_floor_skips_sparse_band() {
    // only 10 dark pixels: below the 50-pixel noise floor, no dark layer
    let mut px = vec![200u8; 390];
    px.extend(vec![30u8; 10]);
    let img = gray(20, 20, px);
    let jobs = plan_tone_layers(&img, 2);
    assert_eq!(jobs.len(), 1);
    assert_eq!(jobs[0].tone, 191);
}

#[test]
fn tone_plan_near_white_band_skipped() {
    // all pixels in the last of 16 bands, whose midpoint 247 is near-white
    let img = gray(20, 20, vec![250u8; 400]);
    let jobs = plan_tone_layers(&img, 16);
    assert_eq!(jobs.len(), 0);
}

#[test]
fn lineart_black_square_mask() {
    // a 2x2 black square on a 4x4 white canvas: exactly those 4 pixels are
    // foreground under the global threshold
    let mut px = vec![255u8; 16];
    for y in 1..3 {
        for x in 1..3 {
            px[y * 4 + x] = 0;
        }
    }
    let img = gray(4, 4, px);
    let (mask, count) = build_lineart_mask(&img);
    assert_eq!(count, 4);
    for y in 0..4 {
        for x in 0..4 {
            let expected = if (1..3).contains(&x) && (1..3).contains(&y) { 0 } else { 255 };
            assert_eq!(mask[y * 4 + x], expected);
        }
    }
}

#[test]
fn lineart_document_keeps_tracer_fill() {
    // a successful trace yields one layer with no recoloring
    let traced = b"<?xml?><svg v=\"1\"><path fill=\"black\" d=\"M1 1\"/></svg>".to_vec();
    let doc = assemble_lineart_document(4, 4, &traced).expect("well-formed trace");
    let expected = format!("{}<path fill=\"black\" d=\"M1 1\"/></svg>", header(4, 4));
    assert_eq!(String::from_utf8(doc).unwrap(), expected);
}

#[test]
fn lineart_trace_failure_message() {
    assert_eq!(GenError::TraceFailed.message(), "Potrace failed for lineart");
}

#[test]
fn lineart_malformed_trace_yields_no_document() {
    // malformed tracer output is a trace failure: fatal for line-art, so no
    // document comes back at all
    assert_eq!(assemble_lineart_document(4, 4, &b"not markup".to_vec()), None);
}

#[test]
fn halftone_uniform_mid_gray_uniform_radius() {
    // uniform mid-gray canvas: many dots, all of one radius, none zero, all
    // below the maximum dot size
    let img = gray(50, 50, vec![128u8; 2500]);
    let circles = halftone_circles(&img);
    assert!(circles.len() > 10);
    // radius 2.4 * (1 - 128/255) = 1.1953, written to two decimals as 1.20
    let expected_r = (240 * (255 - 128) + 127) / 255; // hundredths of a pixel
    assert_eq!(expected_r, 120);
    for c in &circles {
        assert_eq!(c.r_hundredths, expected_r);
        assert!(c.r_hundredths > 0);
        assert!(c.r_hundredths < 300);
        assert!(c.cx < 50 && c.cy < 50);
    }
}

#[test]
fn halftone_emission_threshold_exact() {
    // gray 201: exact radius 2.4 * 54/255 = 0.5082 exceeds half a pixel, so
    // dots are emitted, written as 0.51; gray 202 falls at 0.4988 and yields
    // none
    let img = gray(50, 50, vec![201u8; 2500]);
    let circles = halftone_circles(&img);
    assert!(circles.len() > 10);
    for c in &circles {
        assert_eq!(c.r_hundredths, 51);
    }
    let img2 = gray(50, 50, vec![202u8; 2500]);
    assert_eq!(halftone_circles(&img2).len(), 0);
}

#[test]
fn halftone_white_canvas_has_no_dots() {
    let img = gray(50, 50, vec![255u8; 2500]);
    let circles = halftone_circles(&img);
    assert_eq!(circles.len(), 0);
    let doc = compose_halftone_document(50, 50, &circles);
    let text = String::from_utf8(doc).unwrap();
    assert!(text.starts_with("<?xml version=\"1.0\" encoding=\"UTF-8\"?>\n<svg xmlns="));
    assert!(text.contains("<rect width=\"100%\" height=\"100%\" fill=\"white\"/>\n"));
    assert!(text.ends_with("</svg>"));
    assert!(!text.contains("<circle"));
}

#[test]
fn halftone_document_writes_radius_two_decimals() {
    let circles = vec![vectorize::halftone::Circle { cx: 7, cy: 9, r_hundredths: 120 }];
    let doc = compose_halftone_document(3, 3, &circles);
    let text = String::from_utf8(doc).unwrap();
    assert!(text.contains("  <circle cx=\"7\" cy=\"9\" r=\"1.20\" fill=\"#000\" />\n"));
}

#[test]
fn nearest_centroid_first_wins_ties() {
    let cents = vec![
        LabPoint { l: 0, a: 0, b: 0 },
        LabPoint { l: 2000, a: 0, b: 0 },
        LabPoint { l: 0, a: 0, b: 0 },
    ];
    // exact tie between index 0 and index 2: the first wins
    assert_eq!(nearest_centroid(&cents, &LabPoint { l: 0, a: 0, b: 0 }), 0);
    // equidistant between 0 and 1: the first wins
    assert_eq!(nearest_centroid(&cents, &LabPoint { l: 1000, a: 0, b: 0 }), 0);
    assert_eq!(nearest_centroid(&cents, &LabPoint { l: 1800, a: 0, b: 0 }), 1);
}

#[test]
fn nearest_centroid_reproducible() {
    let cents = vec![
        LabPoint { l: 10, a: -5, b: 7 },
        LabPoint { l: -3, a: 14, b: 2 },
    ];
    let p = LabPoint { l: 4, a: 4, b: 4 };
    let first = nearest_centroid(&cents, &p);
    for _ in 0..10 {
        assert_eq!(nearest_centroid(&cents, &p), first);
    }
}

#[test]
fn cluster_request_fails_without_visible_pixels() {
    let img = RgbaImage {
        width: 2,
        height: 2,
        pixels: vec![Rgba { r: 9, g: 9, b: 9, a: 20 }; 4],
    };
    let r = cluster_request(&img, 3);
    assert!(matches!(r, Err(GenError::NoVisiblePixels)));
    // the failure does not depend on the requested count
    assert!(matches!(cluster_request(&img, 0), Err(GenError::NoVisiblePixels)));
    assert_eq!(
        GenError::NoVisiblePixels.message(),
        "No visible pixels found for color quantization"
    );
}

#[test]
fn cluster_request_caps_cluster_count() {
    let mut pixels = vec![Rgba { r: 1, g: 2, b: 3, a: 255 }; 3];
    pixels.push(Rgba { r: 0, g: 0, b: 0, a: 0 });
    let img = RgbaImage { width: 2, height: 2, pixels };
    let (vis, k) = cluster_request(&img, 5).unwrap();
    assert_eq!(vis.len(), 3);
    assert_eq!(k, 3);
    let (_, k2) = cluster_request(&img, 2).unwrap();
    assert_eq!(k2, 2);
    let (_, k0) = cluster_request(&img, 0).unwrap();
    assert_eq!(k0, 0);
}

#[test]
fn color_plan_skips_near_white_and_empty_masks() {
    // three visible dark pixels, one transparent; a dark centroid and a
    // near-white centroid: only the dark centroid is materialized
    let pixels = vec![
        Rgba { r: 200, g: 30, b: 30, a: 255 },
        Rgba { r: 200, g: 30, b: 30, a: 255 },
        Rgba { r: 200, g: 30, b: 30, a: 255 },
        Rgba { r: 0, g: 0, b: 0, a: 0 },
    ];
    let img = RgbaImage { width: 2, height: 2, pixels };
    let red_lab = LabPoint { l: 45000, a: 60000, b: 35000 };
    let white_lab = LabPoint { l: 99000, a: 0, b: 0 };
    let labs = vec![red_lab, red_lab, red_lab, white_lab];
    let cents = vec![
        Centroid { lab: red_lab, red: 200, green: 30, blue: 30 },
        Centroid { lab: white_lab, red: 250, green: 250, blue: 250 },
    ];
    let jobs = plan_color_layers(&img, &labs, &cents);
    assert_eq!(jobs.len(), 1);
    assert_eq!(jobs[0].index, 0);
    assert_eq!(jobs[0].fg_count, 3);
    assert_eq!(jobs[0].mask, vec![0, 0, 0, 255]);
    assert_eq!((jobs[0].red, jobs[0].green, jobs[0].blue), (200, 30, 30));
}

#[test]
fn tracer_parameters_per_mode() {
    assert_eq!(trace_speckle_size(TraceMode::Color), 2);
    assert_eq!(trace_speckle_size(TraceMode::Tone), 8);
    assert_eq!(trace_speckle_size(TraceMode::LineArt), 10);
    assert_eq!(trace_corner_tenths(TraceMode::Color), Some(8));
    assert_eq!(trace_corner_tenths(TraceMode::Tone), Some(10));
    assert_eq!(trace_corner_tenths(TraceMode::LineArt), None);
}

#[test]
fn generation_skipped_when_output_exists() {
    assert!(matches!(generation_action(true), GenAction::Skip));
    assert!(matches!(generation_action(false), GenAction::Generate));
}

#[test]
fn tone_layers_sorted_descending() {
    let layers = vec![
        ToneLayer { tone: 50, body: b"dark".to_vec() },
        ToneLayer { tone: 200, body: b"light".to_vec() },
        ToneLayer { tone: 120, body: b"mid".to_vec() },
    ];
    let sorted = sort_layers_desc(layers);
    let tones: Vec<u8> = sorted.iter().map(|l| l.tone).collect();
    assert_eq!(tones, vec![200, 120, 50]);
    let bodies = layer_bodies(&sorted);
    assert_eq!(bodies[0], b"light".to_vec());
    assert_eq!(bodies[2], b"dark".to_vec());
    let doc = compose_document(5, 6, &bodies);
    let expected = format!("{}light\nmid\ndark\n</svg>", header(5, 6));
    assert_eq!(String::from_utf8(doc).unwrap(), expected);
}
