use kmeans_colors::get_kmeans;
use palette::{FromColor, IntoColor, Lab, Srgb};
use vectorize::color::{Centroid, LabPoint, cluster_request, plan_color_layers};
use vectorize::raster::{Rgba, RgbaImage};

const SCALE: f32 = 1000.0;

fn to_lab(p: &Rgba) -> Lab {
    Srgb::new(p.r as f32 / 255.0, p.g as f32 / 255.0, p.b as f32 / 255.0).into_color()
}

fn lab_point(l: Lab) -> LabPoint {
    LabPoint {
        l: (l.l * SCALE) as i32,
        a: (l.a * SCALE) as i32,
        b: (l.b * SCALE) as i32,
    }
}

fn centroid(l: &Lab) -> Centroid {
    let srgb = Srgb::from_color(*l);
    Centroid {
        lab: lab_point(*l),
        red: (srgb.red * 255.0) as u8,
        green: (srgb.green * 255.0) as u8,
        blue: (srgb.blue * 255.0) as u8,
    }
}

#[test]
fn solid_color_image_yields_one_full_layer() {
    let pixels = vec![Rgba { r: 200, g: 30, b: 30, a: 255 }; 25];
    let img = RgbaImage { width: 5, height: 5, pixels };
    let (vis, k) = cluster_request(&img, 1).unwrap();
    assert_eq!(vis.len(), 25);
    assert_eq!(k, 1);
    let buf: Vec<Lab> = vis.iter().map(to_lab).collect();
    let result = get_kmeans(k, 10, 0.005, false, &buf, 12345);
    assert_eq!(result.centroids.len(), 1);
    let cents: Vec<Centroid> = result.centroids.iter().map(centroid).collect();
    let labs: Vec<LabPoint> = img.pixels.iter().map(|p| lab_point(to_lab(p))).collect();
    let jobs = plan_color_layers(&img, &labs, &cents);
    assert_eq!(jobs.len(), 1);
    assert_eq!(jobs[0].index, 0);
    assert_eq!(jobs[0].fg_count, 25);
    // the centroid of a solid image is that color, so the derived display
    // color comes back out (the Lab round trip may be off by a unit)
    assert!((jobs[0].red as i32 - 200).abs() <= 2);
    assert!((jobs[0].green as i32 - 30).abs() <= 2);
    assert!((jobs[0].blue as i32 - 30).abs() <= 2);
}

#[test]
fn two_color_image_yields_two_disjoint_layers() {
    let mut pixels = vec![Rgba { r: 200, g: 30, b: 30, a: 255 }; 15];
    pixels.extend(vec![Rgba { r: 20, g: 40, b: 180, a: 255 }; 10]);
    let img = RgbaImage { width: 5, height: 5, pixels };
    let (vis, k) = cluster_request(&img, 2).unwrap();
    assert_eq!(k, 2);
    let buf: Vec<Lab> = vis.iter().map(to_lab).collect();
    let result = get_kmeans(k, 10, 0.005, false, &buf, 12345);
    assert!(result.centroids.len() >= 1 && result.centroids.len() <= 2);
    let cents: Vec<Centroid> = result.centroids.iter().map(centroid).collect();
    let labs: Vec<LabPoint> = img.pixels.iter().map(|p| lab_point(to_lab(p))).collect();
    let jobs = plan_color_layers(&img, &labs, &cents);
    assert_eq!(jobs.len(), 2);
    let mut counts: Vec<usize> = jobs.iter().map(|j| j.fg_count).collect();
    counts.sort();
    assert_eq!(counts, vec![10, 15]);
    // the two masks are disjoint and cover all 25 pixels
    for p in 0..25 {
        let fg = jobs.iter().filter(|j| j.mask[p] == 0).count();
        assert_eq!(fg, 1);
    }
}

#[test]
fn repeated_clustering_is_reproducible() {
    // same pixels, same seed, same iteration cap: the same centroids
    let mut pixels = vec![Rgba { r: 10, g: 200, b: 60, a: 255 }; 12];
    pixels.extend(vec![Rgba { r: 240, g: 220, b: 10, a: 255 }; 13]);
    let img = RgbaImage { width: 5, height: 5, pixels };
    let (vis, k) = cluster_request(&img, 2).unwrap();
    let buf: Vec<Lab> = vis.iter().map(to_lab).collect();
    let a = get_kmeans(k, 10, 0.005, false, &buf, 12345);
    let b = get_kmeans(k, 10, 0.005, false, &buf, 12345);
    let pa: Vec<LabPoint> = a.centroids.iter().map(|c| lab_point(*c)).collect();
    let pb: Vec<LabPoint> = b.centroids.iter().map(|c| lab_point(*c)).collect();
    assert_eq!(pa.len(), pb.len());
    for (x, y) in pa.iter().zip(pb.iter()) {
        assert_eq!((x.l, x.a, x.b), (y.l, y.a, y.b));
    }
}
