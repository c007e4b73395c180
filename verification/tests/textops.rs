use vectorize::svg::{extract_svg_body, process_traced, recolor_body};
use vectorize::text::{find_sub, hex_color_bytes, replace_all_bytes, rfind_sub, u32_dec};

fn bytes(s: &str) -> Vec<u8> {
    s.as_bytes().to_vec()
}

#[test]
fn decimal_digits_exact() {
    assert_eq!(u32_dec(0), bytes("0"));
    assert_eq!(u32_dec(7), bytes("7"));
    assert_eq!(u32_dec(10), bytes("10"));
    assert_eq!(u32_dec(10503), bytes("10503"));
    assert_eq!(u32_dec(4294967295), bytes("4294967295"));
}

#[test]
fn hex_color_exact() {
    assert_eq!(hex_color_bytes(0, 15, 255), bytes("#000fff"));
    assert_eq!(hex_color_bytes(200, 30, 30), bytes("#c81e1e"));
    assert_eq!(hex_color_bytes(255, 255, 255), bytes("#ffffff"));
}

#[test]
fn find_first_and_last_occurrence() {
    let s = bytes("aabcabca");
    let pat = bytes("abc");
    assert_eq!(find_sub(&s, &pat, 0), Some(1));
    assert_eq!(find_sub(&s, &pat, 2), Some(4));
    assert_eq!(find_sub(&s, &pat, 5), None);
    assert_eq!(rfind_sub(&s, &pat), Some(4));
    assert_eq!(rfind_sub(&s, &bytes("zz")), None);
}

#[test]
fn replace_all_leftmost_nonoverlapping() {
    let s = bytes("aaa");
    assert_eq!(replace_all_bytes(&s, &bytes("aa"), &bytes("b")), bytes("ba"));
    let s2 = bytes("x-x-x");
    assert_eq!(replace_all_bytes(&s2, &bytes("x"), &bytes("yy")), bytes("yy-yy-yy"));
    let s3 = bytes("nothing here");
    assert_eq!(replace_all_bytes(&s3, &bytes("zz"), &bytes("q")), bytes("nothing here"));
}

#[test]
fn recolor_rewrites_both_default_fills_only() {
    let body = bytes("<path fill=\"black\" d=\"M0 0\"/><path fill=\"#000000\"/><path fill=\"red\"/>");
    let out = recolor_body(&body, 255, 0, 64);
    assert_eq!(
        out,
        bytes("<path fill=\"#ff0040\" d=\"M0 0\"/><path fill=\"#ff0040\"/><path fill=\"red\"/>")
    );
}

#[test]
fn extract_body_between_markers() {
    let content = bytes(
        "<?xml version=\"1.0\"?>\n<svg xmlns=\"x\" width=\"4\">\n<path d=\"M0 0\"/>\n</svg>\n",
    );
    let body = extract_svg_body(&content).expect("markers present");
    assert_eq!(body, bytes("\n<path d=\"M0 0\"/>\n"));
}

#[test]
fn extract_body_missing_markers() {
    assert_eq!(extract_svg_body(&bytes("no svg content at all")), None);
    assert_eq!(extract_svg_body(&bytes("<svg with no close")), None);
    // the only closing tag stands before the opening one: malformed
    assert_eq!(extract_svg_body(&bytes("</svg><svg >")), None);
}

#[test]
fn process_traced_recolors_extracted_body() {
    let content = bytes("<svg a=\"1\"><g fill=\"black\"/></svg>");
    let out = process_traced(&content, 1, 2, 3).expect("well-formed");
    assert_eq!(out, bytes("<g fill=\"#010203\"/>"));
    assert_eq!(process_traced(&bytes("garbage"), 1, 2, 3), None);
}
