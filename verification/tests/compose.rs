use starbreaker_ui::compose::bounds::{
    crop_to_nontransparent_bounds, expand_nontransparent_bounds_to_target, nontransparent_bounds,
};
use starbreaker_ui::compose::brand::{brand_slug_from_ir, node_brand_slug};
use starbreaker_ui::compose::matte::{clear_border_matte, matte_stats};
use starbreaker_ui::json::Json;

fn image(width: usize, height: usize, fill: impl Fn(usize, usize) -> [u8; 4]) -> Vec<u8> {
    let mut data = Vec::new();
    for y in 0..height {
        for x in 0..width {
            data.extend_from_slice(&fill(x, y));
        }
    }
    data
}

fn pixel(data: &[u8], width: usize, x: usize, y: usize) -> [u8; 4] {
    let i = 4 * (y * width + x);
    [data[i], data[i + 1], data[i + 2], data[i + 3]]
}

#[test]
fn sparse_line_art_is_not_a_dominant_matte() {
    let img = image(10, 10, |x, _| if x == 5 { [0, 0, 0, 255] } else { [0, 0, 0, 0] });
    let stats = matte_stats(&img);
    assert_eq!(stats.transparent, 90);
    assert_eq!(stats.opaque, 10);
    assert_eq!(stats.matte, Some(((0, 0, 0), 10)));
}

#[test]
fn dominant_matte_touching_the_edge_is_cleared() {
    let img = image(10, 10, |_, y| if y < 9 { [1, 2, 3, 255] } else { [0, 0, 0, 0] });
    let stats = matte_stats(&img);
    assert_eq!(stats.transparent, 10);
    assert_eq!(stats.opaque, 90);
    assert_eq!(stats.matte, Some(((1, 2, 3), 90)));
    let out = clear_border_matte(&img, 10, 10, (1, 2, 3));
    assert_eq!(pixel(&out, 10, 0, 0), [0, 0, 0, 0]);
    assert_eq!(pixel(&out, 10, 4, 4), [0, 0, 0, 0]);
    assert_eq!(pixel(&out, 10, 9, 9), [0, 0, 0, 0]);
}

#[test]
fn enclosed_matte_and_other_colours_are_kept() {
    // A ring of another colour encloses a matte pixel in the centre.
    let img = image(5, 5, |x, y| {
        if x == 2 && y == 2 {
            [9, 9, 9, 255]
        } else if (1..=3).contains(&x) && (1..=3).contains(&y) {
            [200, 0, 0, 255]
        } else {
            [9, 9, 9, 255]
        }
    });
    let out = clear_border_matte(&img, 5, 5, (9, 9, 9));
    assert_eq!(pixel(&out, 5, 0, 0), [0, 0, 0, 0]);
    assert_eq!(pixel(&out, 5, 4, 2), [0, 0, 0, 0]);
    assert_eq!(pixel(&out, 5, 1, 1), [200, 0, 0, 255]);
    assert_eq!(pixel(&out, 5, 2, 2), [9, 9, 9, 255]);
    // Clearing again changes nothing.
    assert_eq!(clear_border_matte(&out, 5, 5, (9, 9, 9)), out);
}

#[test]
fn empty_image_has_no_matte() {
    let stats = matte_stats(&[]);
    assert_eq!(stats.opaque, 0);
    assert_eq!(stats.matte, None);
    assert!(clear_border_matte(&[], 0, 7, (0, 0, 0)).is_empty());
}

#[test]
fn visible_bounds_are_tight() {
    let img = image(4, 4, |x, y| match (x, y) {
        (1, 1) => [10, 20, 30, 255],
        (2, 2) => [40, 50, 60, 128],
        _ => [7, 7, 7, 0],
    });
    assert_eq!(nontransparent_bounds(&img, 4, 4), Some((1, 1, 2, 2)));
    assert_eq!(nontransparent_bounds(&image(3, 2, |_, _| [1, 1, 1, 0]), 3, 2), None);
}

#[test]
fn visible_part_is_cropped_and_scaled_to_the_target() {
    let img = image(4, 4, |x, y| match (x, y) {
        (1, 1) => [10, 20, 30, 255],
        (2, 1) => [11, 21, 31, 255],
        (1, 2) => [12, 22, 32, 255],
        (2, 2) => [40, 50, 60, 128],
        _ => [0, 0, 0, 0],
    });
    // Scaling to the crop's own size copies the crop.
    let (same, w, h) = expand_nontransparent_bounds_to_target(img.clone(), 4, 4, 2, 2);
    assert_eq!((w, h), (2, 2));
    assert_eq!(same, vec![10, 20, 30, 255, 11, 21, 31, 255, 12, 22, 32, 255, 40, 50, 60, 128]);
    // A larger target is filled by the scaled crop.
    let (scaled, w, h) = expand_nontransparent_bounds_to_target(img, 4, 4, 8, 0);
    assert_eq!((w, h), (8, 1));
    assert_eq!(scaled.len(), 32);
}

#[test]
fn crop_keeps_the_visible_rectangle() {
    let img = image(3, 3, |x, y| match (x, y) {
        (1, 0) => [1, 2, 3, 255],
        (1, 1) => [4, 5, 6, 0],
        _ => [0, 0, 0, 0],
    });
    assert_eq!(crop_to_nontransparent_bounds(&img, 3, 3), Some((vec![1, 2, 3, 255], 1, 1)));
    let full = image(2, 1, |_, _| [9, 9, 9, 9]);
    assert_eq!(crop_to_nontransparent_bounds(&full, 2, 1), None);
    assert_eq!(crop_to_nontransparent_bounds(&[], 0, 0), None);
}

#[test]
fn images_without_a_crop_come_back_unchanged() {
    let full = image(2, 2, |_, _| [5, 5, 5, 255]);
    assert_eq!(expand_nontransparent_bounds_to_target(full.clone(), 2, 2, 9, 9), (full, 2, 2));
    let clear = image(2, 2, |_, _| [0, 0, 0, 0]);
    assert_eq!(expand_nontransparent_bounds_to_target(clear.clone(), 2, 2, 9, 9), (clear, 2, 2));
}

#[test]
fn brand_slugs_of_nodes_and_documents() {
    let node = Json::Object(vec![("__BrandIdentifier".to_string(), Json::String("S_Drak-Corp".to_string()))]);
    assert_eq!(node_brand_slug(&node, "rsi"), "drakcorp");
    assert_eq!(node_brand_slug(&Json::Null, "S_RSI"), "rsi");
    assert_eq!(brand_slug_from_ir(Some("manufacturer: s_Aegs "), "rsi"), "aegs");
    // The `s_` prefix is removed before lower-casing.
    assert_eq!(brand_slug_from_ir(Some("canvas:S_Misc"), "rsi"), "s_misc");
    assert_eq!(brand_slug_from_ir(None, "Drake Amber"), "drakeamber");
}
