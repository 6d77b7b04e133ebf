use blueprint2mod::blueprint::ImageBoundingBox;
use blueprint2mod::raster::{
    cumulative_histogram, gradient_percentiles, luma_of_rgba, mask_text_regions, row_bands, sort_ascending,
    GrayRaster, RgbaRaster,
};

fn text_box(x: u32, y: u32, width: u32, height: u32) -> ImageBoundingBox {
    ImageBoundingBox { x, y, width, height }
}

#[test]
fn mask_text_regions_padding_is_half_median_char_height() {
    // 100x100 transparent image; item height 20 -> pad 10.
    let img = RgbaRaster::new(100, 100);
    let boxes = vec![text_box(40, 40, 20, 20)];
    let rgba = mask_text_regions(img, &boxes);
    // Padded region: x=[30..70), y=[30..70).
    let inside = rgba.get_pixel(30, 30);
    let outside = rgba.get_pixel(20, 20);
    assert_eq!(inside.3, 255, "inside mask should be opaque");
    assert_eq!(outside.3, 0, "outside mask should be unmodified (alpha=0)");
}

#[test]
fn mask_text_fill_value_matches_border_median_not_white() {
    let img = RgbaRaster::filled(100, 100, (50, 50, 50, 255));
    let boxes = vec![text_box(40, 40, 20, 20)];
    let rgba = mask_text_regions(img, &boxes);
    let center = rgba.get_pixel(50, 50);
    assert!(
        center.0 < 100,
        "fill should match local background (~50), not white (255); got {}",
        center.0
    );
}

#[test]
fn mask_two_overlapping_boxes_both_filled() {
    let img = RgbaRaster::filled(100, 100, (200, 200, 200, 255));
    let boxes = vec![text_box(10, 10, 20, 10), text_box(60, 10, 20, 10)];
    let rgba = mask_text_regions(img, &boxes);
    assert_eq!(rgba.get_pixel(20, 15).3, 255, "first box center should be filled");
    assert_eq!(rgba.get_pixel(70, 15).3, 255, "second box center should be filled");
}

#[test]
fn mask_fill_is_exact_border_median_and_edges_are_kept() {
    let img = RgbaRaster::filled(100, 100, (50, 50, 50, 255));
    let boxes = vec![text_box(40, 40, 20, 20)];
    let rgba = mask_text_regions(img, &boxes);
    assert_eq!(rgba.get_pixel(50, 50), (50, 50, 50, 255));
    assert_eq!(rgba.get_pixel(69, 69), (50, 50, 50, 255));
    assert_eq!(rgba.get_pixel(70, 70), (50, 50, 50, 255));
}

#[test]
fn mask_skips_empty_boxes_and_keeps_image_without_boxes() {
    let img = RgbaRaster::new(10, 10);
    let rgba = mask_text_regions(img.clone(), &vec![]);
    assert_eq!(rgba, img);
    let rgba = mask_text_regions(img.clone(), &vec![text_box(3, 3, 0, 4)]);
    assert_eq!(rgba, img);
}

#[test]
fn put_and_get_pixel() {
    let mut img = RgbaRaster::new(3, 2);
    img.put_pixel(2, 1, (1, 2, 3, 4));
    assert_eq!(img.get_pixel(2, 1), (1, 2, 3, 4));
    assert_eq!(img.get_pixel(0, 0), (0, 0, 0, 0));
    assert_eq!(img.data.len(), 24);
}

#[test]
fn luma_weights() {
    assert_eq!(luma_of_rgba((255, 255, 255, 0)), 255);
    assert_eq!(luma_of_rgba((100, 0, 0, 255)), 29);
    assert_eq!(luma_of_rgba((0, 100, 0, 255)), 58);
    assert_eq!(luma_of_rgba((0, 0, 100, 255)), 11);
}

#[test]
fn sorting_orders_values() {
    assert_eq!(sort_ascending(vec![5, 1, 4, 1, 3]), vec![1, 1, 3, 4, 5]);
}

#[test]
fn percentiles_need_three_by_three() {
    let small = GrayRaster { width: 2, height: 5, data: vec![0; 10] };
    assert_eq!(gradient_percentiles(&small), None);
    let flat = GrayRaster { width: 3, height: 3, data: vec![7; 9] };
    assert_eq!(gradient_percentiles(&flat), Some((0, 0)));
}

#[test]
fn percentiles_of_a_single_interior_gradient() {
    // One interior pixel (1,1): gx = p(2,1) - p(0,1) = 30, gy = p(1,2) - p(1,0) = 40.
    let img = GrayRaster { width: 3, height: 3, data: vec![0, 0, 0, 0, 0, 30, 0, 40, 0] };
    assert_eq!(gradient_percentiles(&img), Some((2500, 2500)));
}

#[test]
fn cumulative_histogram_counts_levels_at_most() {
    let gray = GrayRaster { width: 3, height: 2, data: vec![0, 5, 5, 200, 255, 5] };
    let h = cumulative_histogram(&gray);
    assert_eq!(h.len(), 256);
    assert_eq!(h[0], 1);
    assert_eq!(h[4], 1);
    assert_eq!(h[5], 4);
    assert_eq!(h[199], 4);
    assert_eq!(h[200], 5);
    assert_eq!(h[254], 5);
    assert_eq!(h[255], 6);
}

#[test]
fn row_bands_cover_rows_in_order() {
    assert_eq!(row_bands(10, 4), vec![(0, 3), (3, 6), (6, 9), (9, 10)]);
    assert_eq!(row_bands(10, 0), vec![(0, 10)]);
    assert_eq!(row_bands(3, 8), vec![(0, 1), (1, 2), (2, 3)]);
    assert_eq!(row_bands(9, 4), vec![(0, 3), (3, 6), (6, 9)]);
}
