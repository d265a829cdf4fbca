use walldots::config::{BwMode, Rgb};
use walldots::grid::{cell_color, cell_pixels, cell_span, grid_rows, Raster};
use walldots::preprocess::apply;

fn luminance(r: u8, g: u8, b: u8) -> f32 {
    (0.2126 * r as f32 + 0.7152 * g as f32 + 0.0722 * b as f32) / 255.0
}

#[test]
fn rows_keep_cells_square() {
    assert_eq!(grid_rows(4, 40, 40), 4);
    assert_eq!(grid_rows(100, 40, 20), 50);
    assert_eq!(grid_rows(3, 4, 2), 2); // 1.5 rounds up
    assert_eq!(grid_rows(5, 100, 1), 1); // never below one row
    assert_eq!(grid_rows(u32::MAX, 1, u32::MAX), u32::MAX);
    // No width: an infinite quotient, or one row when there is nothing to divide.
    assert_eq!(grid_rows(4, 0, 5), u32::MAX);
    assert_eq!(grid_rows(4, 0, 0), 1);
}

#[test]
fn spans_tile_the_side() {
    let n = 7;
    let len = 40;
    let mut prev_end = 0;
    for i in 0..n {
        let (s, e) = cell_span(i, n, len);
        assert_eq!(s, prev_end);
        assert!(s < e);
        prev_end = e;
    }
    assert_eq!(prev_end, len);
    // More cells than pixels: each cell still holds a pixel.
    assert_eq!(cell_span(2, 5, 3), (1, 2));
    assert_eq!(cell_span(4, 5, 3), (2, 3));
    assert_eq!(cell_span(0, 3, 0), (0, 0));
}

#[test]
fn cell_pixels_row_by_row() {
    let mut img = Raster::from_pixel(3, 2, (0, 0, 0));
    for (k, p) in img.pixels.iter_mut().enumerate() {
        *p = (k as u8, 0, 0);
    }
    assert_eq!(img.get_pixel(2, 1), (5, 0, 0));
    let region = cell_pixels(&img, 1, 3, 0, 2);
    assert_eq!(region, vec![(1, 0, 0), (2, 0, 0), (4, 0, 0), (5, 0, 0)]);
    assert!(cell_pixels(&img, 1, 1, 0, 2).is_empty());
}

#[test]
fn cell_color_is_dominant_or_black() {
    assert_eq!(cell_color(vec![]), Rgb { r: 0, g: 0, b: 0 });
    let px = vec![(200, 10, 10), (205, 15, 12), (10, 10, 220)];
    assert_eq!(cell_color(px), Rgb { r: 202, g: 12, b: 11 });
}

#[test]
fn grayscale_makes_channels_equal() {
    let mut img = Raster::from_pixel(2, 2, (120, 200, 40));
    let gray: Vec<u8> = img
        .pixels
        .iter()
        .map(|&(r, g, b)| (luminance(r, g, b) * 255.0).round() as u8)
        .collect();
    apply(&mut img, BwMode::Grayscale, &gray, &vec![]);
    for p in &img.pixels {
        assert_eq!(p.0, p.1);
        assert_eq!(p.1, p.2);
    }
}

#[test]
fn threshold_is_binary() {
    let mut img = Raster::from_pixel(2, 1, (0, 0, 0));
    img.pixels[0] = (10, 10, 10);
    img.pixels[1] = (240, 240, 240);
    let bright: Vec<bool> = img.pixels.iter().map(|&(r, g, b)| luminance(r, g, b) >= 0.5).collect();
    apply(&mut img, BwMode::Threshold, &vec![], &bright);
    assert_eq!(img.get_pixel(0, 0).0, 0);
    assert_eq!(img.get_pixel(1, 0).0, 255);
}

#[test]
fn colour_mode_leaves_the_image() {
    let mut img = Raster::from_pixel(2, 1, (1, 2, 3));
    apply(&mut img, BwMode::Color, &vec![], &vec![]);
    assert_eq!(img.pixels, vec![(1, 2, 3), (1, 2, 3)]);
}
