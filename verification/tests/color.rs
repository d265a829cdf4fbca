use walldots::color::dominant_color;
use walldots::config::Rgb;

#[test]
fn dominant_picks_majority() {
    // Three reds, one blue: the dominant colour is red.
    let px = vec![(200, 10, 10), (210, 20, 5), (205, 15, 12), (10, 10, 220)];
    let c = dominant_color(px, 4).unwrap();
    assert!(c.r > 150 && c.b < 80);
}

#[test]
fn dominant_empty_is_none() {
    let px: Vec<(u8, u8, u8)> = vec![];
    assert!(dominant_color(px, 4).is_none());
}

#[test]
fn dominant_is_mean_of_winning_bucket() {
    // With 4 bits, (200,10,10) and (205,15,12) share bucket (12,0,0);
    // (210,20,5) is alone in (13,1,0).
    let px = vec![(200, 10, 10), (210, 20, 5), (205, 15, 12)];
    let c = dominant_color(px, 4).unwrap();
    assert_eq!(c, Rgb { r: 202, g: 12, b: 11 });
}

#[test]
fn dominant_tie_goes_to_lowest_bucket() {
    let px = vec![(255, 255, 255), (0, 0, 0)];
    assert_eq!(dominant_color(px, 4).unwrap(), Rgb { r: 0, g: 0, b: 0 });
    let px = vec![(0, 0, 9), (0, 9, 0)];
    assert_eq!(dominant_color(px, 8).unwrap(), Rgb { r: 0, g: 0, b: 9 });
}

#[test]
fn dominant_with_many_bits_keeps_exact_colours() {
    // Bits above 8 count as 8: every distinct colour is its own bucket.
    let px = vec![(1, 2, 3), (1, 2, 4), (1, 2, 4)];
    assert_eq!(dominant_color(px, 12).unwrap(), Rgb { r: 1, g: 2, b: 4 });
    // With 0 bits everything falls in one bucket: the plain mean.
    let px = vec![(0, 0, 0), (255, 255, 255)];
    assert_eq!(dominant_color(px, 0).unwrap(), Rgb { r: 127, g: 127, b: 127 });
}

#[test]
fn dominant_ignores_pixel_order() {
    let a = vec![(200, 10, 10), (10, 10, 220), (205, 15, 12), (12, 8, 230)];
    let mut b = a.clone();
    b.reverse();
    assert_eq!(dominant_color(a.clone(), 4), dominant_color(b, 4));
    let c = vec![a[1], a[3], a[0], a[2]];
    assert_eq!(dominant_color(a, 4), dominant_color(c, 4));
}
