use walldots::paths::derive_output;
use walldots::svg::{svg_close, svg_open};
use walldots::config::Rgb;
use walldots::text::{decimal_string, parse_i64_chars, trim_chars};

fn chars(s: &str) -> Vec<char> {
    s.chars().collect()
}

#[test]
fn decimal_rendering() {
    assert_eq!(decimal_string(0), "0");
    assert_eq!(decimal_string(1234), "1234");
    assert_eq!(decimal_string(u64::MAX), u64::MAX.to_string());
}

#[test]
fn integer_parsing_matches_std() {
    for s in ["0", "+12", "-12", "9223372036854775807", "-9223372036854775808", "", "+", "-", "1a", "9223372036854775808", " 1", "007"] {
        assert_eq!(parse_i64_chars(&chars(s)), s.parse::<i64>().ok(), "{s}");
    }
}

#[test]
fn trimming_matches_std() {
    for s in ["  a b  ", "\u{3000}x\u{85}", "", "   ", "x"] {
        let t: String = trim_chars(&chars(s)).into_iter().collect();
        assert_eq!(t, s.trim());
    }
}

#[test]
fn output_names() {
    assert_eq!(derive_output("/a/b/photo.jpg"), "/a/b/photo_dots");
    assert_eq!(derive_output("photo"), "photo_dots");
    assert_eq!(derive_output("img.tar.gz"), "img.tar_dots");
    assert_eq!(derive_output(""), "walldots_dots");
}

#[test]
fn svg_frame() {
    let s = svg_open(80, 40, Rgb { r: 0x11, g: 0x22, b: 0x33 });
    assert_eq!(
        s,
        "<svg xmlns=\"http://www.w3.org/2000/svg\" width=\"80\" height=\"40\" viewBox=\"0 0 80 40\">\n<rect width=\"80\" height=\"40\" fill=\"#112233\"/>\n"
    );
    assert_eq!(svg_close(), "</svg>\n");
}
