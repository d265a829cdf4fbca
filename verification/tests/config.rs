use walldots::config::{BwMode, DotShape, Format, Rgb};

#[test]
fn hex_forms_are_read() {
    assert_eq!(Rgb::parse_hex("#123456").unwrap(), Rgb { r: 0x12, g: 0x34, b: 0x56 });
    assert_eq!(Rgb::parse_hex("123456").unwrap(), Rgb { r: 0x12, g: 0x34, b: 0x56 });
    assert_eq!(Rgb::parse_hex("#abc").unwrap(), Rgb { r: 0xaa, g: 0xbb, b: 0xcc });
    assert_eq!(Rgb::parse_hex("  #FfF \n").unwrap(), Rgb { r: 255, g: 255, b: 255 });
    assert_eq!(Rgb::parse_hex("AbC").unwrap(), Rgb { r: 0xaa, g: 0xbb, b: 0xcc });
}

#[test]
fn hex_errors_carry_the_text() {
    assert_eq!(Rgb::parse_hex("12345").unwrap_err(), "couleur hex invalide : 12345");
    assert_eq!(Rgb::parse_hex("ggg").unwrap_err(), "couleur hex invalide : ggg");
    assert!(Rgb::parse_hex("").is_err());
    assert!(Rgb::parse_hex("#12 456").is_err());
    assert!(Rgb::parse_hex("é1").is_err());
}

#[test]
fn only_one_hash_and_plain_digits() {
    assert_eq!(Rgb::parse_hex("##123456").unwrap_err(), "couleur hex invalide : ##123456");
    assert_eq!(Rgb::parse_hex("+f+f+f").unwrap_err(), "couleur hex invalide : +f+f+f");
    assert!(Rgb::parse_hex("#+12345").is_err());
}

#[test]
fn multibyte_text_is_an_error() {
    assert_eq!(Rgb::parse_hex("€").unwrap_err(), "couleur hex invalide : €");
    assert_eq!(Rgb::parse_hex("aéaaa").unwrap_err(), "couleur hex invalide : aéaaa");
    assert!(Rgb::parse_hex("aé123").is_err());
    assert!(Rgb::parse_hex("ééé").is_err());
}

#[test]
fn rgb_from_str_reads_back_to_hex() {
    let c = Rgb { r: 0x12, g: 0xab, b: 0x07 };
    assert_eq!(c.to_hex().parse::<Rgb>().unwrap(), c);
    assert_eq!("€".parse::<Rgb>().unwrap_err(), "couleur hex invalide : €");
}

#[test]
fn to_hex_writes_lowercase_and_reads_back() {
    let c = Rgb { r: 0x0a, g: 0xff, b: 0x30 };
    assert_eq!(c.to_hex(), "#0aff30");
    assert_eq!(Rgb::parse_hex(&c.to_hex()).unwrap(), c);
    assert_eq!(Rgb::black().to_hex(), "#000000");
}

#[test]
fn bw_names() {
    assert_eq!(BwMode::parse("GREY").unwrap(), BwMode::Grayscale);
    assert_eq!(BwMode::parse("couleur").unwrap(), BwMode::Color);
    assert_eq!(BwMode::parse("nb").unwrap(), BwMode::Threshold);
    assert_eq!(BwMode::parse("Sepia").unwrap_err(), "mode N&B inconnu : sepia");
}

#[test]
fn bw_cycle_both_ways() {
    assert_eq!(BwMode::Color.cycle(true), BwMode::Grayscale);
    assert_eq!(BwMode::Threshold.cycle(true), BwMode::Color);
    assert_eq!(BwMode::Color.cycle(false), BwMode::Threshold);
}

#[test]
fn shape_names_and_labels() {
    assert_eq!(DotShape::parse("carré").unwrap(), DotShape::Square);
    assert_eq!(DotShape::parse("HEX").unwrap(), DotShape::Hexagon);
    assert_eq!(
        DotShape::parse("CARRÉ").unwrap_err(),
        "forme inconnue : carrÉ (circle, square, triangle, hexagon)"
    );
    assert_eq!(DotShape::Square.label(), "carré arrondi");
    assert_eq!(DotShape::Circle.label(), "cercle");
    for (i, s) in DotShape::ALL.iter().enumerate() {
        assert_eq!(s.index(), i);
        assert_eq!(DotShape::from_index(i), *s);
    }
}

#[test]
fn format_names() {
    assert_eq!(Format::parse("PNG").unwrap().flags(), (true, false));
    assert_eq!(Format::parse("svg").unwrap().flags(), (false, true));
    assert_eq!(Format::parse("les-deux").unwrap().flags(), (true, true));
    assert_eq!(Format::parse("gif").unwrap_err(), "format inconnu : gif (png, svg ou both)");
}

#[test]
fn from_str_reads_names() {
    assert_eq!("Seuil".parse::<BwMode>().unwrap(), BwMode::Threshold);
    assert_eq!("x".parse::<BwMode>().unwrap_err(), "mode N&B inconnu : x");
    assert_eq!("Triangle".parse::<DotShape>().unwrap(), DotShape::Triangle);
    assert_eq!(
        "Star".parse::<DotShape>().unwrap_err(),
        "forme inconnue : star (circle, square, triangle, hexagon)"
    );
    assert_eq!("Both".parse::<Format>().unwrap(), Format::Both);
    assert_eq!("jpg".parse::<Format>().unwrap_err(), "format inconnu : jpg (png, svg ou both)");
}

#[test]
fn settings_checks() {
    assert_eq!(walldots::config::check_grid(0).unwrap_err(), "le nombre de colonnes (--grid) doit être >= 1");
    assert!(walldots::config::check_grid(1).is_ok());
    assert_eq!(walldots::config::check_formats(false, false).unwrap_err(), "aucun format de sortie sélectionné");
    assert!(walldots::config::check_formats(false, true).is_ok());
    assert!(walldots::config::check_formats(true, false).is_ok());
}
