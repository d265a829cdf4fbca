//! The choices a render is made with: black & white mode, dot shape, output
//! formats and colours, with their textual forms.

use vstd::prelude::*;
use crate::text::{
    ascii_lower_seq, ascii_lowercase, chars_of, concat_str, string_from, trim, trim_chars,
};

verus! {

// ---------------------------------------------------------------------------
// Comparing character sequences with literals
// ---------------------------------------------------------------------------

/// Whether `a` and `b` hold the same characters.
pub fn chars_eq(a: &[char], b: &[char]) -> (res: bool)
    ensures
        res == (a@ == b@),
{
    if a.len() != b.len() {
        return false;
    }
    let mut i: usize = 0;
    while i < a.len()
        invariant
            i <= a@.len() == b@.len(),
            forall|k: int| 0 <= k < i ==> a@[k] == b@[k],
        decreases a@.len() - i,
    {
        if a[i] != b[i] {
            return false;
        }
        i = i + 1;
    }
    assert(a@ =~= b@);
    true
}

/// Whether `a` holds exactly the characters of `lit`.
pub fn chars_eq_str(a: &[char], lit: &str) -> (res: bool)
    ensures
        res == (a@ == lit@),
{
    let l = chars_of(lit);
    chars_eq(a, l.as_slice())
}

// ---------------------------------------------------------------------------
// Black & white mode
// ---------------------------------------------------------------------------

/// The black & white conversion applied before the image is turned into dots.
#[derive(Debug, Clone, Copy, PartialEq, Eq, Structural)]
pub enum BwMode {
    /// No conversion: dots keep the local dominant colour.
    Color,
    /// Grey levels (Rec. 709 weighted luminance).
    Grayscale,
    /// Each pixel becomes black or white against a threshold.
    Threshold,
}

/// The mode a (case-insensitive, ASCII) name stands for.
pub open spec fn bw_mode_named(s: Seq<char>) -> Option<BwMode> {
    let l = ascii_lower_seq(s);
    if l == "none"@ || l == "color"@ || l == "couleur"@ {
        Some(BwMode::Color)
    } else if l == "gray"@ || l == "grey"@ || l == "grayscale"@ || l == "gris"@ {
        Some(BwMode::Grayscale)
    } else if l == "threshold"@ || l == "seuil"@ || l == "bw"@ || l == "nb"@ {
        Some(BwMode::Threshold)
    } else {
        None
    }
}

/// The mode after `m` in the cycle Color → Grayscale → Threshold → Color, or
/// before it when `forward` is false.
pub open spec fn bw_cycle(m: BwMode, forward: bool) -> BwMode {
    match (m, forward) {
        (BwMode::Color, true) => BwMode::Grayscale,
        (BwMode::Grayscale, true) => BwMode::Threshold,
        (BwMode::Threshold, true) => BwMode::Color,
        (BwMode::Color, false) => BwMode::Threshold,
        (BwMode::Grayscale, false) => BwMode::Color,
        (BwMode::Threshold, false) => BwMode::Grayscale,
    }
}

impl BwMode {
    /// Parses a mode name: `none`/`color`/`couleur`, `gray`/`grey`/`grayscale`/`gris`,
    /// `threshold`/`seuil`/`bw`/`nb`, in any ASCII case.
    pub fn parse(s: &str) -> (res: Result<BwMode, String>)
        ensures
            match res {
                Ok(m) => bw_mode_named(s@) == Some(m),
                Err(e) => bw_mode_named(s@) is None && e@ == "mode N&B inconnu : "@
                    + ascii_lower_seq(s@),
            },
    {
        let l = ascii_lowercase(s);
        let l = l.as_slice();
        if chars_eq_str(l, "none") || chars_eq_str(l, "color") || chars_eq_str(l, "couleur") {
            Ok(BwMode::Color)
        } else if chars_eq_str(l, "gray") || chars_eq_str(l, "grey") || chars_eq_str(
            l,
            "grayscale",
        ) || chars_eq_str(l, "gris") {
            Ok(BwMode::Grayscale)
        } else if chars_eq_str(l, "threshold") || chars_eq_str(l, "seuil") || chars_eq_str(
            l,
            "bw",
        ) || chars_eq_str(l, "nb") {
            Ok(BwMode::Threshold)
        } else {
            let other = string_from(l);
            Err(concat_str("mode N&B inconnu : ", other.as_str()))
        }
    }

    /// The next mode in the cycle (`forward`) or the previous one.
    pub fn cycle(self, forward: bool) -> (res: BwMode)
        ensures
            res == bw_cycle(self, forward),
    {
        match (self, forward) {
            (BwMode::Color, true) => BwMode::Grayscale,
            (BwMode::Grayscale, true) => BwMode::Threshold,
            (BwMode::Threshold, true) => BwMode::Color,
            (BwMode::Color, false) => BwMode::Threshold,
            (BwMode::Grayscale, false) => BwMode::Color,
            (BwMode::Threshold, false) => BwMode::Grayscale,
        }
    }
}

impl std::str::FromStr for BwMode {
    type Err = String;

    fn from_str(s: &str) -> (res: Result<BwMode, String>)
        ensures
            match res {
                Ok(m) => bw_mode_named(s@) == Some(m),
                Err(e) => bw_mode_named(s@) is None && e@ == "mode N&B inconnu : "@
                    + ascii_lower_seq(s@),
            },
    {
        BwMode::parse(s)
    }
}

// ---------------------------------------------------------------------------
// Dot shape
// ---------------------------------------------------------------------------

/// The shape each dot is drawn with.
#[derive(Debug, Clone, Copy, PartialEq, Eq, Structural)]
pub enum DotShape {
    /// Circle (the basic shape).
    Circle,
    /// Square with rounded corners.
    Square,
    /// Equilateral triangle, point up.
    Triangle,
    /// Hexagon, point up.
    Hexagon,
}

/// The position of a shape in the cycle order Circle, Square, Triangle, Hexagon.
pub open spec fn shape_index(s: DotShape) -> int {
    match s {
        DotShape::Circle => 0,
        DotShape::Square => 1,
        DotShape::Triangle => 2,
        DotShape::Hexagon => 3,
    }
}

/// The shape at position `i` (taken modulo 4) of the cycle order.
pub open spec fn shape_at(i: int) -> DotShape {
    let k = i % 4;
    if k == 0 {
        DotShape::Circle
    } else if k == 1 {
        DotShape::Square
    } else if k == 2 {
        DotShape::Triangle
    } else {
        DotShape::Hexagon
    }
}

/// The shape a (case-insensitive, ASCII) name stands for.
pub open spec fn shape_named(s: Seq<char>) -> Option<DotShape> {
    let l = ascii_lower_seq(s);
    if l == "circle"@ || l == "cercle"@ || l == "rond"@ {
        Some(DotShape::Circle)
    } else if l == "square"@ || l == "carre"@ || l == "carré"@ || l == "rounded"@ || l
        == "arrondi"@ {
        Some(DotShape::Square)
    } else if l == "triangle"@ {
        Some(DotShape::Triangle)
    } else if l == "hexagon"@ || l == "hexagone"@ || l == "hex"@ {
        Some(DotShape::Hexagon)
    } else {
        None
    }
}

/// The French label of a shape.
pub open spec fn shape_label(s: DotShape) -> Seq<char> {
    match s {
        DotShape::Circle => "cercle"@,
        DotShape::Square => "carré arrondi"@,
        DotShape::Triangle => "triangle"@,
        DotShape::Hexagon => "hexagone"@,
    }
}

impl DotShape {
    /// Every shape, in the order the tuner cycles through them.
    pub const ALL: [DotShape; 4] = [
        DotShape::Circle,
        DotShape::Square,
        DotShape::Triangle,
        DotShape::Hexagon,
    ];

    /// Human-readable (French) label.
    pub fn label(self) -> (res: &'static str)
        ensures
            res@ == shape_label(self),
    {
        match self {
            DotShape::Circle => "cercle",
            DotShape::Square => "carré arrondi",
            DotShape::Triangle => "triangle",
            DotShape::Hexagon => "hexagone",
        }
    }

    /// Position in [`DotShape::ALL`].
    pub fn index(self) -> (res: usize)
        ensures
            res == shape_index(self),
    {
        match self {
            DotShape::Circle => 0,
            DotShape::Square => 1,
            DotShape::Triangle => 2,
            DotShape::Hexagon => 3,
        }
    }

    /// The shape at position `i` of [`DotShape::ALL`].
    pub fn from_index(i: usize) -> (res: DotShape)
        requires
            i < 4,
        ensures
            res == shape_at(i as int),
            shape_index(res) == i,
    {
        if i == 0 {
            DotShape::Circle
        } else if i == 1 {
            DotShape::Square
        } else if i == 2 {
            DotShape::Triangle
        } else {
            DotShape::Hexagon
        }
    }

    /// Parses a shape name: `circle`/`cercle`/`rond`, `square`/`carre`/`carré`/`rounded`/`arrondi`,
    /// `triangle`, `hexagon`/`hexagone`/`hex`, in any ASCII case.
    pub fn parse(s: &str) -> (res: Result<DotShape, String>)
        ensures
            match res {
                Ok(m) => shape_named(s@) == Some(m),
                Err(e) => shape_named(s@) is None && e@ == "forme inconnue : "@ + ascii_lower_seq(
                    s@,
                ) + " (circle, square, triangle, hexagon)"@,
            },
    {
        let l = ascii_lowercase(s);
        let l = l.as_slice();
        if chars_eq_str(l, "circle") || chars_eq_str(l, "cercle") || chars_eq_str(l, "rond") {
            Ok(DotShape::Circle)
        } else if chars_eq_str(l, "square") || chars_eq_str(l, "carre") || chars_eq_str(
            l,
            "carré",
        ) || chars_eq_str(l, "rounded") || chars_eq_str(l, "arrondi") {
            Ok(DotShape::Square)
        } else if chars_eq_str(l, "triangle") {
            Ok(DotShape::Triangle)
        } else if chars_eq_str(l, "hexagon") || chars_eq_str(l, "hexagone") || chars_eq_str(
            l,
            "hex",
        ) {
            Ok(DotShape::Hexagon)
        } else {
            let other = string_from(l);
            let msg = concat_str("forme inconnue : ", other.as_str());
            Err(concat_str(msg.as_str(), " (circle, square, triangle, hexagon)"))
        }
    }
}

impl std::str::FromStr for DotShape {
    type Err = String;

    fn from_str(s: &str) -> (res: Result<DotShape, String>)
        ensures
            match res {
                Ok(m) => shape_named(s@) == Some(m),
                Err(e) => shape_named(s@) is None && e@ == "forme inconnue : "@ + ascii_lower_seq(
                    s@,
                ) + " (circle, square, triangle, hexagon)"@,
            },
    {
        DotShape::parse(s)
    }
}

// ---------------------------------------------------------------------------
// Output formats
// ---------------------------------------------------------------------------

/// Which files a render writes.
#[derive(Debug, Clone, Copy, PartialEq, Eq, Structural)]
pub enum Format {
    Png,
    Svg,
    Both,
}

/// The format a (case-insensitive, ASCII) name stands for.
pub open spec fn format_named(s: Seq<char>) -> Option<Format> {
    let l = ascii_lower_seq(s);
    if l == "png"@ {
        Some(Format::Png)
    } else if l == "svg"@ {
        Some(Format::Svg)
    } else if l == "both"@ || l == "les-deux"@ || l == "all"@ {
        Some(Format::Both)
    } else {
        None
    }
}

/// The `(png, svg)` switches a format sets.
pub open spec fn format_flags(f: Format) -> (bool, bool) {
    match f {
        Format::Png => (true, false),
        Format::Svg => (false, true),
        Format::Both => (true, true),
    }
}

impl Format {
    /// Parses `png`, `svg`, or `both`/`les-deux`/`all`, in any ASCII case.
    pub fn parse(s: &str) -> (res: Result<Format, String>)
        ensures
            match res {
                Ok(f) => format_named(s@) == Some(f),
                Err(e) => format_named(s@) is None && e@ == "format inconnu : "@ + ascii_lower_seq(
                    s@,
                ) + " (png, svg ou both)"@,
            },
    {
        let l = ascii_lowercase(s);
        let l = l.as_slice();
        if chars_eq_str(l, "png") {
            Ok(Format::Png)
        } else if chars_eq_str(l, "svg") {
            Ok(Format::Svg)
        } else if chars_eq_str(l, "both") || chars_eq_str(l, "les-deux") || chars_eq_str(
            l,
            "all",
        ) {
            Ok(Format::Both)
        } else {
            let other = string_from(l);
            let msg = concat_str("format inconnu : ", other.as_str());
            Err(concat_str(msg.as_str(), " (png, svg ou both)"))
        }
    }

    /// The `(png, svg)` switches this format sets.
    pub fn flags(self) -> (res: (bool, bool))
        ensures
            res == format_flags(self),
    {
        match self {
            Format::Png => (true, false),
            Format::Svg => (false, true),
            Format::Both => (true, true),
        }
    }
}

impl std::str::FromStr for Format {
    type Err = String;

    fn from_str(s: &str) -> (res: Result<Format, String>)
        ensures
            match res {
                Ok(f) => format_named(s@) == Some(f),
                Err(e) => format_named(s@) is None && e@ == "format inconnu : "@ + ascii_lower_seq(
                    s@,
                ) + " (png, svg ou both)"@,
            },
    {
        Format::parse(s)
    }
}

// ---------------------------------------------------------------------------
// Settings checks
// ---------------------------------------------------------------------------

/// The grid needs at least one column; the error names the option.
pub fn check_grid(cols: u32) -> (res: Result<(), String>)
    ensures
        res is Ok <==> cols >= 1,
        res matches Err(e) ==> e@ == "le nombre de colonnes (--grid) doit être >= 1"@,
{
    if cols == 0 {
        Err(String::from_str("le nombre de colonnes (--grid) doit être >= 1"))
    } else {
        Ok(())
    }
}

/// A render writes at least one file.
pub fn check_formats(png: bool, svg: bool) -> (res: Result<(), String>)
    ensures
        res is Ok <==> (png || svg),
        res matches Err(e) ==> e@ == "aucun format de sortie sélectionné"@,
{
    if !png && !svg {
        Err(String::from_str("aucun format de sortie sélectionné"))
    } else {
        Ok(())
    }
}

// ---------------------------------------------------------------------------
// Colours
// ---------------------------------------------------------------------------

/// An 8-bit RGB colour.
#[derive(Debug, Clone, Copy, PartialEq, Eq, Structural)]
pub struct Rgb {
    pub r: u8,
    pub g: u8,
    pub b: u8,
}

/// The lowercase hexadecimal digit for `d` (`0 <= d < 16`).
pub open spec fn hex_digit(d: int) -> char {
    if d < 10 {
        ((d + 48) as u32) as char
    } else {
        ((d + 87) as u32) as char
    }
}

/// `#rrggbb` in lowercase hexadecimal.
pub open spec fn hex_of(c: Rgb) -> Seq<char> {
    seq![
        '#',
        hex_digit(c.r as int / 16),
        hex_digit(c.r as int % 16),
        hex_digit(c.g as int / 16),
        hex_digit(c.g as int % 16),
        hex_digit(c.b as int / 16),
        hex_digit(c.b as int % 16),
    ]
}

/// The value of a hexadecimal digit, in either case.
pub open spec fn hex_value(c: char) -> Option<u8> {
    if '0' <= c && c <= '9' {
        Some((c as u32 - 48) as u8)
    } else if 'a' <= c && c <= 'f' {
        Some((c as u32 - 87) as u8)
    } else if 'A' <= c && c <= 'F' {
        Some((c as u32 - 55) as u8)
    } else {
        None
    }
}

/// Whether `c` is a hexadecimal digit (`0-9`, `a-f`, `A-F`).
pub open spec fn is_hex_digit(c: char) -> bool {
    hex_value(c) is Some
}

/// Whether `s` is made of hexadecimal digits only.
pub open spec fn all_hex(s: Seq<char>) -> bool {
    forall|k: int| 0 <= k < s.len() ==> is_hex_digit(#[trigger] s[k])
}

/// The byte that the two hexadecimal digits `c0 c1` write.
pub open spec fn pair_value(c0: char, c1: char) -> u8 {
    (hex_value(c0).unwrap() * 16 + hex_value(c1).unwrap()) as u8
}

/// Every character of `s` written twice (`abc` → `aabbcc`).
pub open spec fn doubled(s: Seq<char>) -> Seq<char> {
    Seq::new(2 * s.len(), |i: int| s[i / 2])
}

/// The digits of a colour text: `s` trimmed, without one leading `#`.
pub open spec fn hex_body(s: Seq<char>) -> Seq<char> {
    let t = trim(s);
    if t.len() > 0 && t[0] == '#' {
        t.drop_first()
    } else {
        t
    }
}

/// The six digits of a three- or six-digit body.
pub open spec fn hex_digits6(h: Seq<char>) -> Seq<char> {
    if h.len() == 3 {
        doubled(h)
    } else {
        h
    }
}

/// The colour that `#rrggbb`, `rrggbb`, `#rgb` or `rgb` (surrounding whitespace
/// allowed) denotes, the digits in either case; `None` for any other text.
pub open spec fn parse_hex(s: Seq<char>) -> Option<Rgb> {
    let h = hex_body(s);
    if (h.len() == 3 || h.len() == 6) && all_hex(h) {
        let f = hex_digits6(h);
        Some(Rgb { r: pair_value(f[0], f[1]), g: pair_value(f[2], f[3]), b: pair_value(f[4], f[5]) })
    } else {
        None
    }
}

fn hex_digit_char(d: u8) -> (c: char)
    requires
        d < 16,
    ensures
        c == hex_digit(d as int),
{
    if d < 10 {
        (d + 48) as char
    } else {
        (d + 87) as char
    }
}

fn hex_value_char(c: char) -> (res: Option<u8>)
    ensures
        res == hex_value(c),
{
    if '0' <= c && c <= '9' {
        Some((c as u32 - 48) as u8)
    } else if 'a' <= c && c <= 'f' {
        Some((c as u32 - 87) as u8)
    } else if 'A' <= c && c <= 'F' {
        Some((c as u32 - 55) as u8)
    } else {
        None
    }
}

fn pair_value_chars(c0: char, c1: char) -> (res: u8)
    requires
        is_hex_digit(c0),
        is_hex_digit(c1),
    ensures
        res == pair_value(c0, c1),
{
    let a = hex_value_char(c0).unwrap();
    let b = hex_value_char(c1).unwrap();
    a * 16 + b
}

/// The characters of `s` trimmed and without one leading `#`.
fn hex_body_chars(s: &str) -> (res: Vec<char>)
    ensures
        res@ == hex_body(s@),
{
    let cs = chars_of(s);
    let t = trim_chars(cs.as_slice());
    let n = t.len();
    let i: usize = if n > 0 && t[0] == '#' {
        1
    } else {
        0
    };
    let mut res: Vec<char> = Vec::new();
    let mut k: usize = i;
    while k < n
        invariant
            i <= k <= n == t@.len(),
            res@ == t@.subrange(i as int, k as int),
        decreases n - k,
    {
        res.push(t[k]);
        k = k + 1;
        assert(res@ =~= t@.subrange(i as int, k as int));
    }
    assert(res@ =~= t@.skip(i as int));
    assert(t@.drop_first() =~= t@.skip(1));
    res
}

fn is_all_hex(v: &[char]) -> (res: bool)
    ensures
        res == all_hex(v@),
{
    let mut i: usize = 0;
    while i < v.len()
        invariant
            i <= v@.len(),
            forall|k: int| 0 <= k < i ==> is_hex_digit(#[trigger] v@[k]),
        decreases v@.len() - i,
    {
        if hex_value_char(v[i]).is_none() {
            return false;
        }
        i = i + 1;
    }
    true
}

fn doubled_chars(h: &[char]) -> (res: Vec<char>)
    requires
        h@.len() <= 6,
    ensures
        res@ == doubled(h@),
{
    let mut res: Vec<char> = Vec::new();
    let mut i: usize = 0;
    while i < h.len()
        invariant
            i <= h@.len() <= 6,
            res@.len() == 2 * i,
            forall|k: int| 0 <= k < 2 * i ==> #[trigger] res@[k] == h@[k / 2],
        decreases h@.len() - i,
    {
        res.push(h[i]);
        res.push(h[i]);
        i = i + 1;
    }
    assert(res@ =~= doubled(h@));
    res
}

impl Rgb {
    /// Black.
    pub fn black() -> (res: Rgb)
        ensures
            res == (Rgb { r: 0, g: 0, b: 0 }),
    {
        Rgb { r: 0, g: 0, b: 0 }
    }

    /// `#rrggbb` in lowercase hexadecimal.
    pub fn to_hex(self) -> (res: String)
        ensures
            res@ == hex_of(self),
    {
        let mut s = String::new();
        s.push('#');
        s.push(hex_digit_char(self.r / 16));
        s.push(hex_digit_char(self.r % 16));
        s.push(hex_digit_char(self.g / 16));
        s.push(hex_digit_char(self.g % 16));
        s.push(hex_digit_char(self.b / 16));
        s.push(hex_digit_char(self.b % 16));
        assert(s@ =~= hex_of(self));
        s
    }

    /// Parses `#rrggbb`, `rrggbb`, `#rgb` or `rgb`, the digits in either case;
    /// surrounding whitespace is skipped. Any other text is an error that
    /// quotes it.
    pub fn parse_hex(s: &str) -> (res: Result<Rgb, String>)
        ensures
            match res {
                Ok(c) => parse_hex(s@) == Some(c),
                Err(e) => parse_hex(s@) is None && e@ == "couleur hex invalide : "@ + s@,
            },
    {
        let h = hex_body_chars(s);
        let n = h.len();
        if (n == 3 || n == 6) && is_all_hex(h.as_slice()) {
            let f = if n == 3 {
                doubled_chars(h.as_slice())
            } else {
                h
            };
            assert(f@ == hex_digits6(hex_body(s@)));
            assert forall|k: int| 0 <= k < 6 implies is_hex_digit(#[trigger] f@[k]) by {
                if n == 3 {
                    assert(f@[k] == h@[k / 2]);
                }
            }
            let r = pair_value_chars(f[0], f[1]);
            let g = pair_value_chars(f[2], f[3]);
            let b = pair_value_chars(f[4], f[5]);
            return Ok(Rgb { r, g, b });
        }
        Err(concat_str("couleur hex invalide : ", s))
    }
}

impl std::str::FromStr for Rgb {
    type Err = String;

    /// Parses a colour text (see [`Rgb::parse_hex`]).
    fn from_str(s: &str) -> (res: Result<Rgb, String>)
        ensures
            match res {
                Ok(c) => parse_hex(s@) == Some(c),
                Err(e) => parse_hex(s@) is None && e@ == "couleur hex invalide : "@ + s@,
            },
    {
        Rgb::parse_hex(s)
    }
}

proof fn lemma_hex_digit_value(d: int)
    requires
        0 <= d < 16,
    ensures
        hex_value(hex_digit(d)) == Some(d as u8),
        hex_digit(d) != '#',
        !crate::text::is_white(hex_digit(d)),
{
}

/// Reading back the text that [`Rgb::to_hex`] writes gives the same colour.
pub proof fn lemma_hex_round_trip(c: Rgb)
    ensures
        parse_hex(hex_of(c)) == Some(c),
{
    let s = hex_of(c);
    lemma_hex_digit_value(c.r as int / 16);
    lemma_hex_digit_value(c.r as int % 16);
    lemma_hex_digit_value(c.g as int / 16);
    lemma_hex_digit_value(c.g as int % 16);
    lemma_hex_digit_value(c.b as int / 16);
    lemma_hex_digit_value(c.b as int % 16);
    assert(crate::text::trim_start(s) == s);
    assert(crate::text::trim_end(s) == s);
    assert(trim(s) == s);
    let body = s.drop_first();
    assert(hex_body(s) == body);
    assert(all_hex(body));
    assert(hex_digits6(body) == body);
}

} // verus!
