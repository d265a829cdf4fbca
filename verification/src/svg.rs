//! The fixed parts of the SVG document: the opening with the size and the
//! background, and the closing.

use vstd::prelude::*;
use crate::config::{hex_of, Rgb};
use crate::text::{concat_str, decimal, decimal_string};

verus! {

/// The opening of the SVG document: the `<svg>` element sized `w` × `h`
/// (view box included) and a background rectangle filled with `bg`.
pub open spec fn svg_open_text(w: nat, h: nat, bg: Rgb) -> Seq<char> {
    "<svg xmlns=\"http://www.w3.org/2000/svg\" width=\""@ + decimal(w) + "\" height=\""@ + decimal(h)
        + "\" viewBox=\"0 0 "@ + decimal(w) + " "@ + decimal(h) + "\">\n<rect width=\""@ + decimal(w)
        + "\" height=\""@ + decimal(h) + "\" fill=\""@ + hex_of(bg) + "\"/>\n"@
}

/// The opening of the SVG document (see [`svg_open_text`]).
pub fn svg_open(w: u32, h: u32, bg: Rgb) -> (res: String)
    ensures
        res@ == svg_open_text(w as nat, h as nat, bg),
{
    let ws = decimal_string(w as u64);
    let hs = decimal_string(h as u64);
    let hex = bg.to_hex();
    let s = concat_str("<svg xmlns=\"http://www.w3.org/2000/svg\" width=\"", ws.as_str());
    let s = concat_str(s.as_str(), "\" height=\"");
    let s = concat_str(s.as_str(), hs.as_str());
    let s = concat_str(s.as_str(), "\" viewBox=\"0 0 ");
    let s = concat_str(s.as_str(), ws.as_str());
    let s = concat_str(s.as_str(), " ");
    let s = concat_str(s.as_str(), hs.as_str());
    let s = concat_str(s.as_str(), "\">\n<rect width=\"");
    let s = concat_str(s.as_str(), ws.as_str());
    let s = concat_str(s.as_str(), "\" height=\"");
    let s = concat_str(s.as_str(), hs.as_str());
    let s = concat_str(s.as_str(), "\" fill=\"");
    let s = concat_str(s.as_str(), hex.as_str());
    concat_str(s.as_str(), "\"/>\n")
}

/// The closing of the SVG document.
pub fn svg_close() -> (res: &'static str)
    ensures
        res@ == "</svg>\n"@,
{
    "</svg>\n"
}

} // verus!
