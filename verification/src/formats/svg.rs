//! SVG import: the stroke colour given to each imported path.

use vstd::prelude::*;
use crate::text::{hex_byte, push_hex_byte, string_of};

verus! {

/// The colour of a path whose stroke is not a plain colour.
pub open spec fn default_stroke() -> Seq<char> {
    "#ff0000"@
}

/// `#rrggbb` in lower-case hexadecimal.
pub open spec fn color_hex(r: u8, g: u8, b: u8) -> Seq<char> {
    seq!['#'] + hex_byte(r, false) + hex_byte(g, false) + hex_byte(b, false)
}

/// The colour recorded for an imported path: its stroke colour as `#rrggbb`
/// when the stroke is a plain colour (`Some((red, green, blue))`), red
/// otherwise.
pub fn stroke_color(rgb: Option<(u8, u8, u8)>) -> (s: String)
    ensures
        s@ == match rgb {
            Some((r, g, b)) => color_hex(r, g, b),
            None => default_stroke(),
        },
{
    match rgb {
        Some((r, g, b)) => {
            let mut v: Vec<char> = Vec::new();
            v.push('#');
            push_hex_byte(&mut v, r, false);
            push_hex_byte(&mut v, g, false);
            push_hex_byte(&mut v, b, false);
            assert(v@ =~= color_hex(r, g, b));
            string_of(&v)
        },
        None => "#ff0000".to_owned(),
    }
}

} // verus!
