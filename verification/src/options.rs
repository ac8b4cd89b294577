//! Defaults that the command line derives from other options.
use vstd::prelude::*;

verus! {

/// Font size of display names when none is given: about 5 points below the
/// body's, but at least 10, and below the body's unless that is 10 or less.
pub open spec fn default_name_font_size_spec(font_size: int) -> int {
    let lo = 10;
    let hi = if font_size - 1 > 10 { font_size - 1 } else { 10 };
    let v = font_size - 5;
    if v < lo {
        lo
    } else if v > hi {
        hi
    } else {
        v
    }
}

/// Font size of display names derived from the body's font size.
pub fn default_name_font_size(font_size: i32) -> (n: i32)
    requires
        font_size >= i32::MIN + 5,
    ensures
        n == default_name_font_size_spec(font_size as int),
        10 <= n,
{
    let hi = if font_size - 1 > 10 { font_size - 1 } else { 10 };
    let v = font_size - 5;
    if v < 10 {
        10
    } else if v > hi {
        hi
    } else {
        v
    }
}

} // verus!
