//! Colours: the RGBA value used throughout the renderer, and the stock palette.
//!
//! Each palette entry is a function, usable in contracts as well as in code.

use vstd::prelude::*;

verus! {

/// An RGBA colour with 8-bit channels.
#[derive(Clone, Copy, Debug, PartialEq, Eq, Structural)]
pub struct Color {
    pub r: u8,
    pub g: u8,
    pub b: u8,
    pub a: u8,
}

pub open spec fn spec_black() -> Color {
    Color { r: 0, g: 0, b: 0, a: 255 }
}

/// Opaque black.
#[verifier::when_used_as_spec(spec_black)]
pub fn black() -> (c: Color)
    ensures
        c == spec_black(),
{
    Color { r: 0, g: 0, b: 0, a: 255 }
}

pub open spec fn spec_transparent() -> Color {
    Color { r: 0, g: 0, b: 0, a: 0 }
}

/// Fully transparent black: the fill of an empty canvas.
#[verifier::when_used_as_spec(spec_transparent)]
pub fn transparent() -> (c: Color)
    ensures
        c == spec_transparent(),
{
    Color { r: 0, g: 0, b: 0, a: 0 }
}

pub open spec fn spec_yellow() -> Color {
    Color { r: 255, g: 255, b: 0, a: 255 }
}

/// Opaque yellow: the stock text colour.
#[verifier::when_used_as_spec(spec_yellow)]
pub fn yellow() -> (c: Color)
    ensures
        c == spec_yellow(),
{
    Color { r: 255, g: 255, b: 0, a: 255 }
}

pub open spec fn spec_orange() -> Color {
    Color { r: 255, g: 144, b: 0, a: 255 }
}

/// Opaque orange: the label colour of a locked tile in the stock theme.
#[verifier::when_used_as_spec(spec_orange)]
pub fn orange() -> (c: Color)
    ensures
        c == spec_orange(),
{
    Color { r: 255, g: 144, b: 0, a: 255 }
}

pub open spec fn spec_green() -> Color {
    Color { r: 0, g: 255, b: 28, a: 255 }
}

/// Opaque green: the label colour of an unlocked tile in the stock theme.
#[verifier::when_used_as_spec(spec_green)]
pub fn green() -> (c: Color)
    ensures
        c == spec_green(),
{
    Color { r: 0, g: 255, b: 28, a: 255 }
}

pub open spec fn spec_default_border_color() -> Color {
    Color { r: 47, g: 43, b: 34, a: 255 }
}

/// Border colour of a tile in the stock theme.
#[verifier::when_used_as_spec(spec_default_border_color)]
pub fn default_border_color() -> (c: Color)
    ensures
        c == spec_default_border_color(),
{
    Color { r: 47, g: 43, b: 34, a: 255 }
}

pub open spec fn spec_default_inset_color() -> Color {
    Color { r: 117, g: 99, b: 78, a: 255 }
}

/// Inset colour of a tile in the stock theme.
#[verifier::when_used_as_spec(spec_default_inset_color)]
pub fn default_inset_color() -> (c: Color)
    ensures
        c == spec_default_inset_color(),
{
    Color { r: 117, g: 99, b: 78, a: 255 }
}

pub open spec fn spec_default_background_locked_color() -> Color {
    Color { r: 74, g: 62, b: 50, a: 255 }
}

/// Background of a locked tile in the stock theme.
#[verifier::when_used_as_spec(spec_default_background_locked_color)]
pub fn default_background_locked_color() -> (c: Color)
    ensures
        c == spec_default_background_locked_color(),
{
    Color { r: 74, g: 62, b: 50, a: 255 }
}

pub open spec fn spec_default_background_unlocked_color() -> Color {
    Color { r: 87, g: 76, b: 64, a: 255 }
}

/// Background of an unlocked tile in the stock theme.
#[verifier::when_used_as_spec(spec_default_background_unlocked_color)]
pub fn default_background_unlocked_color() -> (c: Color)
    ensures
        c == spec_default_background_unlocked_color(),
{
    Color { r: 87, g: 76, b: 64, a: 255 }
}

} // verus!
