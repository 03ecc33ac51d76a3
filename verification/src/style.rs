//! Resolved visual styles and their compact identifiers.

use vstd::prelude::*;

verus! {

/// An RGBA color with 8-bit channels.
#[derive(Clone, Copy, PartialEq, Eq, Hash, Debug, Structural)]
pub struct Color {
    pub r: u8,
    pub g: u8,
    pub b: u8,
    pub a: u8,
}

/// A resolved visual style: foreground and background colors plus
/// font-attribute bits (bold, underline, italic). Styles are structurally
/// comparable so that equal resolutions intern to equal identifiers.
#[derive(Clone, Copy, PartialEq, Eq, Hash, Debug, Structural)]
pub struct Style {
    pub foreground: Color,
    pub background: Color,
    pub font_style: u8,
}

} // verus!
