//! Colors and render options.

use vstd::prelude::*;

verus! {

/// An sRGB color with alpha.
#[derive(Debug, Clone, Copy, PartialEq, Eq, Structural)]
pub struct Color {
    pub r: u8,
    pub g: u8,
    pub b: u8,
    pub a: u8,
}

impl Color {
    /// The color packed as `0xAARRGGBB`.
    pub fn from_argb_u32(argb: u32) -> (c: Color)
        ensures
            c.a == argb / 0x100_0000,
            c.r == (argb / 0x1_0000) % 256,
            c.g == (argb / 0x100) % 256,
            c.b == argb % 256,
    {
        Color {
            a: (argb / 0x100_0000) as u8,
            r: ((argb / 0x1_0000) % 256) as u8,
            g: ((argb / 0x100) % 256) as u8,
            b: (argb % 256) as u8,
        }
    }

    pub fn white() -> (c: Color)
        ensures
            c == (Color { r: 255, g: 255, b: 255, a: 255 }),
    {
        Color { r: 255, g: 255, b: 255, a: 255 }
    }
}

/// Render-time options shared by raster and vector backends.
#[derive(Debug, Clone, Copy, PartialEq, Eq, Structural)]
pub struct RenderOptions {
    /// Output width in pixels.
    pub width: u32,
    /// Output height in pixels.
    pub height: u32,
    /// Padding inside the output, in pixels.
    pub padding: u32,
    /// Solid background. `None` keeps the canvas transparent.
    pub background: Option<Color>,
}

impl RenderOptions {
    /// 512 x 512 pixels, 16 pixels of padding, white background.
    pub fn default_options() -> (o: RenderOptions)
        ensures
            o == (RenderOptions {
                width: 512,
                height: 512,
                padding: 16,
                background: Some(Color { r: 255, g: 255, b: 255, a: 255 }),
            }),
    {
        RenderOptions { width: 512, height: 512, padding: 16, background: Some(Color::white()) }
    }
}

impl Default for RenderOptions {
    fn default() -> (o: RenderOptions)
        ensures
            o == (RenderOptions {
                width: 512,
                height: 512,
                padding: 16,
                background: Some(Color { r: 255, g: 255, b: 255, a: 255 }),
            }),
    {
        RenderOptions::default_options()
    }
}

/// The CSS text of a color: `#RRGGBB` when opaque, `#RRGGBBAA` otherwise.
pub open spec fn css_color(c: Color) -> Seq<char> {
    seq!['#'] + crate::guids::hex2(c.r) + crate::guids::hex2(c.g) + crate::guids::hex2(c.b) + if c.a
        == 255 {
        Seq::<char>::empty()
    } else {
        crate::guids::hex2(c.a)
    }
}

} // verus!
