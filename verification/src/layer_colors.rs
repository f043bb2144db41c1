//! Default color palette for PCB layers.
//!
//! Layer indices: 1 top, 2-31 mid 1-30, 32 bottom, 33/34 overlays, 35/36
//! paste, 37/38 solder mask, 39-54 internal planes, 55 drill guide, 56
//! keepout, 57-72 mechanical 1-16, 73 drill drawing, 74 multi-layer, 81 pad
//! holes, 82 via holes.

use vstd::prelude::*;

use crate::color::Color;

verus! {

/// The canonical Altium color of a layer, packed as `0xAARRGGBB`; neutral
/// grey for unknown layers.
pub open spec fn layer_argb(layer: i32) -> u32 {
    if layer == 1 {
        0xFFFF0000
    } else if layer == 2 {
        0xFFBC8E00
    } else if layer == 3 {
        0xFF70DBFA
    } else if layer == 4 {
        0xFF00CC66
    } else if layer == 5 {
        0xFF9966FF
    } else if layer == 6 {
        0xFF00FFFF
    } else if layer == 7 {
        0xFF800080
    } else if layer == 8 {
        0xFFFF00FF
    } else if layer == 9 {
        0xFF808000
    } else if layer == 10 {
        0xFFFFFF00
    } else if layer == 11 {
        0xFF808080
    } else if layer == 12 {
        0xFFFFFFFF
    } else if layer == 13 {
        0xFF800080
    } else if layer == 14 {
        0xFF008080
    } else if layer == 15 {
        0xFFC0C0C0
    } else if layer == 16 {
        0xFF800000
    } else if layer == 17 {
        0xFF008000
    } else if layer == 18 {
        0xFF00FF00
    } else if layer == 19 {
        0xFF000080
    } else if layer == 20 {
        0xFF00FFFF
    } else if layer == 21 {
        0xFF800080
    } else if layer == 22 {
        0xFFFF00FF
    } else if layer == 23 {
        0xFF808000
    } else if layer == 24 {
        0xFFFFFF00
    } else if layer == 25 {
        0xFF808080
    } else if layer == 26 {
        0xFFFFFFFF
    } else if layer == 27 {
        0xFF800080
    } else if layer == 28 {
        0xFF008080
    } else if layer == 29 {
        0xFFC0C0C0
    } else if layer == 30 {
        0xFF800000
    } else if layer == 31 {
        0xFF008000
    } else if layer == 32 {
        0xFF0000FF
    } else if layer == 33 {
        0xFFFFFF00
    } else if layer == 34 {
        0xFF808000
    } else if layer == 35 {
        0xFF808080
    } else if layer == 36 {
        0xFF800000
    } else if layer == 37 {
        0xFF800080
    } else if layer == 38 {
        0xFFFF00FF
    } else if layer == 39 {
        0xFF008000
    } else if layer == 40 {
        0xFF800000
    } else if layer == 41 {
        0xFF800080
    } else if layer == 42 {
        0xFF008080
    } else if layer == 43 {
        0xFF008000
    } else if layer == 44 {
        0xFF800000
    } else if layer == 45 {
        0xFF800080
    } else if layer == 46 {
        0xFF008080
    } else if layer == 47 {
        0xFF008000
    } else if layer == 48 {
        0xFF800000
    } else if layer == 49 {
        0xFF800080
    } else if layer == 50 {
        0xFF008080
    } else if layer == 51 {
        0xFF008000
    } else if layer == 52 {
        0xFF800000
    } else if layer == 53 {
        0xFF800080
    } else if layer == 54 {
        0xFF008080
    } else if layer == 55 {
        0xFF800000
    } else if layer == 56 {
        0xFFFF00FF
    } else if layer == 57 {
        0xFFFF00FF
    } else if layer == 58 {
        0xFF800080
    } else if layer == 59 {
        0xFF008000
    } else if layer == 60 {
        0xFF808000
    } else if layer == 61 {
        0xFFFF00FF
    } else if layer == 62 {
        0xFF800080
    } else if layer == 63 {
        0xFF008000
    } else if layer == 64 {
        0xFF808000
    } else if layer == 65 {
        0xFFFF00FF
    } else if layer == 66 {
        0xFF800080
    } else if layer == 67 {
        0xFF008000
    } else if layer == 68 {
        0xFF808000
    } else if layer == 69 {
        0xFFFF00FF
    } else if layer == 70 {
        0xFF800080
    } else if layer == 71 {
        0xFF008000
    } else if layer == 72 {
        0xFF000000
    } else if layer == 73 {
        0xFFFF002A
    } else if layer == 74 {
        0xFFC0C0C0
    } else if layer == 81 {
        0xFF009190
    } else if layer == 82 {
        0xFF816200
    } else {
        0xFF808080
    }
}

/// Returns the canonical Altium color for a PCB layer byte. Falls back to
/// neutral grey for unknown layers.
pub fn color_for(layer: i32) -> (c: Color)
    ensures
        c.a == layer_argb(layer) / 0x100_0000,
        c.r == (layer_argb(layer) / 0x1_0000) % 256,
        c.g == (layer_argb(layer) / 0x100) % 256,
        c.b == layer_argb(layer) % 256,
{
    let argb: u32 = match layer {
        1 => 0xFFFF0000,
        2 => 0xFFBC8E00,
        3 => 0xFF70DBFA,
        4 => 0xFF00CC66,
        5 => 0xFF9966FF,
        6 => 0xFF00FFFF,
        7 => 0xFF800080,
        8 => 0xFFFF00FF,
        9 => 0xFF808000,
        10 => 0xFFFFFF00,
        11 => 0xFF808080,
        12 => 0xFFFFFFFF,
        13 => 0xFF800080,
        14 => 0xFF008080,
        15 => 0xFFC0C0C0,
        16 => 0xFF800000,
        17 => 0xFF008000,
        18 => 0xFF00FF00,
        19 => 0xFF000080,
        20 => 0xFF00FFFF,
        21 => 0xFF800080,
        22 => 0xFFFF00FF,
        23 => 0xFF808000,
        24 => 0xFFFFFF00,
        25 => 0xFF808080,
        26 => 0xFFFFFFFF,
        27 => 0xFF800080,
        28 => 0xFF008080,
        29 => 0xFFC0C0C0,
        30 => 0xFF800000,
        31 => 0xFF008000,
        32 => 0xFF0000FF,
        33 => 0xFFFFFF00,
        34 => 0xFF808000,
        35 => 0xFF808080,
        36 => 0xFF800000,
        37 => 0xFF800080,
        38 => 0xFFFF00FF,
        39 => 0xFF008000,
        40 => 0xFF800000,
        41 => 0xFF800080,
        42 => 0xFF008080,
        43 => 0xFF008000,
        44 => 0xFF800000,
        45 => 0xFF800080,
        46 => 0xFF008080,
        47 => 0xFF008000,
        48 => 0xFF800000,
        49 => 0xFF800080,
        50 => 0xFF008080,
        51 => 0xFF008000,
        52 => 0xFF800000,
        53 => 0xFF800080,
        54 => 0xFF008080,
        55 => 0xFF800000,
        56 => 0xFFFF00FF,
        57 => 0xFFFF00FF,
        58 => 0xFF800080,
        59 => 0xFF008000,
        60 => 0xFF808000,
        61 => 0xFFFF00FF,
        62 => 0xFF800080,
        63 => 0xFF008000,
        64 => 0xFF808000,
        65 => 0xFFFF00FF,
        66 => 0xFF800080,
        67 => 0xFF008000,
        68 => 0xFF808000,
        69 => 0xFFFF00FF,
        70 => 0xFF800080,
        71 => 0xFF008000,
        72 => 0xFF000000,
        73 => 0xFFFF002A,
        74 => 0xFFC0C0C0,
        81 => 0xFF009190,
        82 => 0xFF816200,
        _ => 0xFF808080,
    };
    Color::from_argb_u32(argb)
}

/// Z-order for compositing layers; lower numbers paint first (underneath).
pub open spec fn spec_draw_priority(layer: i32) -> i32 {
    if layer == 32 {
        0
    } else if layer == 38 {
        1
    } else if layer == 36 {
        2
    } else if layer == 34 {
        3
    } else if 2 <= layer <= 31 {
        6
    } else if layer == 1 {
        6
    } else if layer == 37 {
        9
    } else if layer == 35 {
        7
    } else if layer == 33 {
        2
    } else if layer == 74 {
        1
    } else if 39 <= layer <= 54 {
        11
    } else if layer == 55 {
        12
    } else if layer == 56 {
        13
    } else if 57 <= layer <= 72 {
        14
    } else if layer == 73 {
        15
    } else if layer == 81 || layer == 82 {
        1
    } else {
        50
    }
}

/// Z-order for compositing layers; lower numbers paint first (underneath).
pub fn draw_priority(layer: i32) -> (p: i32)
    ensures
        p == spec_draw_priority(layer),
{
    match layer {
        32 => 0,
        38 => 1,
        36 => 2,
        34 => 3,
        2..=31 => 6,
        1 => 6,
        37 => 9,
        35 => 7,
        33 => 2,
        74 => 1,
        39..=54 => 11,
        55 => 12,
        56 => 13,
        57..=72 => 14,
        73 => 15,
        81 | 82 => 1,
        _ => 50,
    }
}

} // verus!
