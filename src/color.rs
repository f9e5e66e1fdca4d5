use vstd::prelude::*;

verus! {

/// An RGBA color, one byte per channel.
#[derive(Copy, Clone, Debug)]
pub struct Palette {
    pub r: u8,
    pub g: u8,
    pub b: u8,
    pub a: u8,
}

/// The byte of `color` that starts at bit `shift`.
pub open spec fn channel(color: u32, shift: int) -> int {
    (color as int / shift_unit(shift)) % 256
}

pub open spec fn shift_unit(shift: int) -> int {
    if shift == 24 {
        0x1000000
    } else if shift == 16 {
        0x10000
    } else if shift == 8 {
        0x100
    } else {
        1
    }
}

/// The color with the given channels.
pub open spec fn rgba(r: int, g: int, b: int, a: int) -> Palette {
    Palette { r: r as u8, g: g as u8, b: b as u8, a: a as u8 }
}

impl Palette {
    #[inline]
    #[allow(non_snake_case)]
    pub fn RGB(r: u8, g: u8, b: u8) -> (c: Palette)
        ensures
            c == rgba(r as int, g as int, b as int, 255),
    {
        Palette { r, g, b, a: 0xff }
    }

    #[inline]
    #[allow(non_snake_case)]
    pub fn RGBA(r: u8, g: u8, b: u8, a: u8) -> (c: Palette)
        ensures
            c == rgba(r as int, g as int, b as int, a as int),
    {
        Palette { r, g, b, a }
    }

    /// `0x__rrggbb`: the upper byte is ignored and the color is opaque.
    #[inline]
    pub fn from_hex_rgb(color: u32) -> (c: Palette)
        ensures
            c.r == channel(color, 16),
            c.g == channel(color, 8),
            c.b == channel(color, 0),
            c.a == 255,
    {
        assert(((color & 0x00ff0000u32) >> 16u32) == (color / 0x10000u32) % 0x100u32) by (bit_vector);
        assert(((color & 0x0000ff00u32) >> 8u32) == (color / 0x100u32) % 0x100u32) by (bit_vector);
        assert((color & 0x000000ffu32) == color % 0x100u32) by (bit_vector);
        Palette {
            r: ((color & 0x00ff0000) >> 16) as u8,
            g: ((color & 0x0000ff00) >> 8) as u8,
            b: (color & 0x000000ff) as u8,
            a: 0xff,
        }
    }

    /// `0xrrggbbaa`.
    #[inline]
    pub fn from_hex_rgba(color: u32) -> (c: Palette)
        ensures
            c.r == channel(color, 24),
            c.g == channel(color, 16),
            c.b == channel(color, 8),
            c.a == channel(color, 0),
    {
        assert(((color & 0xff000000u32) >> 24u32) == (color / 0x1000000u32) % 0x100u32) by (bit_vector);
        assert(((color & 0x00ff0000u32) >> 16u32) == (color / 0x10000u32) % 0x100u32) by (bit_vector);
        assert(((color & 0x0000ff00u32) >> 8u32) == (color / 0x100u32) % 0x100u32) by (bit_vector);
        assert((color & 0x000000ffu32) == color % 0x100u32) by (bit_vector);
        Palette {
            r: ((color & 0xff000000) >> 24) as u8,
            g: ((color & 0x00ff0000) >> 16) as u8,
            b: ((color & 0x0000ff00) >> 8) as u8,
            a: (color & 0x000000ff) as u8,
        }
    }

    #[inline]
    #[allow(non_snake_case)]
    pub fn WHITE(alpha: u8) -> (c: Palette)
        ensures
            c == rgba(255, 255, 255, alpha as int),
    {
        Palette::RGBA(255, 255, 255, alpha)
    }

    #[inline]
    #[allow(non_snake_case)]
    pub fn DEFAULT() -> (c: Palette)
        ensures
            c == rgba(0, 0, 0, 255),
    {
        Palette::RGBA(0, 0, 0, 255)
    }

    #[inline]
    #[allow(non_snake_case)]
    pub fn BLACK() -> (c: Palette)
        ensures
            c == rgba(0, 0, 0, 255),
    {
        Palette::RGBA(0, 0, 0, 255)
    }

    #[inline]
    #[allow(non_snake_case)]
    pub fn DARK_GRAY() -> (c: Palette)
        ensures
            c == rgba(64, 64, 64, 255),
    {
        Palette::RGBA(64, 64, 64, 255)
    }

    #[inline]
    #[allow(non_snake_case)]
    pub fn GRAY() -> (c: Palette)
        ensures
            c == rgba(170, 170, 170, 255),
    {
        Palette::from_hex_rgb(0xAAAAAA)
    }

    #[inline]
    #[allow(non_snake_case)]
    pub fn SILVER() -> (c: Palette)
        ensures
            c == rgba(221, 221, 221, 255),
    {
        Palette::from_hex_rgb(0xDDDDDD)
    }

    #[inline]
    #[allow(non_snake_case)]
    pub fn ORANGE() -> (c: Palette)
        ensures
            c == rgba(255, 127, 0, 255),
    {
        Palette::RGB(255, 127, 0)
    }

    #[inline]
    #[allow(non_snake_case)]
    pub fn SOFT_ORANGE() -> (c: Palette)
        ensures
            c == rgba(255, 133, 27, 255),
    {
        Palette::from_hex_rgb(0xFF851B)
    }

    #[inline]
    #[allow(non_snake_case)]
    pub fn YELLOW() -> (c: Palette)
        ensures
            c == rgba(255, 220, 0, 255),
    {
        Palette::from_hex_rgb(0xFFDC00)
    }

    #[inline]
    #[allow(non_snake_case)]
    pub fn RED() -> (c: Palette)
        ensures
            c == rgba(255, 0, 0, 255),
    {
        Palette::RGB(255, 0, 0)
    }

    #[inline]
    #[allow(non_snake_case)]
    pub fn LIGHT_CLAY() -> (c: Palette)
        ensures
            c == rgba(255, 170, 170, 255),
    {
        Palette::from_hex_rgb(0xFFAAAA)
    }

    #[inline]
    #[allow(non_snake_case)]
    pub fn MAROON() -> (c: Palette)
        ensures
            c == rgba(133, 20, 75, 255),
    {
        Palette::from_hex_rgb(0x85144B)
    }

    #[inline]
    #[allow(non_snake_case)]
    pub fn FUCHSIA() -> (c: Palette)
        ensures
            c == rgba(240, 18, 190, 255),
    {
        Palette::from_hex_rgb(0xF012BE)
    }

    #[inline]
    #[allow(non_snake_case)]
    pub fn GREEN() -> (c: Palette)
        ensures
            c == rgba(0, 255, 0, 255),
    {
        Palette::RGB(0, 255, 0)
    }

    #[inline]
    #[allow(non_snake_case)]
    pub fn SOFT_GREEN() -> (c: Palette)
        ensures
            c == rgba(46, 204, 64, 255),
    {
        Palette::from_hex_rgb(0x2ECC40)
    }

    #[inline]
    #[allow(non_snake_case)]
    pub fn OLIVE() -> (c: Palette)
        ensures
            c == rgba(61, 153, 112, 255),
    {
        Palette::from_hex_rgb(0x3D9970)
    }

    #[inline]
    #[allow(non_snake_case)]
    pub fn TEAL() -> (c: Palette)
        ensures
            c == rgba(57, 204, 204, 255),
    {
        Palette::from_hex_rgb(0x39CCCC)
    }

    #[inline]
    #[allow(non_snake_case)]
    pub fn LIME() -> (c: Palette)
        ensures
            c == rgba(1, 255, 112, 255),
    {
        Palette::from_hex_rgb(0x01FF70)
    }

    #[inline]
    #[allow(non_snake_case)]
    pub fn BLUE() -> (c: Palette)
        ensures
            c == rgba(0, 0, 255, 255),
    {
        Palette::RGB(0, 0, 255)
    }

    #[inline]
    #[allow(non_snake_case)]
    pub fn SOFT_BLUE() -> (c: Palette)
        ensures
            c == rgba(0, 116, 217, 255),
    {
        Palette::from_hex_rgb(0x0074D9)
    }

    #[inline]
    #[allow(non_snake_case)]
    pub fn NAVY() -> (c: Palette)
        ensures
            c == rgba(0, 31, 63, 255),
    {
        Palette::from_hex_rgb(0x001F3F)
    }

    #[inline]
    #[allow(non_snake_case)]
    pub fn AQUA() -> (c: Palette)
        ensures
            c == rgba(127, 219, 255, 255),
    {
        Palette::from_hex_rgb(0x7FDBFF)
    }

    #[inline]
    #[allow(non_snake_case)]
    pub fn LIGHT_PURPLE() -> (c: Palette)
        ensures
            c == rgba(170, 170, 255, 255),
    {
        Palette::from_hex_rgb(0xAAAAFF)
    }
}

} // verus!
