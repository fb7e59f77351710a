use vstd::prelude::*;

use crate::encoding::{
    hex_of, hsb_of, hsb_from_hsl, hsb_from_rgb, hsl_from_rgb, hsl_of, name_of, nearest_name, pack_rgb,
    rgb_from_hsl, rgb_of, unresolved_error, Encoding,
};
use crate::error::PaletteError;

verus! {

/// Hue, saturation and lightness: hue in degrees (0 to 360), saturation and
/// lightness in permille (0 to 1000).
#[derive(Debug, Clone, Copy, PartialEq, Eq, Structural, Hash)]
pub struct Hsl {
    pub h: u16,
    pub s: u16,
    pub l: u16,
}

impl Hsl {
    /// Whether every component lies in its domain.
    pub open spec fn valid(&self) -> bool {
        self.h <= 360 && self.s <= 1000 && self.l <= 1000
    }

    pub fn encode(&self) -> (r: Encoding)
        ensures
            r == Encoding::Hsl(self.h, self.s, self.l),
    {
        Encoding::Hsl(self.h, self.s, self.l)
    }

    pub fn new(h: u16, s: u16, l: u16) -> (r: Hsl)
        ensures
            r == (Hsl { h, s, l }),
    {
        Hsl { h, s, l }
    }
}

/// Red, green and blue channels, 0 to 255 each.
#[derive(Debug, Clone, Copy, PartialEq, Eq, Structural, Hash)]
pub struct Rgb {
    pub r: u8,
    pub g: u8,
    pub b: u8,
}

impl Rgb {
    pub fn encode(&self) -> (r: Encoding)
        ensures
            r == Encoding::Rgb(self.r, self.g, self.b),
    {
        Encoding::Rgb(self.r, self.g, self.b)
    }

    pub fn new(r: u8, g: u8, b: u8) -> (c: Rgb)
        ensures
            c == (Rgb { r, g, b }),
    {
        Rgb { r, g, b }
    }
}

/// Hue, saturation and brightness: hue in degrees (0 to 360), saturation and
/// brightness in permille (0 to 1000).
#[derive(Debug, Clone, Copy, PartialEq, Eq, Structural, Hash)]
pub struct Hsb {
    pub h: u16,
    pub s: u16,
    pub b: u16,
}

impl Hsb {
    /// Whether every component lies in its domain.
    pub open spec fn valid(&self) -> bool {
        self.h <= 360 && self.s <= 1000 && self.b <= 1000
    }

    pub fn encode(&self) -> (r: Encoding)
        ensures
            r == Encoding::Hsb(self.h, self.s, self.b),
    {
        Encoding::Hsb(self.h, self.s, self.b)
    }

    pub fn new(h: u16, s: u16, b: u16) -> (r: Hsb)
        ensures
            r == (Hsb { h, s, b }),
    {
        Hsb { h, s, b }
    }
}

/// Packed `0xRRGGBB` value.
#[derive(Debug, Clone, Copy, PartialEq, Eq, Structural, Hash)]
pub struct Hex {
    pub h: u32,
}

impl Hex {
    pub fn encode(&self) -> (r: Encoding)
        ensures
            r == Encoding::Hex(self.h),
    {
        Encoding::Hex(self.h)
    }

    pub fn new(h: u32) -> (r: Hex)
        ensures
            r == (Hex { h }),
    {
        Hex { h }
    }
}

/// One color held in every representation at once, plus the `locked` flag
/// that palette editing toggles.
#[derive(Debug, Clone, PartialEq, Eq, Hash)]
pub struct Color {
    pub rgb: Rgb,
    pub hsl: Hsl,
    pub hsb: Hsb,
    pub hex: Hex,
    pub name: String,
    pub locked: bool,
}

impl Color {
    /// Every representation held by `self` is the one that the conversion
    /// engine computes from `code`.
    #[verifier::opaque]
    pub open spec fn represents(&self, code: Encoding) -> bool {
        &&& self.rgb == rgb_of(code)
        &&& self.hsl == hsl_of(code)
        &&& self.hsb == hsb_of(code)
        &&& self.hex == hex_of(code)
        &&& self.name@ == name_of(code)
    }

    /// The five representations describe one color: the one of some
    /// encoding.
    pub open spec fn resolved(&self) -> bool {
        exists|code: Encoding| #[trigger] self.represents(code)
    }

    /// Resolves `code` into all five representations, unlocked. Fails, as a
    /// whole, only on a name that the named-color table does not hold.
    pub fn new(code: Encoding) -> (r: Result<Color, PaletteError>)
        requires
            code.valid(),
        ensures
            r is Ok <==> code.resolvable(),
            r matches Ok(c) ==> c.represents(code) && !c.locked,
            r matches Err(e) ==> unresolved_error(code, e),
    {
        let rgb = match code.get_rgb() {
            Ok(v) => v,
            Err(e) => return Err(e),
        };
        let hsl = match code.get_hsl() {
            Ok(v) => v,
            Err(e) => return Err(e),
        };
        let hsb = match code.get_hsb() {
            Ok(v) => v,
            Err(e) => return Err(e),
        };
        let hex = match code.get_hex() {
            Ok(v) => v,
            Err(e) => return Err(e),
        };
        let name = code.get_name();
        proof {
            reveal(Color::represents);
        }
        Ok(Color { rgb, hsl, hsb, hex, name, locked: false })
    }
    /// The unlocked color of an RGB triple; RGB input always resolves.
    pub fn from_rgb(c: Rgb) -> (r: Color)
        ensures
            r.represents(Encoding::Rgb(c.r, c.g, c.b)),
            r.resolved(),
            r.hsl.valid(),
            !r.locked,
    {
        proof {
            reveal(Color::represents);
        }
        Color {
            rgb: c,
            hsl: hsl_from_rgb(c),
            hsb: hsb_from_rgb(c),
            hex: pack_rgb(c),
            name: nearest_name(c),
            locked: false,
        }
    }

    /// The unlocked color of an HSL point within its domain.
    pub fn from_hsl(c: Hsl) -> (r: Color)
        requires
            c.valid(),
        ensures
            r.represents(Encoding::Hsl(c.h, c.s, c.l)),
            r.resolved(),
            r.hsl == c,
            !r.locked,
    {
        let rgb = rgb_from_hsl(c.h, c.s, c.l);
        proof {
            reveal(Color::represents);
        }
        Color {
            rgb,
            hsl: c,
            hsb: hsb_from_hsl(c.h, c.s, c.l),
            hex: pack_rgb(rgb),
            name: nearest_name(rgb),
            locked: false,
        }
    }
}

} // verus!
