use vstd::prelude::*;

use crate::color_math::{distance, three_node_distance_rgb};
use crate::color_spaces::{Hex, Hsb, Hsl, Rgb};
use crate::error::PaletteError;
use crate::named_colors::{entry_name, entry_rgb, named_color, NAMED_COLOR_COUNT};
use vstd::arithmetic::div_mod::{lemma_div_pos_is_pos, lemma_multiply_divide_lt};

verus! {

/// A color written in exactly one representation.
#[derive(Debug, Clone, PartialEq, Eq, Hash)]
pub enum Encoding {
    Rgb(u8, u8, u8),
    Hsl(u16, u16, u16),
    Name(String),
    Hsb(u16, u16, u16),
    Hex(u32),
}

// ---------------------------------------------------------------------------
// Arithmetic model
// ---------------------------------------------------------------------------

/// Nearest integer to `p / q` (for `p >= 0`, `q > 0`), halves rounded up.
pub open spec fn round_div(p: int, q: int) -> int {
    (2 * p + q) / (2 * q)
}

pub open spec fn abs(x: int) -> int {
    if x < 0 {
        -x
    } else {
        x
    }
}

pub open spec fn max3(a: int, b: int, c: int) -> int {
    let m = if a >= b { a } else { b };
    if m >= c { m } else { c }
}

pub open spec fn min3(a: int, b: int, c: int) -> int {
    let m = if a <= b { a } else { b };
    if m <= c { m } else { c }
}

// ---------------------------------------------------------------------------
// Hue-region decomposition (HSL / HSB to RGB)
//
// Intensities are fractions of 120_000_000 units; a chroma is given in
// millionths, that is a permille saturation times a permille factor.
// ---------------------------------------------------------------------------

/// Weight, out of 60, of the secondary component at hue `h`:
/// `60 * (1 - |(h / 60) mod 2 - 1|)`.
pub open spec fn secondary_weight(h: int) -> int {
    60 - abs(h % 120 - 60)
}

/// Primary `c` and secondary `x` components placed on the channels of the
/// 60-degree region of hue `h`.
pub open spec fn place_by_region(h: int, c: int, x: int) -> (int, int, int) {
    let region = h / 60;
    if region == 0 {
        (c, x, 0)
    } else if region == 1 {
        (x, c, 0)
    } else if region == 2 {
        (0, c, x)
    } else if region == 3 {
        (0, x, c)
    } else if region == 4 {
        (x, 0, c)
    } else {
        (c, 0, x)
    }
}

/// An intensity in units of 1/120_000_000, rounded to the nearest byte.
pub open spec fn to_byte(v: int) -> int {
    round_div(v * 255, 120_000_000)
}

/// The color of hue `h` with the given chroma (in millionths) and offset
/// `m` (in units of 1/120_000_000).
pub open spec fn rgb_from_chroma(h: int, chroma: int, m: int) -> Rgb {
    let c = chroma * 120;
    let x = chroma * secondary_weight(h) * 2;
    let ch = place_by_region(h, c, x);
    Rgb { r: to_byte(ch.0 + m) as u8, g: to_byte(ch.1 + m) as u8, b: to_byte(ch.2 + m) as u8 }
}

/// Chroma of an HSL point, in millionths: `(1 - |2l - 1|) * s`.
pub open spec fn hsl_chroma(s: int, l: int) -> int {
    (1000 - abs(2 * l - 1000)) * s
}

/// RGB of an HSL point: offset `m = l - c / 2`.
pub open spec fn rgb_of_hsl(h: int, s: int, l: int) -> Rgb {
    let c = hsl_chroma(s, l);
    rgb_from_chroma(h, c, l * 120_000 - c * 60)
}

/// RGB of an HSB point: chroma `b * s`, offset `m = b - c`.
pub open spec fn rgb_of_hsb(h: int, s: int, b: int) -> Rgb {
    let c = b * s;
    rgb_from_chroma(h, c, (b * 1000 - c) * 120)
}

// ---------------------------------------------------------------------------
// Chroma-based inverse (RGB to HSL / HSB)
// ---------------------------------------------------------------------------

/// A byte rescaled to permille, rounded to nearest.
pub open spec fn permille_of_byte(v: int) -> int {
    round_div(v * 1000, 255)
}

/// Hue in degrees of permille channels, by the six-branch selector on the
/// maximal channel; zero when the color is achromatic.
pub open spec fn hue_of(r: int, g: int, b: int) -> int {
    let hi = max3(r, g, b);
    let d = hi - min3(r, g, b);
    if d == 0 {
        0
    } else if hi == r {
        if g >= b {
            round_div(60 * (g - b), d)
        } else {
            round_div(60 * (g - b) + 360 * d, d)
        }
    } else if hi == g {
        round_div(60 * (b - r) + 120 * d, d)
    } else {
        round_div(60 * (r - g) + 240 * d, d)
    }
}

pub open spec fn hsl_of_rgb(c: Rgb) -> Hsl {
    let r = permille_of_byte(c.r as int);
    let g = permille_of_byte(c.g as int);
    let b = permille_of_byte(c.b as int);
    let hi = max3(r, g, b);
    let lo = min3(r, g, b);
    let d = hi - lo;
    let s = if d == 0 {
        0
    } else {
        round_div(d * 1000, 1000 - abs(hi + lo - 1000))
    };
    Hsl { h: hue_of(r, g, b) as u16, s: s as u16, l: round_div(hi + lo, 2) as u16 }
}

pub open spec fn hsb_of_rgb(c: Rgb) -> Hsb {
    let r = permille_of_byte(c.r as int);
    let g = permille_of_byte(c.g as int);
    let b = permille_of_byte(c.b as int);
    let hi = max3(r, g, b);
    let d = hi - min3(r, g, b);
    let s = if hi == 0 {
        0
    } else {
        round_div(d * 1000, hi)
    };
    Hsb { h: hue_of(r, g, b) as u16, s: s as u16, b: hi as u16 }
}

// ---------------------------------------------------------------------------
// Direct HSL <-> HSB formulas
// ---------------------------------------------------------------------------

/// `v = l + s * min(l, 1 - l)`, `s' = 2 * (1 - l / v)` (zero when `v = 0`).
pub open spec fn hsb_of_hsl(h: u16, s: int, l: int) -> Hsb {
    let m = if l <= 1000 - l { l } else { 1000 - l };
    let n = 1000 * l + s * m;
    let sv = if l == 0 {
        0
    } else {
        round_div(2000 * s * m, n)
    };
    Hsb { h, s: sv as u16, b: round_div(n, 1000) as u16 }
}

/// `l = v * (1 - s / 2)`, `s' = (v - l) / min(l, 1 - l)` (zero when `l` is
/// 0 or 1).
pub open spec fn hsl_of_hsb(h: u16, s: int, b: int) -> Hsl {
    let q = b * (2000 - s);
    let m = if q <= 2_000_000 - q { q } else { 2_000_000 - q };
    let sl = if q == 0 || q == 2_000_000 {
        0
    } else {
        round_div(1000 * b * s, m)
    };
    Hsl { h, s: sl as u16, l: round_div(q, 2000) as u16 }
}

// ---------------------------------------------------------------------------
// Hexadecimal packing
// ---------------------------------------------------------------------------

pub open spec fn pack(c: Rgb) -> u32 {
    (c.r * 65536 + c.g * 256 + c.b) as u32
}

pub open spec fn rgb_of_hex(v: u32) -> Rgb {
    Rgb { r: ((v / 65536) % 256) as u8, g: ((v / 256) % 256) as u8, b: (v % 256) as u8 }
}

// ---------------------------------------------------------------------------
// Named colors
// ---------------------------------------------------------------------------

pub open spec fn entry_color(i: usize) -> Rgb {
    let e = entry_rgb(i);
    Rgb { r: e.0, g: e.1, b: e.2 }
}

/// Position of the first entry from `i` on that is called `n`, or the table
/// size if there is none.
pub open spec fn name_position(n: Seq<char>, i: nat) -> nat
    decreases NAMED_COLOR_COUNT - i,
{
    if i >= NAMED_COLOR_COUNT {
        NAMED_COLOR_COUNT as nat
    } else if entry_name(i as usize) == n {
        i
    } else {
        name_position(n, i + 1)
    }
}

pub open spec fn is_known_name(n: Seq<char>) -> bool {
    name_position(n, 0) < NAMED_COLOR_COUNT
}

/// Position of the first entry of minimal distance to `target` among the
/// first `n` entries of the table.
pub open spec fn nearest_among(target: Rgb, n: nat) -> nat
    decreases n,
{
    if n <= 1 {
        0
    } else {
        let k = nearest_among(target, (n - 1) as nat);
        if distance(entry_color((n - 1) as usize), target) < distance(
            entry_color(k as usize),
            target,
        ) {
            (n - 1) as nat
        } else {
            k
        }
    }
}

/// Position of the first table entry of minimal distance to `target`.
pub open spec fn nearest_entry(target: Rgb) -> nat {
    nearest_among(target, NAMED_COLOR_COUNT as nat)
}

// ---------------------------------------------------------------------------
// The conversion engine
// ---------------------------------------------------------------------------

impl Encoding {
    /// Hue, saturation, lightness and brightness lie in their domains, and a
    /// hexadecimal value fits in 24 bits.
    pub open spec fn valid(&self) -> bool {
        match *self {
            Encoding::Hsl(h, s, l) => h <= 360 && s <= 1000 && l <= 1000,
            Encoding::Hsb(h, s, b) => h <= 360 && s <= 1000 && b <= 1000,
            Encoding::Hex(v) => v <= 0xffffff,
            _ => true,
        }
    }

    /// Every encoding resolves but a name absent from the table.
    pub open spec fn resolvable(&self) -> bool {
        match self {
            Encoding::Name(n) => is_known_name(n@),
            _ => true,
        }
    }
}

/// The error for an encoding that does not resolve: the unknown name.
pub open spec fn unresolved_error(code: Encoding, e: PaletteError) -> bool {
    match code {
        Encoding::Name(n) => e == PaletteError::UntranslatableEncoding(n),
        _ => false,
    }
}

pub open spec fn rgb_of(code: Encoding) -> Rgb {
    match code {
        Encoding::Rgb(r, g, b) => Rgb { r, g, b },
        Encoding::Hsl(h, s, l) => rgb_of_hsl(h as int, s as int, l as int),
        Encoding::Hsb(h, s, b) => rgb_of_hsb(h as int, s as int, b as int),
        Encoding::Hex(v) => rgb_of_hex(v),
        Encoding::Name(n) => {
            let p = name_position(n@, 0);
            if p < NAMED_COLOR_COUNT {
                entry_color(p as usize)
            } else {
                Rgb { r: 0, g: 0, b: 0 }
            }
        },
    }
}

pub open spec fn hsl_of(code: Encoding) -> Hsl {
    match code {
        Encoding::Hsl(h, s, l) => Hsl { h, s, l },
        Encoding::Hsb(h, s, b) => hsl_of_hsb(h, s as int, b as int),
        _ => hsl_of_rgb(rgb_of(code)),
    }
}

pub open spec fn hsb_of(code: Encoding) -> Hsb {
    match code {
        Encoding::Hsb(h, s, b) => Hsb { h, s, b },
        Encoding::Hsl(h, s, l) => hsb_of_hsl(h, s as int, l as int),
        _ => hsb_of_rgb(rgb_of(code)),
    }
}

pub open spec fn hex_of(code: Encoding) -> Hex {
    Hex { h: pack(rgb_of(code)) }
}

pub open spec fn name_of(code: Encoding) -> Seq<char> {
    match code {
        Encoding::Name(n) => n@,
        _ => entry_name(nearest_entry(rgb_of(code)) as usize),
    }
}

// ---------------------------------------------------------------------------
// Executable arithmetic
// ---------------------------------------------------------------------------

/// `round_div` of a nonnegative numerator lies in `[0, k]` when `p <= k * q`.
pub proof fn lemma_round_div_bound(p: int, q: int, k: int)
    requires
        0 <= p,
        p <= k * q,
        0 < q,
    ensures
        0 <= round_div(p, q) <= k,
{
    assert(2 * p + q < (2 * q) * (k + 1)) by (nonlinear_arith)
        requires
            p <= k * q,
            0 < q,
    ;
    lemma_multiply_divide_lt(2 * p + q, 2 * q, k + 1);
    lemma_div_pos_is_pos(2 * p + q, 2 * q);
}

fn round_div_u64(p: u64, q: u64) -> (r: u64)
    requires
        0 < q <= 4_000_000_000,
        p <= 4_000_000_000_000,
    ensures
        r == round_div(p as int, q as int),
{
    (2 * p + q) / (2 * q)
}

fn channel_byte(v: u64) -> (r: u8)
    requires
        v <= 120_000_000,
    ensures
        r as int == to_byte(v as int),
{
    proof {
        lemma_round_div_bound(v * 255, 120_000_000, 255);
    }
    round_div_u64(v * 255, 120_000_000) as u8
}

fn rgb_from_chroma_exec(h: u64, chroma: u64, m: u64) -> (c: Rgb)
    requires
        h <= 360,
        chroma <= 1_000_000,
        chroma * 120 + m <= 120_000_000,
    ensures
        c == rgb_from_chroma(h as int, chroma as int, m as int),
{
    let c = chroma * 120;
    let t = h % 120;
    let weight: u64 = if t >= 60 {
        120 - t
    } else {
        t
    };
    assert(weight as int == secondary_weight(h as int));
    assert(chroma * weight <= chroma * 60) by (nonlinear_arith)
        requires
            weight <= 60,
    ;
    let x = chroma * weight * 2;
    let region = h / 60;
    let ch: (u64, u64, u64) = if region == 0 {
        (c, x, 0)
    } else if region == 1 {
        (x, c, 0)
    } else if region == 2 {
        (0, c, x)
    } else if region == 3 {
        (0, x, c)
    } else if region == 4 {
        (x, 0, c)
    } else {
        (c, 0, x)
    };
    Rgb { r: channel_byte(ch.0 + m), g: channel_byte(ch.1 + m), b: channel_byte(ch.2 + m) }
}

pub(crate) fn rgb_from_hsl(h: u16, s: u16, l: u16) -> (c: Rgb)
    requires
        h <= 360,
        s <= 1000,
        l <= 1000,
    ensures
        c == rgb_of_hsl(h as int, s as int, l as int),
{
    let l = l as u64;
    let s = s as u64;
    let k: u64 = if 2 * l >= 1000 {
        2000 - 2 * l
    } else {
        2 * l
    };
    assert(k * s <= k * 1000) by (nonlinear_arith)
        requires
            s <= 1000,
    ;
    let chroma = k * s;
    assert(chroma as int == hsl_chroma(s as int, l as int));
    let m = l * 120_000 - chroma * 60;
    rgb_from_chroma_exec(h as u64, chroma, m)
}

fn rgb_from_hsb(h: u16, s: u16, b: u16) -> (c: Rgb)
    requires
        h <= 360,
        s <= 1000,
        b <= 1000,
    ensures
        c == rgb_of_hsb(h as int, s as int, b as int),
{
    let b = b as u64;
    let s = s as u64;
    assert(b * s <= b * 1000) by (nonlinear_arith)
        requires
            s <= 1000,
    ;
    let chroma = b * s;
    rgb_from_chroma_exec(h as u64, chroma, (b * 1000 - chroma) * 120)
}

pub(crate) fn unpack_hex(v: u32) -> (c: Rgb)
    ensures
        c == rgb_of_hex(v),
{
    assert((v >> 16u32) & 0xffu32 == (v / 65536) % 256) by (bit_vector);
    assert((v >> 8u32) & 0xffu32 == (v / 256) % 256) by (bit_vector);
    assert(v & 0xffu32 == v % 256) by (bit_vector);
    Rgb { r: ((v >> 16u32) & 0xffu32) as u8, g: ((v >> 8u32) & 0xffu32) as u8, b: (v & 0xffu32) as u8 }
}

pub(crate) fn pack_rgb(c: Rgb) -> (x: Hex)
    ensures
        x == (Hex { h: pack(c) }),
{
    let r = c.r as u32;
    let g = c.g as u32;
    let b = c.b as u32;
    assert((r << 16u32) | (g << 8u32) | b == r * 65536 + g * 256 + b) by (bit_vector)
        requires
            r < 256,
            g < 256,
            b < 256,
    ;
    Hex { h: (r << 16u32) | (g << 8u32) | b }
}

fn permille_from_byte(v: u8) -> (r: u64)
    ensures
        r as int == permille_of_byte(v as int),
        r <= 1000,
{
    proof {
        lemma_round_div_bound(v * 1000, 255, 1000);
    }
    round_div_u64(v as u64 * 1000, 255)
}

fn hue_from_permille(r: u64, g: u64, b: u64) -> (h: u16)
    requires
        r <= 1000,
        g <= 1000,
        b <= 1000,
    ensures
        h as int == hue_of(r as int, g as int, b as int),
        h <= 360,
{
    let m1 = if r >= g { r } else { g };
    let hi = if m1 >= b { m1 } else { b };
    let n1 = if r <= g { r } else { g };
    let lo = if n1 <= b { n1 } else { b };
    let d = hi - lo;
    if d == 0 {
        0
    } else if hi == r {
        if g >= b {
            proof {
                lemma_round_div_bound(60 * (g - b), d as int, 360);
            }
            round_div_u64(60 * (g - b), d) as u16
        } else {
            proof {
                lemma_round_div_bound(360 * d - 60 * (b - g), d as int, 360);
            }
            round_div_u64(360 * d - 60 * (b - g), d) as u16
        }
    } else if hi == g {
        proof {
            lemma_round_div_bound(120 * d + 60 * b - 60 * r, d as int, 360);
        }
        round_div_u64(120 * d + 60 * b - 60 * r, d) as u16
    } else {
        proof {
            lemma_round_div_bound(240 * d + 60 * r - 60 * g, d as int, 360);
        }
        round_div_u64(240 * d + 60 * r - 60 * g, d) as u16
    }
}

pub(crate) fn hsl_from_rgb(c: Rgb) -> (x: Hsl)
    ensures
        x == hsl_of_rgb(c),
        x.valid(),
{
    let r = permille_from_byte(c.r);
    let g = permille_from_byte(c.g);
    let b = permille_from_byte(c.b);
    let m1 = if r >= g { r } else { g };
    let hi = if m1 >= b { m1 } else { b };
    let n1 = if r <= g { r } else { g };
    let lo = if n1 <= b { n1 } else { b };
    let d = hi - lo;
    let h = hue_from_permille(r, g, b);
    let s: u64 = if d == 0 {
        0
    } else {
        let den: u64 = if hi + lo >= 1000 {
            2000 - (hi + lo)
        } else {
            hi + lo
        };
        proof {
            lemma_round_div_bound(d * 1000, den as int, 1000);
        }
        round_div_u64(d * 1000, den)
    };
    proof {
        lemma_round_div_bound(hi + lo, 2, 1000);
    }
    let l = round_div_u64(hi + lo, 2);
    Hsl { h, s: s as u16, l: l as u16 }
}

pub(crate) fn hsb_from_rgb(c: Rgb) -> (x: Hsb)
    ensures
        x == hsb_of_rgb(c),
        x.valid(),
{
    let r = permille_from_byte(c.r);
    let g = permille_from_byte(c.g);
    let b = permille_from_byte(c.b);
    let m1 = if r >= g { r } else { g };
    let hi = if m1 >= b { m1 } else { b };
    let n1 = if r <= g { r } else { g };
    let lo = if n1 <= b { n1 } else { b };
    let d = hi - lo;
    let h = hue_from_permille(r, g, b);
    let s: u64 = if hi == 0 {
        0
    } else {
        proof {
            lemma_round_div_bound(d * 1000, hi as int, 1000);
        }
        round_div_u64(d * 1000, hi)
    };
    Hsb { h, s: s as u16, b: hi as u16 }
}

pub(crate) fn hsb_from_hsl(h: u16, s: u16, l: u16) -> (x: Hsb)
    requires
        h <= 360,
        s <= 1000,
        l <= 1000,
    ensures
        x == hsb_of_hsl(h, s as int, l as int),
        x.valid(),
{
    let l = l as u64;
    let s = s as u64;
    let m = if l <= 1000 - l {
        l
    } else {
        1000 - l
    };
    assert(s * m <= 1000 * m && 2000 * s * m == 2000 * (s * m)) by (nonlinear_arith)
        requires
            s <= 1000,
    ;
    let n = 1000 * l + s * m;
    let sv: u64 = if l == 0 {
        0
    } else {
        proof {
            lemma_round_div_bound(2000 * s * m, n as int, 1000);
        }
        round_div_u64(2000 * s * m, n)
    };
    proof {
        lemma_round_div_bound(n as int, 1000, 1000);
    }
    let v = round_div_u64(n, 1000);
    Hsb { h, s: sv as u16, b: v as u16 }
}

fn hsl_from_hsb(h: u16, s: u16, b: u16) -> (x: Hsl)
    requires
        h <= 360,
        s <= 1000,
        b <= 1000,
    ensures
        x == hsl_of_hsb(h, s as int, b as int),
        x.valid(),
{
    let b = b as u64;
    let s = s as u64;
    assert(b * (2000 - s) + b * s == 2000 * b && b * s <= b * (2000 - s) && b * (2000 - s)
        <= 2_000_000 && 1000 * b * s == 1000 * (b * s)) by (nonlinear_arith)
        requires
            s <= 1000,
            b <= 1000,
    ;
    let q = b * (2000 - s);
    let m = if q <= 2_000_000 - q {
        q
    } else {
        2_000_000 - q
    };
    let sl: u64 = if q == 0 || q == 2_000_000 {
        0
    } else {
        proof {
            lemma_round_div_bound(1000 * b * s, m as int, 1000);
        }
        round_div_u64(1000 * b * s, m)
    };
    proof {
        lemma_round_div_bound(q as int, 2000, 1000);
    }
    let l = round_div_u64(q, 2000);
    Hsl { h, s: sl as u16, l: l as u16 }
}

// ---------------------------------------------------------------------------
// Named-color lookups
// ---------------------------------------------------------------------------

fn lookup_name(n: &String) -> (r: Option<Rgb>)
    ensures
        r is Some <==> is_known_name(n@),
        r matches Some(c) ==> c == entry_color(name_position(n@, 0) as usize),
{
    let mut i: usize = 0;
    while i < NAMED_COLOR_COUNT
        invariant
            i <= NAMED_COLOR_COUNT,
            name_position(n@, 0) == name_position(n@, i as nat),
        decreases NAMED_COLOR_COUNT - i,
    {
        let (key, r, g, b) = named_color(i);
        let candidate = key.to_owned();
        if candidate == *n {
            return Some(Rgb { r, g, b });
        }
        i = i + 1;
    }
    None
}

pub proof fn lemma_distance_nonneg(a: Rgb, b: Rgb)
    ensures
        distance(a, b) >= 0,
{
    let dr = a.r - b.r;
    let dg = a.g - b.g;
    let db = a.b - b.b;
    assert(dr * dr + dg * dg + db * db >= 0) by (nonlinear_arith);
}

/// Once an entry at zero distance is the nearest, no later entry displaces
/// it.
proof fn lemma_nearest_settled(target: Rgb, k: nat, n: nat)
    requires
        1 <= k <= n,
        distance(entry_color(nearest_among(target, k) as usize), target) == 0,
    ensures
        nearest_among(target, n) == nearest_among(target, k),
    decreases n - k,
{
    if n > k {
        lemma_nearest_settled(target, k, (n - 1) as nat);
        lemma_distance_nonneg(entry_color((n - 1) as usize), target);
    }
}

pub(crate) fn nearest_name(target: Rgb) -> (r: String)
    ensures
        r@ == entry_name(nearest_entry(target) as usize),
{
    let (key0, r0, g0, b0) = named_color(0);
    let mut best: usize = 0;
    let mut best_name: &str = key0;
    let mut best_d: u32 = three_node_distance_rgb(Rgb { r: r0, g: g0, b: b0 }, target);
    let mut i: usize = 1;
    while i < NAMED_COLOR_COUNT && best_d > 0
        invariant
            1 <= i <= NAMED_COLOR_COUNT,
            best < NAMED_COLOR_COUNT,
            best as nat == nearest_among(target, i as nat),
            best_name@ == entry_name(best),
            best_d == distance(entry_color(best), target),
        decreases NAMED_COLOR_COUNT - i,
    {
        let (key, r, g, b) = named_color(i);
        let d = three_node_distance_rgb(Rgb { r, g, b }, target);
        if d < best_d {
            best = i;
            best_name = key;
            best_d = d;
        }
        i = i + 1;
    }
    proof {
        if best_d == 0 {
            lemma_nearest_settled(target, i as nat, NAMED_COLOR_COUNT as nat);
        }
    }
    best_name.to_owned()
}

// ---------------------------------------------------------------------------
// Public conversions
// ---------------------------------------------------------------------------

impl Encoding {
    /// The RGB form; fails only on a name that the table does not hold.
    pub fn get_rgb(&self) -> (r: Result<Rgb, PaletteError>)
        requires
            self.valid(),
        ensures
            r is Ok <==> self.resolvable(),
            r matches Ok(c) ==> c == rgb_of(*self),
            r matches Err(e) ==> unresolved_error(*self, e),
    {
        match self {
            Encoding::Rgb(r, g, b) => Ok(Rgb { r: *r, g: *g, b: *b }),
            Encoding::Hsl(h, s, l) => Ok(rgb_from_hsl(*h, *s, *l)),
            Encoding::Hsb(h, s, b) => Ok(rgb_from_hsb(*h, *s, *b)),
            Encoding::Hex(v) => Ok(unpack_hex(*v)),
            Encoding::Name(n) => match lookup_name(n) {
                Some(c) => Ok(c),
                None => Err(PaletteError::UntranslatableEncoding(n.clone())),
            },
        }
    }

    /// The HSL form: identity on HSL, the direct formula from HSB, and the
    /// chroma-based inverse of the RGB form otherwise.
    pub fn get_hsl(&self) -> (r: Result<Hsl, PaletteError>)
        requires
            self.valid(),
        ensures
            r is Ok <==> self.resolvable(),
            r matches Ok(c) ==> c == hsl_of(*self) && c.valid(),
            r matches Err(e) ==> unresolved_error(*self, e),
    {
        match self {
            Encoding::Hsl(h, s, l) => Ok(Hsl { h: *h, s: *s, l: *l }),
            Encoding::Hsb(h, s, b) => Ok(hsl_from_hsb(*h, *s, *b)),
            _ => match self.get_rgb() {
                Ok(c) => Ok(hsl_from_rgb(c)),
                Err(e) => Err(e),
            },
        }
    }

    /// The HSB form: identity on HSB, the direct formula from HSL, and the
    /// chroma-based inverse of the RGB form otherwise.
    pub fn get_hsb(&self) -> (r: Result<Hsb, PaletteError>)
        requires
            self.valid(),
        ensures
            r is Ok <==> self.resolvable(),
            r matches Ok(c) ==> c == hsb_of(*self) && c.valid(),
            r matches Err(e) ==> unresolved_error(*self, e),
    {
        match self {
            Encoding::Hsb(h, s, b) => Ok(Hsb { h: *h, s: *s, b: *b }),
            Encoding::Hsl(h, s, l) => Ok(hsb_from_hsl(*h, *s, *l)),
            _ => match self.get_rgb() {
                Ok(c) => Ok(hsb_from_rgb(c)),
                Err(e) => Err(e),
            },
        }
    }

    /// The packed `0xRRGGBB` form of the RGB form.
    pub fn get_hex(&self) -> (r: Result<Hex, PaletteError>)
        requires
            self.valid(),
        ensures
            r is Ok <==> self.resolvable(),
            r matches Ok(x) ==> x == hex_of(*self),
            r matches Err(e) ==> unresolved_error(*self, e),
    {
        match self.get_rgb() {
            Ok(c) => Ok(pack_rgb(c)),
            Err(e) => Err(e),
        }
    }

    /// The name itself for a name; otherwise the name of the first table
    /// entry at minimal distance from the RGB form.
    pub fn get_name(&self) -> (r: String)
        requires
            self.valid(),
        ensures
            r@ == name_of(*self),
    {
        match self {
            Encoding::Name(n) => n.clone(),
            Encoding::Rgb(r, g, b) => nearest_name(Rgb { r: *r, g: *g, b: *b }),
            Encoding::Hsl(h, s, l) => nearest_name(rgb_from_hsl(*h, *s, *l)),
            Encoding::Hsb(h, s, b) => nearest_name(rgb_from_hsb(*h, *s, *b)),
            Encoding::Hex(v) => nearest_name(unpack_hex(*v)),
        }
    }
}

// ---------------------------------------------------------------------------
// Laws
// ---------------------------------------------------------------------------

/// RGB and hexadecimal forms determine each other: the hexadecimal form of
/// an RGB triple resolves back to that triple, and a 24-bit hexadecimal
/// value resolves to a triple whose packing is that value.
pub proof fn lemma_rgb_hex_lossless(c: Rgb, v: u32)
    requires
        v < 0x1000000,
    ensures
        rgb_of(Encoding::Hex(hex_of(Encoding::Rgb(c.r, c.g, c.b)).h)) == c,
        hex_of(Encoding::Hex(v)).h == v,
{
    let p = c.r * 65536 + c.g * 256 + c.b;
    assert(p / 65536 == c.r && (p / 256) % 256 == c.g && p % 256 == c.b) by (nonlinear_arith)
        requires
            p == c.r * 65536 + c.g * 256 + c.b,
            0 <= c.r < 256,
            0 <= c.g < 256,
            0 <= c.b < 256,
    ;
    let r = (v / 65536) % 256;
    let g = (v / 256) % 256;
    let b = v % 256;
    assert(r * 65536 + g * 256 + b == v) by (nonlinear_arith)
        requires
            0 <= v < 0x1000000,
            r == (v / 65536) % 256,
            g == (v / 256) % 256,
            b == v % 256,
    ;
}

/// The nearest entry is the first one at minimal distance: no entry is
/// nearer, and every entry before it is strictly farther.
pub proof fn lemma_nearest_entry_is_first_minimal(target: Rgb)
    ensures
        nearest_entry(target) < NAMED_COLOR_COUNT,
        forall|j: usize|
            j < NAMED_COLOR_COUNT ==> distance(entry_color(nearest_entry(target) as usize), target)
                <= #[trigger] distance(entry_color(j), target),
        forall|j: usize|
            j < nearest_entry(target) ==> distance(entry_color(nearest_entry(target) as usize), target)
                < #[trigger] distance(entry_color(j), target),
{
    lemma_nearest_among_first_minimal(target, NAMED_COLOR_COUNT as nat);
}

proof fn lemma_nearest_among_first_minimal(target: Rgb, n: nat)
    requires
        n >= 1,
    ensures
        nearest_among(target, n) < n,
        forall|j: usize|
            j < n ==> distance(entry_color(nearest_among(target, n) as usize), target)
                <= #[trigger] distance(entry_color(j), target),
        forall|j: usize|
            j < nearest_among(target, n) ==> distance(
                entry_color(nearest_among(target, n) as usize),
                target,
            ) < #[trigger] distance(entry_color(j), target),
    decreases n,
{
    if n > 1 {
        lemma_nearest_among_first_minimal(target, (n - 1) as nat);
    }
}

/// `round_div(p, q)` lies within half a unit of `p / q`.
proof fn lemma_round_div_close(p: int, q: int)
    requires
        q > 0,
    ensures
        2 * p - q < (2 * q) * round_div(p, q) <= 2 * p + q,
{
    vstd::arithmetic::div_mod::lemma_fundamental_div_mod(2 * p + q, 2 * q);
    vstd::arithmetic::div_mod::lemma_mod_bound(2 * p + q, 2 * q);
}

/// Permille of the byte of an intensity `v` (in units of 1/120_000_000).
pub open spec fn channel_permille(v: int) -> int {
    permille_of_byte(to_byte(v))
}

/// The byte of an intensity lies in `0..=255`, and its permille is within
/// 1255/510 permille of the exact intensity.
proof fn lemma_channel_permille(v: int)
    requires
        0 <= v <= 120_000_000,
    ensures
        0 <= to_byte(v) <= 255,
        0 <= channel_permille(v) <= 1000,
        510_000 * v - 1255 * 120_000_000 < 510 * 120_000_000 * channel_permille(v),
        510 * 120_000_000 * channel_permille(v) <= 510_000 * v + 1255 * 120_000_000,
{
    let t = to_byte(v);
    let q = channel_permille(v);
    lemma_round_div_bound(v * 255, 120_000_000, 255);
    lemma_round_div_close(v * 255, 120_000_000);
    lemma_round_div_bound(t * 1000, 255, 1000);
    lemma_round_div_close(t * 1000, 255);
    assert(510 * 120_000_000 * q - 510_000 * v + 1255 * 120_000_000 > 0
        && 510 * 120_000_000 * q - 510_000 * v - 1255 * 120_000_000 <= 0) by (nonlinear_arith)
        requires
            2 * (v * 255) - 120_000_000 < (2 * 120_000_000) * t,
            (2 * 120_000_000) * t <= 2 * (v * 255) + 120_000_000,
            2 * (t * 1000) - 255 < (2 * 255) * q,
            (2 * 255) * q <= 2 * (t * 1000) + 255,
    ;
}

/// Channel permilles keep the order of intensities.
proof fn lemma_channel_permille_monotone(a: int, b: int)
    requires
        0 <= a <= b <= 120_000_000,
    ensures
        channel_permille(a) <= channel_permille(b),
{
    vstd::arithmetic::div_mod::lemma_div_is_ordered(
        2 * (a * 255) + 120_000_000,
        2 * (b * 255) + 120_000_000,
        240_000_000,
    );
    vstd::arithmetic::div_mod::lemma_div_is_ordered(
        2 * (to_byte(a) * 1000) + 255,
        2 * (to_byte(b) * 1000) + 255,
        510,
    );
}

/// The brightest and darkest channels of a color built from a chroma are
/// the primary and the zero component.
proof fn lemma_chroma_extremes(h: int, chroma: int, m: int)
    requires
        0 <= h <= 360,
        0 <= chroma,
        0 <= m,
        chroma * 120 + m <= 120_000_000,
    ensures
        ({
            let rgb = rgb_from_chroma(h, chroma, m);
            let rp = permille_of_byte(rgb.r as int);
            let gp = permille_of_byte(rgb.g as int);
            let bp = permille_of_byte(rgb.b as int);
            max3(rp, gp, bp) == channel_permille(chroma * 120 + m) && min3(rp, gp, bp)
                == channel_permille(m)
        }),
{
    let big = chroma * 120;
    let w = secondary_weight(h);
    let x = chroma * w * 2;
    assert(0 <= x <= big) by (nonlinear_arith)
        requires
            0 <= w <= 60,
            chroma >= 0,
            x == chroma * w * 2,
            big == chroma * 120,
    ;
    lemma_channel_permille(m);
    lemma_channel_permille(x + m);
    lemma_channel_permille(big + m);
    lemma_channel_permille_monotone(m, x + m);
    lemma_channel_permille_monotone(x + m, big + m);
}

/// Converting an HSL point to RGB and back keeps its lightness to within
/// 2 permille. Hue and saturation have no such bound: a nearly achromatic
/// point loses its hue.
pub proof fn lemma_hsl_rgb_round_trip_lightness(c: Hsl)
    requires
        c.valid(),
    ensures
        ({
            let rgb = rgb_of(Encoding::Hsl(c.h, c.s, c.l));
            let back = hsl_of(Encoding::Rgb(rgb.r, rgb.g, rgb.b));
            c.l - 2 <= back.l <= c.l + 2
        }),
{
    let l = c.l as int;
    let k = 1000 - abs(2 * l - 1000);
    let chroma = hsl_chroma(c.s as int, l);
    assert(0 <= k * c.s <= k * 1000) by (nonlinear_arith)
        requires
            0 <= c.s <= 1000,
            k >= 0,
    ;
    let m = l * 120_000 - chroma * 60;
    let top = chroma * 120 + m;
    lemma_channel_permille(m);
    lemma_channel_permille(top);
    lemma_chroma_extremes(c.h as int, chroma, m);
    let hi = channel_permille(top);
    let lo = channel_permille(m);
    let d = hi + lo - 2 * l;
    assert(-4 <= d <= 4) by (nonlinear_arith)
        requires
            d == hi + lo - 2 * l,
            top + m == 240_000 * l,
            510_000 * top - 1255 * 120_000_000 < 510 * 120_000_000 * hi,
            510 * 120_000_000 * hi <= 510_000 * top + 1255 * 120_000_000,
            510_000 * m - 1255 * 120_000_000 < 510 * 120_000_000 * lo,
            510 * 120_000_000 * lo <= 510_000 * m + 1255 * 120_000_000,
    ;
    let rgb = rgb_of(Encoding::Hsl(c.h, c.s, c.l));
    assert(rgb == rgb_from_chroma(c.h as int, chroma, m));
    assert(hsl_of(Encoding::Rgb(rgb.r, rgb.g, rgb.b)) == hsl_of_rgb(rgb));
    lemma_round_div_bound(hi + lo, 2, 1000);
    lemma_round_div_close(hi + lo, 2);
    assert(hsl_of_rgb(rgb).l as int == round_div(hi + lo, 2));
}

} // verus!
