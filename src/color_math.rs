use rand::Rng;
use vstd::prelude::*;

use crate::color_spaces::{Color, Hsl, Rgb};
use crate::encoding::{abs, rgb_from_hsl, rgb_of_hsl, Encoding};
use crate::error::PaletteError;

verus! {

/// Squared Euclidean distance between two RGB triples.
pub open spec fn distance(a: Rgb, b: Rgb) -> int {
    let dr = a.r - b.r;
    let dg = a.g - b.g;
    let db = a.b - b.b;
    dr * dr + dg * dg + db * db
}

/// Squared Euclidean distance between two colors over their channels,
/// computed in a widened signed integer.
pub fn three_node_distance_rgb(rgb1: Rgb, rgb2: Rgb) -> (d: u32)
    ensures
        d == distance(rgb1, rgb2),
{
    let dr = rgb1.r as i32 - rgb2.r as i32;
    let dg = rgb1.g as i32 - rgb2.g as i32;
    let db = rgb1.b as i32 - rgb2.b as i32;
    assert(0 <= dr * dr <= 65025 && 0 <= dg * dg <= 65025 && 0 <= db * db <= 65025) by (nonlinear_arith)
        requires
            -255 <= dr <= 255,
            -255 <= dg <= 255,
            -255 <= db <= 255,
    ;
    (dr * dr + dg * dg + db * db) as u32
}

/// The distance is symmetric and is zero exactly between equal triples.
pub proof fn lemma_distance_symmetric_and_separating(a: Rgb, b: Rgb)
    ensures
        distance(a, b) == distance(b, a),
        distance(a, b) == 0 <==> a == b,
{
    let dr = a.r - b.r;
    let dg = a.g - b.g;
    let db = a.b - b.b;
    assert(dr * dr + dg * dg + db * db == 0 <==> (dr == 0 && dg == 0 && db == 0))
        by (nonlinear_arith);
    assert(distance(b, a) == (-dr) * (-dr) + (-dg) * (-dg) + (-db) * (-db));
    assert((-dr) * (-dr) + (-dg) * (-dg) + (-db) * (-db) == dr * dr + dg * dg + db * db)
        by (nonlinear_arith);
}

// ---------------------------------------------------------------------------
// Harmonies
// ---------------------------------------------------------------------------

/// `c` with its hue turned by `by` degrees, wrapped into `[0, 360)` by a
/// floor-style modulo.
pub open spec fn shifted(c: Hsl, by: int) -> Hsl {
    Hsl { h: ((c.h + by) % 360) as u16, s: c.s, l: c.l }
}

pub open spec fn triad_of(c: Hsl) -> (Hsl, Hsl) {
    (shifted(c, -120), shifted(c, 120))
}

pub open spec fn square_of(c: Hsl) -> (Hsl, Hsl, Hsl) {
    (shifted(c, -90), shifted(c, 180), shifted(c, 90))
}

fn turn_hue(h: u16, by: u32) -> (r: u16)
    requires
        by < 360,
    ensures
        r as int == (h + by) % 360,
        r < 360,
{
    ((h as u32 + by) % 360) as u16
}

/// The point opposite `hsl` on the hue wheel.
pub fn complement(hsl: Hsl) -> (r: Hsl)
    ensures
        r == shifted(hsl, 180),
{
    Hsl { h: turn_hue(hsl.h, 180), s: hsl.s, l: hsl.l }
}

/// The two points 120 degrees below and above `hsl`.
pub fn triad(hsl: Hsl) -> (r: (Hsl, Hsl))
    ensures
        r == triad_of(hsl),
{
    assert((hsl.h + 240) % 360 == (hsl.h - 120) % 360) by {
        vstd::arithmetic::div_mod::lemma_mod_add_multiples_vanish(hsl.h - 120, 360);
    }
    let left = Hsl { h: turn_hue(hsl.h, 240), s: hsl.s, l: hsl.l };
    let right = Hsl { h: turn_hue(hsl.h, 120), s: hsl.s, l: hsl.l };
    (left, right)
}

/// The points 90 degrees below, 180 degrees from, and 90 degrees above
/// `hsl`.
pub fn square(hsl: Hsl) -> (r: (Hsl, Hsl, Hsl))
    ensures
        r == square_of(hsl),
{
    assert((hsl.h + 270) % 360 == (hsl.h - 90) % 360) by {
        vstd::arithmetic::div_mod::lemma_mod_add_multiples_vanish(hsl.h - 90, 360);
    }
    let left = Hsl { h: turn_hue(hsl.h, 270), s: hsl.s, l: hsl.l };
    let middle = Hsl { h: turn_hue(hsl.h, 180), s: hsl.s, l: hsl.l };
    let right = Hsl { h: turn_hue(hsl.h, 90), s: hsl.s, l: hsl.l };
    (left, middle, right)
}

/// The two points 30 degrees below and above `hsl`.
pub fn analogous(hsl: Hsl) -> (r: (Hsl, Hsl))
    ensures
        r == (shifted(hsl, -30), shifted(hsl, 30)),
{
    assert((hsl.h + 330) % 360 == (hsl.h - 30) % 360) by {
        vstd::arithmetic::div_mod::lemma_mod_add_multiples_vanish(hsl.h - 30, 360);
    }
    let left = Hsl { h: turn_hue(hsl.h, 330), s: hsl.s, l: hsl.l };
    let right = Hsl { h: turn_hue(hsl.h, 30), s: hsl.s, l: hsl.l };
    (left, right)
}

/// Complementing twice gives back the hue, for every hue below 360 (a hue
/// of 360 comes back as 0, the same angle).
pub proof fn lemma_complement_involutive(c: Hsl)
    requires
        c.h < 360,
    ensures
        shifted(shifted(c, 180), 180) == c,
{
    let once = (c.h + 180) % 360;
    assert((once + 180) % 360 == c.h) by {
        vstd::arithmetic::div_mod::lemma_add_mod_noop(c.h + 180, 180, 360);
        vstd::arithmetic::div_mod::lemma_mod_add_multiples_vanish(c.h as int, 360);
        vstd::arithmetic::div_mod::lemma_small_mod(c.h as nat, 360);
    }
}

/// The three hues of a triad are evenly spaced, 120 degrees apart modulo
/// 360, going around the wheel from the left point through the input.
pub proof fn lemma_triad_evenly_spaced(c: Hsl)
    ensures
        (c.h - triad_of(c).0.h) % 360 == 120,
        (triad_of(c).1.h - c.h) % 360 == 120,
        (triad_of(c).0.h - triad_of(c).1.h) % 360 == 120,
{
    let (a, b) = triad_of(c);
    vstd::arithmetic::div_mod::lemma_fundamental_div_mod(c.h - 120, 360);
    vstd::arithmetic::div_mod::lemma_fundamental_div_mod(c.h + 120, 360);
    vstd::arithmetic::div_mod::lemma_mod_bound(c.h - 120, 360);
    vstd::arithmetic::div_mod::lemma_mod_bound(c.h + 120, 360);
    let q1 = (c.h - 120) / 360;
    let q2 = (c.h + 120) / 360;
    lemma_mod_of_offset(c.h - a.h, 120, q1);
    lemma_mod_of_offset(b.h - c.h, 120, -q2);
    lemma_mod_of_offset(a.h - b.h, 120, q2 - q1 - 1);
}

/// The four hues of a square are evenly spaced, 90 degrees apart modulo
/// 360: left, input, right, middle in turn around the wheel.
pub proof fn lemma_square_evenly_spaced(c: Hsl)
    ensures
        (c.h - square_of(c).0.h) % 360 == 90,
        (square_of(c).2.h - c.h) % 360 == 90,
        (square_of(c).1.h - square_of(c).2.h) % 360 == 90,
        (square_of(c).0.h - square_of(c).1.h) % 360 == 90,
{
    let (a, m, b) = square_of(c);
    vstd::arithmetic::div_mod::lemma_fundamental_div_mod(c.h - 90, 360);
    vstd::arithmetic::div_mod::lemma_fundamental_div_mod(c.h + 180, 360);
    vstd::arithmetic::div_mod::lemma_fundamental_div_mod(c.h + 90, 360);
    vstd::arithmetic::div_mod::lemma_mod_bound(c.h - 90, 360);
    vstd::arithmetic::div_mod::lemma_mod_bound(c.h + 180, 360);
    vstd::arithmetic::div_mod::lemma_mod_bound(c.h + 90, 360);
    let q1 = (c.h - 90) / 360;
    let q2 = (c.h + 180) / 360;
    let q3 = (c.h + 90) / 360;
    lemma_mod_of_offset(c.h - a.h, 90, q1);
    lemma_mod_of_offset(b.h - c.h, 90, -q3);
    lemma_mod_of_offset(m.h - b.h, 90, q3 - q2);
    lemma_mod_of_offset(a.h - m.h, 90, q2 - q1 - 1);
}

/// A difference that is `k` plus a multiple of 360 is `k` modulo 360.
proof fn lemma_mod_of_offset(x: int, k: int, q: int)
    requires
        0 <= k < 360,
        x == k + 360 * q,
    ensures
        x % 360 == k,
{
    vstd::arithmetic::div_mod::lemma_mod_multiples_vanish(q, k, 360);
    vstd::arithmetic::div_mod::lemma_small_mod(k as nat, 360);
}

// ---------------------------------------------------------------------------
// Monochromatic ladder
// ---------------------------------------------------------------------------

/// Lightness of the `i`-th point of the monochromatic ladder from lightness
/// `l`: first upward from `l + 50` in steps of 50 while at most 1000, then
/// downward from `l - 50` in steps of 50 while at least 0.
pub open spec fn ladder_lightness(l: int, i: int) -> int {
    let up = (1000 - l) / 50;
    if i < up {
        l + 50 * (i + 1)
    } else {
        l - 50 * (i - up + 1)
    }
}

/// Same hue and saturation as `hsl`, lightness stepped by 50 permille away
/// from `hsl.l` in both directions, up to the bounds 0 and 1000 inclusive.
/// The ascending points come first, nearest first, then the descending
/// points, nearest first.
pub fn monochromatic(hsl: Hsl) -> (r: Vec<Hsl>)
    requires
        hsl.l <= 1000,
    ensures
        r.len() == (1000 - hsl.l) / 50 + hsl.l / 50,
        forall|i: int|
            0 <= i < r.len() ==> r[i] == (Hsl {
                h: hsl.h,
                s: hsl.s,
                l: ladder_lightness(hsl.l as int, i) as u16,
            }),
        forall|i: int| 0 <= i < r.len() ==> r[i].l <= 1000 && r[i].l != hsl.l,
{
    let mut out: Vec<Hsl> = Vec::new();
    let mut l: u16 = hsl.l;
    while l <= 950
        invariant
            hsl.l <= l <= 1000,
            l == hsl.l + 50 * out.len(),
            forall|i: int|
                0 <= i < out.len() ==> out[i] == (Hsl { h: hsl.h, s: hsl.s, l: (hsl.l + 50 * (i + 1)) as u16 }),
        decreases 1000 - l,
    {
        l = l + 50;
        out.push(Hsl { h: hsl.h, s: hsl.s, l });
    }
    let up: usize = out.len();
    assert(up == (1000 - hsl.l) / 50);
    l = hsl.l;
    while l >= 50
        invariant
            0 <= l <= hsl.l,
            up == (1000 - hsl.l) / 50,
            out.len() >= up,
            l == hsl.l - 50 * (out.len() - up),
            forall|i: int|
                0 <= i < out.len() ==> out[i] == (Hsl { h: hsl.h, s: hsl.s, l: ladder_lightness(hsl.l as int, i) as u16 }),
        decreases l,
    {
        l = l - 50;
        out.push(Hsl { h: hsl.h, s: hsl.s, l });
    }
    assert(out.len() - up == hsl.l / 50);
    out
}

// ---------------------------------------------------------------------------
// Gradient
// ---------------------------------------------------------------------------

/// Integer division rounding toward zero.
pub open spec fn trunc_div(a: int, n: int) -> int {
    if a >= 0 {
        a / n
    } else {
        -((-a) / n)
    }
}

/// Hue the gradient starts from: the destination's when the start color is
/// achromatic (saturation zero), whose hue means nothing.
pub open spec fn gradient_start(c1: Hsl, c2: Hsl) -> int {
    if c1.s == 0 {
        c2.h as int
    } else {
        c1.h as int
    }
}

/// Hue step of an `n`-point gradient along the shorter way round: the raw
/// difference, brought into `[-180, 180]` by a full turn when it lies beyond
/// a half-turn, divided by `n` with truncation.
pub open spec fn hue_interval(c1: Hsl, c2: Hsl, n: int) -> int {
    let d = c2.h - gradient_start(c1, c2);
    if d > 180 {
        trunc_div(d - 360, n)
    } else if d < -180 {
        trunc_div(360 + d, n)
    } else {
        trunc_div(d, n)
    }
}

/// The `k`-th step (from 1) of the `n`-point gradient from `c1` to `c2`.
pub open spec fn gradient_point(c1: Hsl, c2: Hsl, n: int, k: int) -> Hsl {
    Hsl {
        h: ((gradient_start(c1, c2) + k * hue_interval(c1, c2, n)) % 360) as u16,
        s: (c1.s + k * trunc_div(c2.s - c1.s, n)) as u16,
        l: (c1.l + k * trunc_div(c2.l - c1.l, n)) as u16,
    }
}

fn trunc_div_exec(a: i64, n: i64) -> (r: i64)
    requires
        -1000 <= a <= 1000,
        n > 0,
    ensures
        r == trunc_div(a as int, n as int),
        -1000 <= r <= 1000,
        a >= 0 ==> 0 <= r <= a,
        a < 0 ==> a <= r <= 0,
{
    proof {
        vstd::arithmetic::div_mod::lemma_div_is_ordered_by_denominator(abs(a as int), 1, n as int);
        vstd::arithmetic::div_mod::lemma_div_pos_is_pos(abs(a as int), n as int);
    }
    if a >= 0 {
        ((a as u64) / (n as u64)) as i64
    } else {
        -((((-a) as u64) / (n as u64)) as i64)
    }
}

/// `k` steps of `trunc_div(d, n)`, for `k <= n`, never pass `d`.
proof fn lemma_steps_within(d: int, n: int, k: int)
    requires
        n > 0,
        0 <= k <= n,
    ensures
        d >= 0 ==> 0 <= k * trunc_div(d, n) <= d,
        d < 0 ==> d <= k * trunc_div(d, n) <= 0,
{
    let a = abs(d);
    let q = a / n;
    vstd::arithmetic::div_mod::lemma_fundamental_div_mod(a, n);
    vstd::arithmetic::div_mod::lemma_mod_bound(a, n);
    vstd::arithmetic::div_mod::lemma_div_pos_is_pos(a, n);
    assert(0 <= k * q <= n * q) by (nonlinear_arith)
        requires
            0 <= k <= n,
            q >= 0,
    ;
    assert(k * (-q) == -(k * q)) by (nonlinear_arith);
}

/// `x` wrapped into `[0, 360)` by a floor-style modulo.
fn wrap_degrees(x: i64) -> (r: i64)
    requires
        -1_000_000_000_000 <= x <= 1_000_000_000_000,
    ensures
        r == x % 360,
{
    if x >= 0 {
        ((x as u64) % 360) as i64
    } else {
        let y = (-x) as u64;
        let m = (y % 360) as i64;
        proof {
            vstd::arithmetic::div_mod::lemma_fundamental_div_mod(y as int, 360);
            let q = (y as int) / 360;
            if m == 0 {
                lemma_mod_of_offset(x as int, 0, -q);
            } else {
                lemma_mod_of_offset(x as int, 360 - m, -q - 1);
            }
        }
        if m == 0 {
            0
        } else {
            360 - m
        }
    }
}

/// `num` points from `hsl` toward `hsl2`: saturation and lightness move by
/// equal truncated steps, hue by equal truncated steps along the shorter way
/// round (wrapped into `[0, 360)`); when `hsl` is achromatic the hue track
/// starts from `hsl2`'s hue.
pub fn gradient(hsl: Hsl, hsl2: Hsl, num: u32) -> (r: Vec<Hsl>)
    requires
        hsl.valid(),
        hsl2.valid(),
        num > 1,
    ensures
        r.len() == num,
        forall|i: int|
            0 <= i < r.len() ==> r[i] == gradient_point(hsl, hsl2, num as int, i + 1) && r[i].valid(),
        hsl.s == 0 ==> forall|i: int| 0 <= i < r.len() ==> r[i].h == hsl2.h % 360,
        -180 <= num * hue_interval(hsl, hsl2, num as int) <= 180,
{
    let n = num as i64;
    let start: i64 = if hsl.s == 0 {
        hsl2.h as i64
    } else {
        hsl.h as i64
    };
    let d = hsl2.h as i64 - start;
    let h_step = if d > 180 {
        trunc_div_exec(d - 360, n)
    } else if d < -180 {
        trunc_div_exec(360 + d, n)
    } else {
        trunc_div_exec(d, n)
    };
    assert(-180 <= h_step <= 180);
    proof {
        let dd = hsl2.h - gradient_start(hsl, hsl2);
        let wrapped = if dd > 180 {
            dd - 360
        } else if dd < -180 {
            dd + 360
        } else {
            dd
        };
        lemma_steps_within(wrapped, num as int, num as int);
    }
    let s_step = trunc_div_exec(hsl2.s as i64 - hsl.s as i64, n);
    let l_step = trunc_div_exec(hsl2.l as i64 - hsl.l as i64, n);
    let mut out: Vec<Hsl> = Vec::new();
    let mut k: u32 = 0;
    while k < num
        invariant
            k <= num,
            out.len() == k,
            n == num,
            hsl.valid(),
            hsl2.valid(),
            h_step == hue_interval(hsl, hsl2, num as int),
            start == gradient_start(hsl, hsl2),
            s_step == trunc_div(hsl2.s - hsl.s, num as int),
            l_step == trunc_div(hsl2.l - hsl.l, num as int),
            -180 <= h_step <= 180,
            forall|i: int|
                0 <= i < out.len() ==> out[i] == gradient_point(hsl, hsl2, num as int, i + 1)
                    && out[i].valid(),
        decreases num - k,
    {
        k = k + 1;
        let kk = k as i64;
        assert(-180 * kk <= kk * h_step <= 180 * kk) by (nonlinear_arith)
            requires
                -180 <= h_step <= 180,
                kk >= 0,
        ;
        proof {
            lemma_steps_within(hsl2.s - hsl.s, num as int, kk as int);
            lemma_steps_within(hsl2.l - hsl.l, num as int, kk as int);
        }
        let h = wrap_degrees(start + kk * h_step);
        let s = hsl.s as i64 + kk * s_step;
        let l = hsl.l as i64 + kk * l_step;
        out.push(Hsl { h: h as u16, s: s as u16, l: l as u16 });
    }
    out
}

// ---------------------------------------------------------------------------
// Averaged complement
// ---------------------------------------------------------------------------

/// RGB form of the complement of `c`.
pub open spec fn complement_rgb(c: Hsl) -> Rgb {
    let k = shifted(c, 180);
    rgb_of_hsl(k.h as int, k.s as int, k.l as int)
}

/// The running average after folding the complements of `nodes[0..k]`,
/// in order, into the complement of the last node: each step halves the
/// sum of the running value and the next complement, channel by channel.
pub open spec fn averaged_complement_upto(nodes: Seq<Color>, k: nat) -> Rgb
    decreases k,
{
    if k == 0 {
        complement_rgb(nodes.last().hsl)
    } else {
        let acc = averaged_complement_upto(nodes, (k - 1) as nat);
        let c = complement_rgb(nodes[k - 1].hsl);
        Rgb {
            r: ((acc.r + c.r) / 2) as u8,
            g: ((acc.g + c.g) / 2) as u8,
            b: ((acc.b + c.b) / 2) as u8,
        }
    }
}

/// The averaged complement of all of `nodes`.
pub open spec fn averaged_complement(nodes: Seq<Color>) -> Rgb {
    averaged_complement_upto(nodes, (nodes.len() - 1) as nat)
}

pub open spec fn rgb_code(c: Rgb) -> Encoding {
    Encoding::Rgb(c.r, c.g, c.b)
}

pub open spec fn hsl_code(c: Hsl) -> Encoding {
    Encoding::Hsl(c.h, c.s, c.l)
}

/// The color whose RGB form is the iterated average of the complements of
/// `nodes`: start from the complement of the last node, then average the
/// running value with the complement of each other node in order. Every
/// channel is averaged on its own.
pub fn n_color_average_complement(nodes: &Vec<Color>) -> (r: Color)
    requires
        nodes.len() > 0,
        forall|i: int| 0 <= i < nodes.len() ==> nodes[i].hsl.valid(),
    ensures
        r.represents(rgb_code(averaged_complement(nodes@))),
        r.resolved(),
        r.hsl.valid(),
        !r.locked,
{
    let last = nodes.len() - 1;
    let first = complement(nodes[last].hsl);
    let mut acc = rgb_from_hsl(first.h, first.s, first.l);
    let mut i: usize = 0;
    while i < last
        invariant
            i <= last,
            last == nodes.len() - 1,
            acc == averaged_complement_upto(nodes@, i as nat),
            forall|j: int| 0 <= j < nodes.len() ==> nodes[j].hsl.valid(),
        decreases last - i,
    {
        let k = complement(nodes[i].hsl);
        let c = rgb_from_hsl(k.h, k.s, k.l);
        acc = Rgb {
            r: ((acc.r as u16 + c.r as u16) / 2) as u8,
            g: ((acc.g as u16 + c.g as u16) / 2) as u8,
            b: ((acc.b as u16 + c.b as u16) / 2) as u8,
        };
        i = i + 1;
    }
    Color::from_rgb(acc)
}

// ---------------------------------------------------------------------------
// Randomized palettes
// ---------------------------------------------------------------------------

/// Relies on `rand::rng` and `Rng::random_range` over `lo..=hi`: a value
/// drawn from the thread-local generator within the inclusive bounds
/// (`random_range` panics on an empty range, hence `lo <= hi`).
#[verifier::external_body]
fn random_between(lo: u64, hi: u64) -> (r: u64)
    requires
        lo <= hi,
    ensures
        lo <= r <= hi,
{
    rand::rng().random_range(lo..=hi)
}

/// An HSL point drawn over the whole domain.
fn random_hsl() -> (r: Hsl)
    ensures
        r.valid(),
{
    let h = random_between(0, 360) as u16;
    let s = random_between(0, 1000) as u16;
    let l = random_between(0, 1000) as u16;
    Hsl { h, s, l }
}

/// A color from an HSL point drawn uniformly over the whole domain (hue 0
/// to 360, saturation and lightness 0 to 1000, all inclusive).
pub fn generate_color() -> (r: Color)
    ensures
        r.hsl.valid(),
        r.represents(hsl_code(r.hsl)),
        r.resolved(),
        !r.locked,
{
    Color::from_hsl(random_hsl())
}

/// Number of colors that palette method `method` adds: two for a triad
/// (3), three for a square (4), one otherwise.
pub open spec fn method_size(method: u8) -> nat {
    if method == 3 {
        2
    } else if method == 4 {
        3
    } else {
        1
    }
}

/// The highest palette method eligible with `remaining` slots left: the
/// triad needs two, the square three, so that a palette never overshoots.
pub fn highest_method(remaining: usize) -> (m: u8)
    requires
        remaining >= 1,
    ensures
        m == (if remaining < 2 {
            2u8
        } else if remaining < 3 {
            3u8
        } else {
            4u8
        }),
        forall|k: u8| k <= m ==> method_size(k) <= remaining,
{
    if remaining < 2 {
        2
    } else if remaining < 3 {
        3
    } else {
        4
    }
}

/// The colors that palette method `method` adds to `current`:
/// (0) the complement of `current[pick]`, (1) the color of `fresh`,
/// (2) the averaged complement of all of `current`, (3) the triad around
/// `current[pick]`, (4) the square around `current[pick]`.
pub fn palette_step(current: &Vec<Color>, method: u8, pick: usize, fresh: Hsl) -> (r: Vec<Color>)
    requires
        current.len() > 0,
        pick < current.len(),
        method <= 4,
        fresh.valid(),
        forall|i: int| 0 <= i < current.len() ==> current[i].hsl.valid(),
    ensures
        r.len() == method_size(method),
        forall|i: int| 0 <= i < r.len() ==> r[i].hsl.valid() && r[i].resolved() && !r[i].locked,
        method == 0 ==> r[0].represents(hsl_code(shifted(current[pick as int].hsl, 180))),
        method == 1 ==> r[0].represents(hsl_code(fresh)),
        method == 2 ==> r[0].represents(rgb_code(averaged_complement(current@))),
        method == 3 ==> r[0].represents(hsl_code(triad_of(current[pick as int].hsl).0))
            && r[1].represents(hsl_code(triad_of(current[pick as int].hsl).1)),
        method == 4 ==> r[0].represents(hsl_code(square_of(current[pick as int].hsl).0))
            && r[1].represents(hsl_code(square_of(current[pick as int].hsl).1))
            && r[2].represents(hsl_code(square_of(current[pick as int].hsl).2)),
{
    let mut out: Vec<Color> = Vec::new();
    let base = current[pick].hsl;
    if method == 0 {
        out.push(Color::from_hsl(complement(base)));
    } else if method == 1 {
        out.push(Color::from_hsl(fresh));
    } else if method == 2 {
        out.push(n_color_average_complement(current));
    } else if method == 3 {
        let (left, right) = triad(base);
        out.push(Color::from_hsl(left));
        out.push(Color::from_hsl(right));
    } else {
        let (left, middle, right) = square(base);
        out.push(Color::from_hsl(left));
        out.push(Color::from_hsl(middle));
        out.push(Color::from_hsl(right));
    }
    out
}

/// `base` followed by randomly derived colors until the palette holds
/// `target_size` colors (`base` is returned unchanged when it is already
/// that long). Each round draws one of the methods of `palette_step` that
/// still fits, and a color of the palette built so far to derive from; on
/// an empty palette the first color is a fresh random one. No step can
/// fail, so the result is always `Ok`.
pub fn generate_palette_from_base(base: Vec<Color>, target_size: usize) -> (r: Result<
    Vec<Color>,
    PaletteError,
>)
    requires
        forall|i: int| 0 <= i < base.len() ==> base[i].hsl.valid(),
    ensures
        r is Ok,
        r matches Ok(v) ==> {
            &&& v.len() == (if base.len() >= target_size {
                base.len()
            } else {
                target_size
            })
            &&& v@.subrange(0, base.len() as int) == base@
            &&& forall|i: int| 0 <= i < v.len() ==> v[i].hsl.valid()
            &&& forall|i: int|
                base.len() <= i < v.len() ==> v[i].resolved() && !v[i].locked
        },
{
    let ghost start = base@;
    let mut palette = base;
    while palette.len() < target_size
        invariant
            start.len() <= palette.len(),
            palette.len() <= target_size || palette.len() == start.len(),
            palette@.subrange(0, start.len() as int) == start,
            forall|i: int| 0 <= i < palette.len() ==> palette[i].hsl.valid(),
            forall|i: int|
                start.len() <= i < palette.len() ==> palette[i].resolved() && !palette[i].locked,
        decreases target_size - palette.len(),
    {
        let len = palette.len();
        let remaining = target_size - len;
        let mut added: Vec<Color> = if len == 0 {
            let mut first: Vec<Color> = Vec::new();
            first.push(generate_color());
            first
        } else {
            let method = random_between(0, highest_method(remaining) as u64) as u8;
            let pick = random_between(0, (len - 1) as u64) as usize;
            palette_step(&palette, method, pick, random_hsl())
        };
        let ghost before = palette@;
        palette.append(&mut added);
        assert(palette@.subrange(0, start.len() as int) =~= before.subrange(0, start.len() as int));
    }
    Ok(palette)
}

/// A palette of exactly `target_size` randomly derived colors.
pub fn generate_palette(target_size: usize) -> (r: Result<Vec<Color>, PaletteError>)
    ensures
        r is Ok,
        r matches Ok(v) ==> v.len() == target_size && forall|i: int|
            0 <= i < v.len() ==> v[i].hsl.valid() && v[i].resolved() && !v[i].locked,
{
    generate_palette_from_base(Vec::new(), target_size)
}

} // verus!
