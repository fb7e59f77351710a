use vstd::prelude::*;

use crate::color_spaces::{Color, Rgb};
use crate::encoding::Encoding;
use crate::error::PaletteError;

verus! {

// ---------------------------------------------------------------------------
// Writing: the `r,g,b` cache line and the hexadecimal display
// ---------------------------------------------------------------------------

/// The decimal digit for `d` in `0..10`.
pub open spec fn digit_char(d: int) -> char {
    if d == 0 {
        '0'
    } else if d == 1 {
        '1'
    } else if d == 2 {
        '2'
    } else if d == 3 {
        '3'
    } else if d == 4 {
        '4'
    } else if d == 5 {
        '5'
    } else if d == 6 {
        '6'
    } else if d == 7 {
        '7'
    } else if d == 8 {
        '8'
    } else {
        '9'
    }
}

/// The upper-case hexadecimal digit for `d` in `0..16`.
pub open spec fn hex_digit_char(d: int) -> char {
    if d < 10 {
        digit_char(d)
    } else if d == 10 {
        'A'
    } else if d == 11 {
        'B'
    } else if d == 12 {
        'C'
    } else if d == 13 {
        'D'
    } else if d == 14 {
        'E'
    } else {
        'F'
    }
}

/// Decimal ASCII of `n`, without leading zeros.
pub open spec fn decimal(n: nat) -> Seq<char>
    decreases n,
{
    if n < 10 {
        seq![digit_char(n as int)]
    } else {
        decimal(n / 10).push(digit_char((n % 10) as int))
    }
}

/// The cache line of a color: `r,g,b` in decimal, newline-terminated.
pub open spec fn rgb_line(c: Color) -> Seq<char> {
    decimal(c.rgb.r as nat) + seq![','] + decimal(c.rgb.g as nat) + seq![','] + decimal(
        c.rgb.b as nat,
    ) + seq!['\n']
}

/// Six upper-case hexadecimal digits of the low 24 bits of `v`, most
/// significant first.
pub open spec fn hex_digits(v: u32) -> Seq<char> {
    seq![
        hex_digit_char(((v / 0x100000) % 16) as int),
        hex_digit_char(((v / 0x10000) % 16) as int),
        hex_digit_char(((v / 0x1000) % 16) as int),
        hex_digit_char(((v / 0x100) % 16) as int),
        hex_digit_char(((v / 0x10) % 16) as int),
        hex_digit_char((v % 16) as int),
    ]
}

fn hex_digit_str(d: u32) -> (r: &'static str)
    requires
        d < 16,
    ensures
        r@ == seq![hex_digit_char(d as int)],
{
    proof {
        reveal_strlit("0");
        reveal_strlit("1");
        reveal_strlit("2");
        reveal_strlit("3");
        reveal_strlit("4");
        reveal_strlit("5");
        reveal_strlit("6");
        reveal_strlit("7");
        reveal_strlit("8");
        reveal_strlit("9");
        reveal_strlit("A");
        reveal_strlit("B");
        reveal_strlit("C");
        reveal_strlit("D");
        reveal_strlit("E");
        reveal_strlit("F");
    }
    let r = if d == 0 {
        "0"
    } else if d == 1 {
        "1"
    } else if d == 2 {
        "2"
    } else if d == 3 {
        "3"
    } else if d == 4 {
        "4"
    } else if d == 5 {
        "5"
    } else if d == 6 {
        "6"
    } else if d == 7 {
        "7"
    } else if d == 8 {
        "8"
    } else if d == 9 {
        "9"
    } else if d == 10 {
        "A"
    } else if d == 11 {
        "B"
    } else if d == 12 {
        "C"
    } else if d == 13 {
        "D"
    } else if d == 14 {
        "E"
    } else {
        "F"
    };
    assert(r@ =~= seq![hex_digit_char(d as int)]);
    r
}

/// Appends the decimal digits of `n` to `out`.
fn push_decimal(out: &mut String, n: u8)
    ensures
        final(out)@ == old(out)@ + decimal(n as nat),
{
    if n >= 100 {
        out.append(hex_digit_str((n / 100) as u32));
        out.append(hex_digit_str(((n / 10) % 10) as u32));
        out.append(hex_digit_str((n % 10) as u32));
        assert(decimal(n as nat) =~= seq![
            digit_char((n / 100) as int),
            digit_char(((n / 10) % 10) as int),
            digit_char((n % 10) as int),
        ]) by {
            reveal_with_fuel(decimal, 3);
        }
    } else if n >= 10 {
        out.append(hex_digit_str((n / 10) as u32));
        out.append(hex_digit_str((n % 10) as u32));
        assert(decimal(n as nat) =~= seq![digit_char((n / 10) as int), digit_char((n % 10) as int)])
            by {
            reveal_with_fuel(decimal, 2);
        }
    } else {
        out.append(hex_digit_str(n as u32));
    }
    assert(final(out)@ =~= old(out)@ + decimal(n as nat));
}

/// The cache text of a palette: the cache line of each color, in order.
pub open spec fn cache_text(colors: Seq<Color>) -> Seq<char>
    decreases colors.len(),
{
    if colors.len() == 0 {
        seq![]
    } else {
        cache_text(colors.drop_last()) + rgb_line(colors.last())
    }
}

/// The cache text of `colors`: one `r,g,b` line per color, in order.
pub fn palette_to_cache(colors: &Vec<Color>) -> (r: String)
    ensures
        r@ == cache_text(colors@),
{
    let mut out = String::new();
    let mut i: usize = 0;
    while i < colors.len()
        invariant
            i <= colors.len(),
            out@ == cache_text(colors@.subrange(0, i as int)),
        decreases colors.len() - i,
    {
        let line = colors[i].rgb_to_string();
        out.append(line.as_str());
        assert(colors@.subrange(0, i + 1).drop_last() =~= colors@.subrange(0, i as int));
        i = i + 1;
    }
    assert(colors@.subrange(0, colors.len() as int) =~= colors@);
    out
}

impl Color {
    /// The cache line of this color: `r,g,b` in decimal ASCII without
    /// leading zeros, newline-terminated.
    pub fn rgb_to_string(&self) -> (r: String)
        ensures
            r@ == rgb_line(*self),
    {
        proof {
            reveal_strlit(",");
            reveal_strlit("\n");
        }
        let mut out = String::new();
        push_decimal(&mut out, self.rgb.r);
        out.append(",");
        push_decimal(&mut out, self.rgb.g);
        out.append(",");
        push_decimal(&mut out, self.rgb.b);
        out.append("\n");
        assert(out@ =~= rgb_line(*self));
        out
    }

    /// Six upper-case hexadecimal digits of the packed form, for display.
    pub fn hex_to_string(&self) -> (r: String)
        ensures
            r@ == hex_digits(self.hex.h),
    {
        let v = self.hex.h;
        let mut out = String::new();
        out.append(hex_digit_str((v / 0x100000) % 16));
        out.append(hex_digit_str((v / 0x10000) % 16));
        out.append(hex_digit_str((v / 0x1000) % 16));
        out.append(hex_digit_str((v / 0x100) % 16));
        out.append(hex_digit_str((v / 0x10) % 16));
        out.append(hex_digit_str(v % 16));
        assert(out@ =~= hex_digits(v));
        out
    }
}

// ---------------------------------------------------------------------------
// Reading: the plain-text cache
// ---------------------------------------------------------------------------

/// Whitespace as `char::is_whitespace` has it: the Unicode `White_Space`
/// characters.
pub open spec fn is_white(c: char) -> bool {
    ('\u{9}' <= c && c <= '\u{d}') || c == ' ' || c == '\u{85}' || c == '\u{a0}' || c
        == '\u{1680}' || ('\u{2000}' <= c && c <= '\u{200a}') || c == '\u{2028}' || c == '\u{2029}'
        || c == '\u{202f}' || c == '\u{205f}' || c == '\u{3000}'
}

fn is_white_exec(c: char) -> (r: bool)
    ensures
        r == is_white(c),
{
    ('\u{9}' <= c && c <= '\u{d}') || c == ' ' || c == '\u{85}' || c == '\u{a0}' || c
        == '\u{1680}' || ('\u{2000}' <= c && c <= '\u{200a}') || c == '\u{2028}' || c == '\u{2029}'
        || c == '\u{202f}' || c == '\u{205f}' || c == '\u{3000}'
}

pub open spec fn trim_start(s: Seq<char>) -> Seq<char>
    decreases s.len(),
{
    if s.len() > 0 && is_white(s[0]) {
        trim_start(s.drop_first())
    } else {
        s
    }
}

pub open spec fn trim_end(s: Seq<char>) -> Seq<char>
    decreases s.len(),
{
    if s.len() > 0 && is_white(s.last()) {
        trim_end(s.drop_last())
    } else {
        s
    }
}

/// `s` without leading and trailing whitespace, as `str::trim` gives it.
pub open spec fn trim(s: Seq<char>) -> Seq<char> {
    trim_end(trim_start(s))
}

pub open spec fn is_digit(c: char) -> bool {
    '0' <= c && c <= '9'
}

/// Value of a sequence of decimal digits.
pub open spec fn digits_value(s: Seq<char>) -> int
    decreases s.len(),
{
    if s.len() == 0 {
        0
    } else {
        digits_value(s.drop_last()) * 10 + (s.last() as int - '0' as int)
    }
}

/// The digits of a number field: without the optional leading `+`.
pub open spec fn unsigned_part(f: Seq<char>) -> Seq<char> {
    if f.len() > 0 && f[0] == '+' {
        f.drop_first()
    } else {
        f
    }
}

pub open spec fn all_digits(d: Seq<char>) -> bool {
    forall|i: int| 0 <= i < d.len() ==> is_digit(#[trigger] d[i])
}

/// What `u8::from_str` accepts: an optional `+`, then one or more decimal
/// digits whose value is at most 255.
pub open spec fn parse_u8(f: Seq<char>) -> Option<u8> {
    let d = unsigned_part(f);
    if d.len() > 0 && all_digits(d) && digits_value(d) <= 255 {
        Some(digits_value(d) as u8)
    } else {
        None
    }
}

/// Index of the first `c` in `s` at or after `i`, or the length of `s`.
pub open spec fn find_from(s: Seq<char>, c: char, i: int) -> int
    decreases s.len() - i,
{
    if i >= s.len() {
        s.len() as int
    } else if s[i] == c {
        i
    } else {
        find_from(s, c, i + 1)
    }
}

/// The three comma-separated fields of `line`, when it has exactly three.
pub open spec fn fields(line: Seq<char>) -> Option<(Seq<char>, Seq<char>, Seq<char>)> {
    let k1 = find_from(line, ',', 0);
    let k2 = find_from(line, ',', k1 + 1);
    if k1 < line.len() && k2 < line.len() && find_from(line, ',', k2 + 1) == line.len() {
        Some((line.subrange(0, k1), line.subrange(k1 + 1, k2), line.subrange(k2 + 1, line.len() as int)))
    } else {
        None
    }
}

/// The color of a cache line: three comma-separated fields, each an 8-bit
/// integer once trimmed.
pub open spec fn parse_line(line: Seq<char>) -> Option<Rgb> {
    match fields(line) {
        Some((a, b, c)) => match (parse_u8(trim(a)), parse_u8(trim(b)), parse_u8(trim(c))) {
            (Some(r), Some(g), Some(b)) => Some(Rgb { r, g, b }),
            _ => None,
        },
        None => None,
    }
}

/// The error for a line that does not parse: `InvalidFormat` with the line
/// when it has not exactly three fields, else `Parse` with the first
/// trimmed field that is not an 8-bit integer.
pub open spec fn line_error(line: Seq<char>, e: PaletteError) -> bool {
    match e {
        PaletteError::InvalidFormat(m) => fields(line) is None && m@ == line,
        PaletteError::Parse(m) => match fields(line) {
            Some((a, b, c)) => m@ == (if parse_u8(trim(a)) is None {
                trim(a)
            } else if parse_u8(trim(b)) is None {
                trim(b)
            } else {
                trim(c)
            }),
            None => false,
        },
        _ => false,
    }
}

/// The lines of `s` as `str::lines` yields them, for a scan at index `i`
/// of a line that began at `start`: a line ends at each `'\n'`, which is
/// dropped together with a `'\r'` just before it; no line follows a final
/// `'\n'`.
pub open spec fn lines_from(s: Seq<char>, start: int, i: int) -> Seq<Seq<char>>
    decreases s.len() - i,
{
    if i >= s.len() {
        if start < s.len() {
            seq![s.subrange(start, s.len() as int)]
        } else {
            seq![]
        }
    } else if s[i] == '\n' {
        seq![strip_cr(s.subrange(start, i))] + lines_from(s, i + 1, i + 1)
    } else {
        lines_from(s, start, i + 1)
    }
}

pub open spec fn strip_cr(l: Seq<char>) -> Seq<char> {
    if l.len() > 0 && l.last() == '\r' {
        l.drop_last()
    } else {
        l
    }
}

/// The lines of a cache text.
pub open spec fn cache_lines(s: Seq<char>) -> Seq<Seq<char>> {
    lines_from(s, 0, 0)
}

/// `find_from` is the first index from `i` on that holds `c`.
proof fn lemma_find_from(s: Seq<char>, c: char, i: int, r: int)
    requires
        0 <= i <= r <= s.len(),
        forall|j: int| i <= j < r ==> s[j] != c,
        r == s.len() || s[r] == c,
    ensures
        find_from(s, c, i) == r,
    decreases r - i,
{
    if i < r {
        lemma_find_from(s, c, i + 1, r);
    }
}

/// Index of the first `c` of `s` in `[from, to)`, or `to`.
fn find_char(s: &str, c: char, from: usize, to: usize) -> (r: usize)
    requires
        from <= to <= s@.len(),
    ensures
        from <= r <= to,
        forall|j: int| from <= j < r ==> s@[j] != c,
        r < to ==> s@[r as int] == c,
{
    let mut i = from;
    while i < to
        invariant
            from <= i <= to,
            to <= s@.len(),
            forall|j: int| from <= j < i ==> s@[j] != c,
        decreases to - i,
    {
        if s.get_char(i) == c {
            return i;
        }
        i = i + 1;
    }
    i
}

/// Bounds of `trim(s[from..to])` within `s`.
fn trim_bounds(s: &str, from: usize, to: usize) -> (r: (usize, usize))
    requires
        from <= to <= s@.len(),
    ensures
        from <= r.0 <= r.1 <= to,
        s@.subrange(r.0 as int, r.1 as int) == trim(s@.subrange(from as int, to as int)),
{
    let mut a = from;
    while a < to && is_white_exec(s.get_char(a))
        invariant
            from <= a <= to,
            to <= s@.len(),
            trim_start(s@.subrange(from as int, to as int)) == trim_start(
                s@.subrange(a as int, to as int),
            ),
        decreases to - a,
    {
        assert(s@.subrange(a as int, to as int).drop_first() =~= s@.subrange(a + 1, to as int));
        a = a + 1;
    }
    let mut b = to;
    while b > a && is_white_exec(s.get_char(b - 1))
        invariant
            a <= b <= to,
            to <= s@.len(),
            trim_end(s@.subrange(a as int, to as int)) == trim_end(s@.subrange(a as int, b as int)),
        decreases b - a,
    {
        assert(s@.subrange(a as int, b as int).drop_last() =~= s@.subrange(a as int, b - 1));
        b = b - 1;
    }
    (a, b)
}

/// `parse_u8` of `s[from..to]`.
fn parse_u8_exec(s: &str, from: usize, to: usize) -> (r: Option<u8>)
    requires
        from <= to <= s@.len(),
    ensures
        r == parse_u8(s@.subrange(from as int, to as int)),
{
    let ghost f = s@.subrange(from as int, to as int);
    let mut a = from;
    if a < to && s.get_char(a) == '+' {
        a = a + 1;
    }
    let ghost d = s@.subrange(a as int, to as int);
    assert(d =~= unsigned_part(f));
    if a == to {
        return None;
    }
    let mut value: u32 = 0;
    let mut i = a;
    while i < to
        invariant
            a <= i <= to,
            to <= s@.len(),
            d == s@.subrange(a as int, to as int),
            f == s@.subrange(from as int, to as int),
            d == unsigned_part(f),
            d.len() > 0,
            forall|j: int| a <= j < i ==> is_digit(#[trigger] s@[j]),
            value == (if digits_value(s@.subrange(a as int, i as int)) < 256 {
                digits_value(s@.subrange(a as int, i as int))
            } else {
                256
            }),
        decreases to - i,
    {
        let c = s.get_char(i);
        if !('0' <= c && c <= '9') {
            assert(!is_digit(d[i - a]));
            assert(!all_digits(d));
            return None;
        }
        let ghost prev = s@.subrange(a as int, i as int);
        assert(s@.subrange(a as int, i + 1).drop_last() =~= prev);
        assert(digits_value(prev) >= 0) by {
            lemma_digits_value_nonneg(s@, a as int, i as int);
        }
        let digit = (c as u32) - ('0' as u32);
        let next = value * 10 + digit;
        value = if next < 256 {
            next
        } else {
            256
        };
        i = i + 1;
    }
    assert forall|j: int| 0 <= j < d.len() implies is_digit(#[trigger] d[j]) by {
        assert(d[j] == s@[a + j]);
    }
    assert(all_digits(d));
    if value < 256 {
        Some(value as u8)
    } else {
        None
    }
}

proof fn lemma_digits_value_nonneg(s: Seq<char>, a: int, i: int)
    requires
        0 <= a <= i <= s.len(),
        forall|j: int| a <= j < i ==> is_digit(#[trigger] s[j]),
    ensures
        digits_value(s.subrange(a, i)) >= 0,
    decreases i - a,
{
    if i > a {
        assert(s.subrange(a, i).drop_last() =~= s.subrange(a, i - 1));
        lemma_digits_value_nonneg(s, a, i - 1);
    }
}

/// `c` is the unlocked color of the triple that `line` holds.
pub open spec fn parsed_as(line: Seq<char>, c: Color) -> bool {
    match parse_line(line) {
        Some(v) => c.represents(Encoding::Rgb(v.r, v.g, v.b)) && !c.locked,
        None => false,
    }
}

/// Relates a search in `s[a..b]` to `find_from` on that line.
proof fn lemma_find_in_line(s: Seq<char>, c: char, a: int, b: int, from: int, r: int)
    requires
        0 <= a <= from <= r <= b <= s.len(),
        forall|j: int| from <= j < r ==> s[j] != c,
        r < b ==> s[r] == c,
    ensures
        find_from(s.subrange(a, b), c, from - a) == r - a,
{
    let line = s.subrange(a, b);
    assert forall|j: int| from - a <= j < r - a implies line[j] != c by {
        assert(line[j] == s[a + j]);
    }
    lemma_find_from(line, c, from - a, r - a);
}

/// `parse_line` of `s[a..b]`, with the error that `line_error` describes.
fn parse_line_exec(s: &str, a: usize, b: usize) -> (r: Result<Rgb, PaletteError>)
    requires
        a <= b <= s@.len(),
    ensures
        r matches Ok(c) ==> parse_line(s@.subrange(a as int, b as int)) == Some(c),
        r matches Err(e) ==> parse_line(s@.subrange(a as int, b as int)) is None && line_error(
            s@.subrange(a as int, b as int),
            e,
        ),
{
    let ghost line = s@.subrange(a as int, b as int);
    let k1 = find_char(s, ',', a, b);
    proof {
        lemma_find_in_line(s@, ',', a as int, b as int, a as int, k1 as int);
    }
    if k1 == b {
        return Err(PaletteError::InvalidFormat(s.substring_char(a, b).to_owned()));
    }
    let k2 = find_char(s, ',', k1 + 1, b);
    proof {
        lemma_find_in_line(s@, ',', a as int, b as int, k1 + 1, k2 as int);
    }
    if k2 == b {
        return Err(PaletteError::InvalidFormat(s.substring_char(a, b).to_owned()));
    }
    let k3 = find_char(s, ',', k2 + 1, b);
    proof {
        lemma_find_in_line(s@, ',', a as int, b as int, k2 + 1, k3 as int);
    }
    if k3 < b {
        return Err(PaletteError::InvalidFormat(s.substring_char(a, b).to_owned()));
    }
    assert(line.subrange(0, k1 - a) =~= s@.subrange(a as int, k1 as int));
    assert(line.subrange(k1 + 1 - a, k2 - a) =~= s@.subrange(k1 + 1, k2 as int));
    assert(line.subrange(k2 + 1 - a, line.len() as int) =~= s@.subrange(k2 + 1, b as int));
    let (ra, rb) = trim_bounds(s, a, k1);
    let (ga, gb) = trim_bounds(s, k1 + 1, k2);
    let (ba, bb) = trim_bounds(s, k2 + 1, b);
    let red = match parse_u8_exec(s, ra, rb) {
        Some(v) => v,
        None => return Err(PaletteError::Parse(s.substring_char(ra, rb).to_owned())),
    };
    let green = match parse_u8_exec(s, ga, gb) {
        Some(v) => v,
        None => return Err(PaletteError::Parse(s.substring_char(ga, gb).to_owned())),
    };
    let blue = match parse_u8_exec(s, ba, bb) {
        Some(v) => v,
        None => return Err(PaletteError::Parse(s.substring_char(ba, bb).to_owned())),
    };
    Ok(Rgb { r: red, g: green, b: blue })
}

/// A line that fails after lines that all parsed is the first bad line.
proof fn lemma_first_bad_line(lines: Seq<Seq<char>>, done: Seq<Seq<char>>, out: Seq<Color>, e: PaletteError)
    requires
        done.len() < lines.len(),
        lines.subrange(0, done.len() as int) == done,
        out.len() == done.len(),
        forall|k: int| 0 <= k < done.len() ==> parsed_as(done[k], #[trigger] out[k]),
        line_error(lines[done.len() as int], e),
    ensures
        exists|k: int|
            0 <= k < lines.len() && (forall|j: int| 0 <= j < k ==> parse_line(#[trigger] lines[j]) is Some)
                && line_error(#[trigger] lines[k], e),
{
    let k = done.len() as int;
    assert forall|j: int| 0 <= j < k implies parse_line(#[trigger] lines[j]) is Some by {
        assert(lines[j] == done[j]);
        assert(parsed_as(done[j], out[j]));
    }
    assert(line_error(lines[k], e));
}

/// The colors of a cache text, one per line, each line `r,g,b` with every
/// field an 8-bit decimal integer once trimmed. Fails on the first line
/// that is not so: `InvalidFormat` when it has not exactly three fields,
/// `Parse` when a field is not an 8-bit integer.
pub fn parse_palette(contents: &str) -> (r: Result<Vec<Color>, PaletteError>)
    ensures
        r is Ok <==> forall|k: int|
            0 <= k < cache_lines(contents@).len() ==> parse_line(
                #[trigger] cache_lines(contents@)[k],
            ) is Some,
        r matches Ok(v) ==> v.len() == cache_lines(contents@).len() && forall|k: int|
            0 <= k < v.len() ==> parsed_as(cache_lines(contents@)[k], #[trigger] v[k]),
        r matches Err(e) ==> exists|k: int|
            0 <= k < cache_lines(contents@).len() && (forall|j: int|
                0 <= j < k ==> parse_line(#[trigger] cache_lines(contents@)[j]) is Some)
                && line_error(#[trigger] cache_lines(contents@)[k], e),
{
    let ghost text = contents@;
    let n = contents.unicode_len();
    let mut out: Vec<Color> = Vec::new();
    let ghost mut done: Seq<Seq<char>> = seq![];
    let mut start: usize = 0;
    let mut i: usize = 0;
    while i < n
        invariant
            start <= i <= n,
            n == text.len(),
            text == contents@,
            cache_lines(text) == done + lines_from(text, start as int, i as int),
            out.len() == done.len(),
            forall|k: int| 0 <= k < done.len() ==> parsed_as(done[k], #[trigger] out[k]),
        decreases n - i,
    {
        if contents.get_char(i) == '\n' {
            let ghost raw = text.subrange(start as int, i as int);
            let end = if i > start && contents.get_char(i - 1) == '\r' {
                i - 1
            } else {
                i
            };
            assert(text.subrange(start as int, end as int) =~= strip_cr(raw));
            let ghost rest = lines_from(text, i + 1, i + 1);
            assert(cache_lines(text) =~= done.push(strip_cr(raw)) + rest);
            match parse_line_exec(contents, start, end) {
                Ok(c) => {
                    out.push(Color::from_rgb(c));
                    proof {
                        done = done.push(strip_cr(raw));
                    }
                },
                Err(e) => {
                    proof {
                        assert(cache_lines(text).subrange(0, done.len() as int) =~= done);
                        assert(cache_lines(text)[done.len() as int] == strip_cr(raw));
                        lemma_first_bad_line(cache_lines(text), done, out@, e);
                    }
                    return Err(e);
                },
            }
            start = i + 1;
        }
        i = i + 1;
    }
    if start < n {
        let ghost last = text.subrange(start as int, n as int);
        assert(cache_lines(text) =~= done.push(last));
        match parse_line_exec(contents, start, n) {
            Ok(c) => {
                out.push(Color::from_rgb(c));
                proof {
                    done = done.push(last);
                }
            },
            Err(e) => {
                proof {
                    assert(cache_lines(text).subrange(0, done.len() as int) =~= done);
                    assert(cache_lines(text)[done.len() as int] == last);
                    lemma_first_bad_line(cache_lines(text), done, out@, e);
                }
                return Err(e);
            },
        }
    } else {
        assert(cache_lines(text) =~= done);
    }
    assert forall|k: int| 0 <= k < cache_lines(text).len() implies parse_line(
        #[trigger] cache_lines(text)[k],
    ) is Some by {
        assert(parsed_as(done[k], out[k]));
    }
    Ok(out)
}

// ---------------------------------------------------------------------------
// Saving and loading back
// ---------------------------------------------------------------------------

/// A cache line without its newline.
pub open spec fn line_body(c: Color) -> Seq<char> {
    decimal(c.rgb.r as nat) + seq![','] + decimal(c.rgb.g as nat) + seq![','] + decimal(
        c.rgb.b as nat,
    )
}

proof fn lemma_digit_char(d: int)
    requires
        0 <= d < 10,
    ensures
        is_digit(digit_char(d)),
        digit_char(d) as int - '0' as int == d,
{
    assert('0' as int == 48 && '1' as int == 49 && '2' as int == 50 && '3' as int == 51 && '4' as int
        == 52 && '5' as int == 53 && '6' as int == 54 && '7' as int == 55 && '8' as int == 56
        && '9' as int == 57);
}

/// Decimal text is a nonempty run of digits whose value is the number.
proof fn lemma_decimal_digits(n: nat)
    ensures
        decimal(n).len() >= 1,
        all_digits(decimal(n)),
        digits_value(decimal(n)) == n,
    decreases n,
{
    lemma_digit_char((n % 10) as int);
    if n >= 10 {
        lemma_decimal_digits(n / 10);
        let d = decimal(n);
        assert(d.drop_last() =~= decimal(n / 10));
        assert(d.last() == digit_char((n % 10) as int));
        assert(digits_value(d) == digits_value(d.drop_last()) * 10 + (d.last() as int - '0' as int));
        assert(n == (n / 10) * 10 + n % 10);
        assert forall|i: int| 0 <= i < d.len() implies is_digit(#[trigger] d[i]) by {
            if i < d.len() - 1 {
                assert(d[i] == decimal(n / 10)[i]);
            }
        }
    } else {
        let d = decimal(n);
        assert(d.drop_last() =~= Seq::<char>::empty());
        assert(digits_value(d) == digits_value(d.drop_last()) * 10 + (d.last() as int - '0' as int));
    }
}

/// A decimal field reads back as its value.
proof fn lemma_decimal_field(n: nat)
    requires
        n <= 255,
    ensures
        parse_u8(trim(decimal(n))) == Some(n as u8),
{
    lemma_decimal_digits(n);
    let d = decimal(n);
    assert(is_digit(d[0]) && is_digit(d.last()));
    assert(trim_start(d) == d);
    assert(trim_end(d) == d);
    assert(unsigned_part(d) == d);
}

/// A cache line reads back as the color's triple.
proof fn lemma_line_body_parses(c: Color)
    ensures
        parse_line(line_body(c)) == Some(c.rgb),
        forall|j: int| 0 <= j < line_body(c).len() ==> is_digit(#[trigger] line_body(c)[j])
            || line_body(c)[j] == ',',
        line_body(c).len() > 0 && is_digit(line_body(c).last()),
{
    let a = decimal(c.rgb.r as nat);
    let b = decimal(c.rgb.g as nat);
    let d = decimal(c.rgb.b as nat);
    lemma_decimal_digits(c.rgb.r as nat);
    lemma_decimal_digits(c.rgb.g as nat);
    lemma_decimal_digits(c.rgb.b as nat);
    lemma_decimal_field(c.rgb.r as nat);
    lemma_decimal_field(c.rgb.g as nat);
    lemma_decimal_field(c.rgb.b as nat);
    let line = line_body(c);
    let i1 = a.len() as int;
    let i2 = i1 + 1 + b.len();
    assert forall|j: int| 0 <= j < line.len() implies is_digit(#[trigger] line[j]) || line[j]
        == ',' by {
        if j < i1 {
            assert(line[j] == a[j]);
        } else if j == i1 {
        } else if j < i2 {
            assert(line[j] == b[j - i1 - 1]);
        } else if j == i2 {
        } else {
            assert(line[j] == d[j - i2 - 1]);
        }
    }
    assert(line[i1] == ',' && line[i2] == ',');
    lemma_find_from(line, ',', 0, i1);
    lemma_find_from(line, ',', i1 + 1, i2);
    lemma_find_from(line, ',', i2 + 1, line.len() as int);
    assert(line.subrange(0, i1) =~= a);
    assert(line.subrange(i1 + 1, i2) =~= b);
    assert(line.subrange(i2 + 1, line.len() as int) =~= d);
    assert(line.last() == d.last());
}

/// A scan across a run without newline, up to a newline, yields the run as
/// one line.
proof fn lemma_scan_line(s: Seq<char>, a: int, i: int, b: int)
    requires
        0 <= a <= i <= b < s.len(),
        forall|j: int| a <= j < b ==> s[j] != '\n',
        s[b] == '\n',
    ensures
        lines_from(s, a, i) == seq![strip_cr(s.subrange(a, b))] + lines_from(s, b + 1, b + 1),
    decreases b - i,
{
    if i < b {
        lemma_scan_line(s, a, i + 1, b);
    }
}

/// The cache text of a palette, read from the front.
proof fn lemma_cache_text_front(colors: Seq<Color>)
    requires
        colors.len() > 0,
    ensures
        cache_text(colors) == rgb_line(colors[0]) + cache_text(colors.drop_first()),
    decreases colors.len(),
{
    if colors.len() > 1 {
        lemma_cache_text_front(colors.drop_last());
        assert(colors.drop_last().drop_first() =~= colors.drop_first().drop_last());
        assert(colors.drop_last()[0] == colors[0]);
        assert(colors.drop_first().last() == colors.last());
        assert(cache_text(colors) =~= rgb_line(colors[0]) + cache_text(colors.drop_first()));
    } else {
        assert(colors.drop_last() =~= Seq::<Color>::empty());
        assert(colors.drop_first() =~= Seq::<Color>::empty());
        assert(cache_text(colors) =~= rgb_line(colors[0]) + cache_text(colors.drop_first()));
    }
}

/// After any prefix, the cache text of a palette splits into one line body
/// per color.
proof fn lemma_cache_lines_after(p: Seq<char>, colors: Seq<Color>)
    ensures
        lines_from(p + cache_text(colors), p.len() as int, p.len() as int) == Seq::new(
            colors.len(),
            |k: int| line_body(colors[k]),
        ),
    decreases colors.len(),
{
    let s = p + cache_text(colors);
    if colors.len() == 0 {
        assert(s =~= p);
        assert(Seq::new(colors.len(), |k: int| line_body(colors[k])) =~= Seq::<Seq<char>>::empty());
    } else {
        let c = colors[0];
        let rest = colors.drop_first();
        let body = line_body(c);
        lemma_cache_text_front(colors);
        lemma_line_body_parses(c);
        let q = p + rgb_line(c);
        assert(rgb_line(c) =~= body.push('\n'));
        assert(s =~= q + cache_text(rest));
        let a = p.len() as int;
        let b = a + body.len();
        assert forall|j: int| a <= j < b implies s[j] != '\n' by {
            assert(s[j] == body[j - a]);
            if is_digit(body[j - a]) {
            }
        }
        assert(s[b] == '\n');
        lemma_scan_line(s, a, a, b);
        assert(s.subrange(a, b) =~= body);
        assert(strip_cr(body) == body);
        lemma_cache_lines_after(q, rest);
        assert(q.len() == b + 1);
        assert(Seq::new(colors.len(), |k: int| line_body(colors[k])) =~= seq![body] + Seq::new(
            rest.len(),
            |k: int| line_body(rest[k]),
        ));
    }
}

/// Loading back the cache text of a palette gives one line per color, and
/// each line reads back as that color's RGB triple.
pub proof fn lemma_cache_round_trip(colors: Seq<Color>)
    ensures
        cache_lines(cache_text(colors)).len() == colors.len(),
        forall|k: int|
            0 <= k < colors.len() ==> parse_line(#[trigger] cache_lines(cache_text(colors))[k])
                == Some(colors[k].rgb),
{
    lemma_cache_lines_after(Seq::<char>::empty(), colors);
    assert(Seq::<char>::empty() + cache_text(colors) =~= cache_text(colors));
    assert forall|k: int| 0 <= k < colors.len() implies parse_line(
        #[trigger] cache_lines(cache_text(colors))[k],
    ) == Some(colors[k].rgb) by {
        lemma_line_body_parses(colors[k]);
    }
}

} // verus!
