use vstd::prelude::*;

use crate::number::Decimal;
use crate::text::{chars_of, push_char, string_of};

pub use super::extra::{
    FontWeight, ImageFit, Position, PositionMode, TextAlign, TextDecoration, TextTransform,
};

verus! {

/// Validated, normalized color representation.
#[derive(Debug, Clone, Copy, PartialEq, Eq, Structural)]
pub struct Color {
    pub r: u8,
    pub g: u8,
    pub b: u8,
    pub a: u8,
}

pub open spec fn is_hex_digit(c: char) -> bool {
    ('0' <= c && c <= '9') || ('a' <= c && c <= 'f') || ('A' <= c && c <= 'F')
}

/// The value of a hex digit.
pub open spec fn hex_val(c: char) -> int {
    if '0' <= c && c <= '9' {
        c as int - 48
    } else if 'a' <= c && c <= 'f' {
        c as int - 87
    } else {
        c as int - 55
    }
}

/// The byte that two characters spell in base 16, as `u8::from_str_radix`
/// reads them (a leading '+' is allowed).
pub open spec fn hex_pair(c1: char, c2: char) -> Option<u8> {
    if c1 == '+' && is_hex_digit(c2) {
        Some(hex_val(c2) as u8)
    } else if is_hex_digit(c1) && is_hex_digit(c2) {
        Some((16 * hex_val(c1) + hex_val(c2)) as u8)
    } else {
        None
    }
}

/// The text without its leading '#' characters.
pub open spec fn strip_hashes(s: Seq<char>) -> Seq<char>
    decreases s.len(),
{
    if s.len() > 0 && s[0] == '#' { strip_hashes(s.drop_first()) } else { s }
}

/// The color that `#RRGGBB` or `#RRGGBBAA` (with or without '#') denotes.
pub open spec fn color_of_hex(s: Seq<char>) -> Option<Color> {
    let h = strip_hashes(s);
    if h.len() == 6 || h.len() == 8 {
        let r = hex_pair(h[0], h[1]);
        let g = hex_pair(h[2], h[3]);
        let b = hex_pair(h[4], h[5]);
        let a = if h.len() == 8 { hex_pair(h[6], h[7]) } else { Some(255u8) };
        if r is Some && g is Some && b is Some && a is Some {
            Some(Color { r: r->0, g: g->0, b: b->0, a: a->0 })
        } else {
            None
        }
    } else {
        None
    }
}

/// The upper-case hex digit of a value below 16.
pub open spec fn hex_digit(n: int) -> char {
    if n < 10 { ((n + 48) as u8) as char } else { ((n + 55) as u8) as char }
}

/// Two upper-case hex digits of a byte.
pub open spec fn hex2(b: u8) -> Seq<char> {
    seq![hex_digit(b as int / 16), hex_digit(b as int % 16)]
}

/// `#RRGGBB`, with `AA` appended when the color is not opaque.
pub open spec fn color_hex(c: Color) -> Seq<char> {
    let base = seq!['#'] + hex2(c.r) + hex2(c.g) + hex2(c.b);
    if c.a == 255 { base } else { base + hex2(c.a) }
}

fn hex_value(c: char) -> (r: Option<u8>)
    ensures
        match r {
            Some(v) => is_hex_digit(c) && v as int == hex_val(c),
            None => !is_hex_digit(c),
        },
{
    if '0' <= c && c <= '9' {
        Some(((c as u32) - 48) as u8)
    } else if 'a' <= c && c <= 'f' {
        Some(((c as u32) - 87) as u8)
    } else if 'A' <= c && c <= 'F' {
        Some(((c as u32) - 55) as u8)
    } else {
        None
    }
}

fn parse_pair(c1: char, c2: char) -> (r: Option<u8>)
    ensures
        r == hex_pair(c1, c2),
{
    let v2 = hex_value(c2);
    if c1 == '+' {
        return v2;
    }
    match (hex_value(c1), v2) {
        (Some(a), Some(b)) => Some(16 * a + b),
        _ => None,
    }
}

fn push_hex2(s: &mut String, b: u8)
    ensures
        final(s)@ == old(s)@ + hex2(b),
{
    let hi = b / 16;
    let lo = b % 16;
    let c1 = if hi < 10 { (hi + 48) as char } else { (hi + 55) as char };
    let c2 = if lo < 10 { (lo + 48) as char } else { (lo + 55) as char };
    push_char(s, c1);
    push_char(s, c2);
    proof {
        assert(final(s)@ =~= old(s)@ + hex2(b));
    }
}

impl Color {
    pub fn from_hex(hex: &str) -> (r: Option<Color>)
        ensures
            r == color_of_hex(hex@),
    {
        let cs = chars_of(hex);
        let mut i: usize = 0;
        proof {
            assert(cs@.subrange(0, cs@.len() as int) =~= cs@);
        }
        while i < cs.len() && cs[i] == '#'
            invariant
                i <= cs.len(),
                cs@ == hex@,
                strip_hashes(hex@) == strip_hashes(cs@.subrange(i as int, cs@.len() as int)),
            decreases cs.len() - i,
        {
            proof {
                assert(cs@.subrange(i as int, cs@.len() as int).drop_first() =~= cs@.subrange(
                    i + 1,
                    cs@.len() as int,
                ));
            }
            i = i + 1;
        }
        let ghost h = cs@.subrange(i as int, cs@.len() as int);
        proof {
            assert(strip_hashes(h) == h);
        }
        let n = cs.len() - i;
        if n == 6 || n == 8 {
            let r = parse_pair(cs[i], cs[i + 1]);
            let g = parse_pair(cs[i + 2], cs[i + 3]);
            let b = parse_pair(cs[i + 4], cs[i + 5]);
            let a = if n == 8 { parse_pair(cs[i + 6], cs[i + 7]) } else { Some(255u8) };
            proof {
                assert(h[0] == cs@[i as int]);
                assert(h[1] == cs@[i + 1]);
                assert(h[2] == cs@[i + 2]);
                assert(h[3] == cs@[i + 3]);
                assert(h[4] == cs@[i + 4]);
                assert(h[5] == cs@[i + 5]);
                if n == 8 {
                    assert(h[6] == cs@[i + 6]);
                    assert(h[7] == cs@[i + 7]);
                }
            }
            match (r, g, b, a) {
                (Some(r), Some(g), Some(b), Some(a)) => Some(Color { r, g, b, a }),
                _ => None,
            }
        } else {
            None
        }
    }

    pub fn to_hex(&self) -> (s: String)
        ensures
            s@ == color_hex(*self),
    {
        let mut s = String::new();
        push_char(&mut s, '#');
        push_hex2(&mut s, self.r);
        push_hex2(&mut s, self.g);
        push_hex2(&mut s, self.b);
        if self.a != 255 {
            push_hex2(&mut s, self.a);
        }
        proof {
            assert(s@ =~= color_hex(*self));
        }
        s
    }

    pub fn transparent() -> (c: Color)
        ensures
            c == (Color { r: 0, g: 0, b: 0, a: 0 }),
    {
        Color { r: 0, g: 0, b: 0, a: 0 }
    }

    pub fn is_transparent(&self) -> (b: bool)
        ensures
            b == (self.a == 0),
    {
        self.a == 0
    }
}

proof fn lemma_hex2_reads_back(b: u8)
    ensures
        hex_pair(hex2(b)[0], hex2(b)[1]) == Some(b),
        hex2(b)[0] != '#',
{
    let hi = b as int / 16;
    let lo = b as int % 16;
    assert(0 <= hi < 16 && 0 <= lo < 16);
    assert(hex_val(hex_digit(hi)) == hi);
    assert(hex_val(hex_digit(lo)) == lo);
    assert(16 * hi + lo == b);
}

/// Reading a color's hex text gives the color back.
pub proof fn law_hex_round_trip(c: Color)
    ensures
        color_of_hex(color_hex(c)) == Some(c),
{
    let s = color_hex(c);
    lemma_hex2_reads_back(c.r);
    lemma_hex2_reads_back(c.g);
    lemma_hex2_reads_back(c.b);
    lemma_hex2_reads_back(c.a);
    let h = s.drop_first();
    assert(strip_hashes(s) == strip_hashes(h));
    assert(h[0] == hex2(c.r)[0]);
    assert(strip_hashes(h) == h);
}

/// The transparent color is the one whose alpha is zero, and its hex text
/// carries that alpha.
pub proof fn law_transparent_hex()
    ensures
        color_hex(Color { r: 0, g: 0, b: 0, a: 0 }) == "#00000000"@,
{
    reveal_strlit("#00000000");
    assert(color_hex(Color { r: 0, g: 0, b: 0, a: 0 }) =~= "#00000000"@);
}

// -- Layout Enums --

#[derive(Debug, Clone, Copy, PartialEq, Eq, Structural)]
pub enum LayoutMode {
    Horizontal,
    Vertical,
    Grid,
}

#[derive(Debug, Clone, Copy, PartialEq, Eq, Structural)]
pub enum Align {
    Start,
    Center,
    End,
    Stretch,
}

#[derive(Debug, Clone, Copy, PartialEq, Eq, Structural)]
pub enum Justify {
    Start,
    Center,
    End,
    SpaceBetween,
    SpaceAround,
}

// -- Dimension --

#[derive(Debug, Clone, Copy, PartialEq, Eq, Structural)]
pub enum Dimension {
    Fixed(Decimal),
    Fill,
    Hug,
}

// -- Visual Styles --

#[derive(Debug, Clone, Copy, PartialEq, Eq, Structural)]
pub struct GradientStop {
    pub color: Color,
    pub position: Decimal,
}

#[derive(Debug, Clone, PartialEq)]
pub enum Fill {
    Solid { color: Color },
    LinearGradient { angle: Decimal, stops: Vec<GradientStop> },
    RadialGradient { cx: Decimal, cy: Decimal, stops: Vec<GradientStop> },
    Transparent,
}

/// The mathematical content of a fill.
pub ghost enum FillV {
    Solid(Color),
    Linear(Decimal, Seq<GradientStop>),
    Radial(Decimal, Decimal, Seq<GradientStop>),
    Transparent,
}

pub open spec fn fill_view(f: Fill) -> FillV {
    match f {
        Fill::Solid { color } => FillV::Solid(color),
        Fill::LinearGradient { angle, stops } => FillV::Linear(angle, stops@),
        Fill::RadialGradient { cx, cy, stops } => FillV::Radial(cx, cy, stops@),
        Fill::Transparent => FillV::Transparent,
    }
}

#[derive(Debug, Clone, Copy, PartialEq)]
pub struct Stroke {
    pub width: Decimal,
    pub color: Color,
    pub dash: Option<[Decimal; 2]>,
}

// -- Blend Mode --

#[derive(Debug, Clone, Copy, PartialEq, Eq, Structural)]
pub enum BlendMode {
    Normal,
    Multiply,
    Screen,
    Overlay,
    Darken,
    Lighten,
}

#[derive(Debug, Clone, Copy, PartialEq, Eq, Structural)]
pub struct Shadow {
    pub x: Decimal,
    pub y: Decimal,
    pub blur: Decimal,
    pub color: Color,
}

/// Corner radii: top-left, top-right, bottom-right, bottom-left.
#[derive(Debug, Clone, Copy, PartialEq)]
pub struct CornerRadius(pub [Decimal; 4]);

/// Padding: top, right, bottom, left.
#[derive(Debug, Clone, Copy, PartialEq)]
pub struct Padding(pub [Decimal; 4]);

// -- Layout --

#[derive(Debug, Clone, Copy, PartialEq)]
pub struct Layout {
    pub mode: LayoutMode,
    pub gap: Option<Decimal>,
    pub align: Option<Align>,
    pub justify: Option<Justify>,
    pub columns: Option<u32>,
    pub rows: Option<u32>,
}

} // verus!
