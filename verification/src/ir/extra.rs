use vstd::prelude::*;

use crate::number::Decimal;
use crate::text::{is_ascii_text, lowercase_of, str_eq, to_lowercase};

verus! {

// -- Font Weight --

#[derive(Debug, Clone, Copy, PartialEq, Eq, Structural)]
pub enum FontWeight {
    Thin,
    Light,
    Normal,
    Medium,
    Semibold,
    Bold,
    Extrabold,
    Black,
}

/// An ASCII letter in lower case; other characters unchanged.
pub open spec fn lower_char(c: char) -> char {
    if 'A' <= c && c <= 'Z' { ((c as int) + 32) as char } else { c }
}

/// A text with its ASCII letters in lower case.
pub open spec fn lower(s: Seq<char>) -> Seq<char> {
    s.map_values(|c: char| lower_char(c))
}

/// The weight a name denotes, whatever the case of its letters: the one
/// its Unicode lower case names.
pub open spec fn font_weight_of(s: Seq<char>) -> Option<FontWeight> {
    weight_of_lower(lowercase_of(s))
}

/// The weight a name in lower case denotes.
pub open spec fn weight_of_lower(l: Seq<char>) -> Option<FontWeight> {
    if l == "thin"@ {
        Some(FontWeight::Thin)
    } else if l == "light"@ {
        Some(FontWeight::Light)
    } else if l == "normal"@ || l == "regular"@ {
        Some(FontWeight::Normal)
    } else if l == "medium"@ {
        Some(FontWeight::Medium)
    } else if l == "semibold"@ || l == "semi-bold"@ {
        Some(FontWeight::Semibold)
    } else if l == "bold"@ {
        Some(FontWeight::Bold)
    } else if l == "extrabold"@ || l == "extra-bold"@ {
        Some(FontWeight::Extrabold)
    } else if l == "black"@ {
        Some(FontWeight::Black)
    } else {
        None
    }
}

/// The CSS numeric weight.
pub open spec fn css_weight(w: FontWeight) -> u16 {
    match w {
        FontWeight::Thin => 100,
        FontWeight::Light => 300,
        FontWeight::Normal => 400,
        FontWeight::Medium => 500,
        FontWeight::Semibold => 600,
        FontWeight::Bold => 700,
        FontWeight::Extrabold => 800,
        FontWeight::Black => 900,
    }
}

impl FontWeight {
    pub fn from_str(s: &str) -> (r: Option<FontWeight>)
        ensures
            r == font_weight_of(s@),
            is_ascii_text(s@) ==> r == weight_of_lower(lower(s@)),
    {
        let l = to_lowercase(s);
        FontWeight::from_lower(l.as_str())
    }

    /// The weight a name already in lower case denotes.
    pub fn from_lower(l: &str) -> (r: Option<FontWeight>)
        ensures
            r == weight_of_lower(l@),
    {
        if str_eq(l, "thin") {
            Some(FontWeight::Thin)
        } else if str_eq(l, "light") {
            Some(FontWeight::Light)
        } else if str_eq(l, "normal") || str_eq(l, "regular") {
            Some(FontWeight::Normal)
        } else if str_eq(l, "medium") {
            Some(FontWeight::Medium)
        } else if str_eq(l, "semibold") || str_eq(l, "semi-bold") {
            Some(FontWeight::Semibold)
        } else if str_eq(l, "bold") {
            Some(FontWeight::Bold)
        } else if str_eq(l, "extrabold") || str_eq(l, "extra-bold") {
            Some(FontWeight::Extrabold)
        } else if str_eq(l, "black") {
            Some(FontWeight::Black)
        } else {
            None
        }
    }

    /// The lower-case name of the weight.
    pub fn name(&self) -> (s: &'static str)
        ensures
            s@ == weight_name(*self),
    {
        match self {
            FontWeight::Thin => "thin",
            FontWeight::Light => "light",
            FontWeight::Normal => "normal",
            FontWeight::Medium => "medium",
            FontWeight::Semibold => "semibold",
            FontWeight::Bold => "bold",
            FontWeight::Extrabold => "extrabold",
            FontWeight::Black => "black",
        }
    }

    pub fn to_css_value(&self) -> (v: u16)
        ensures
            v == css_weight(*self),
    {
        match self {
            FontWeight::Thin => 100,
            FontWeight::Light => 300,
            FontWeight::Normal => 400,
            FontWeight::Medium => 500,
            FontWeight::Semibold => 600,
            FontWeight::Bold => 700,
            FontWeight::Extrabold => 800,
            FontWeight::Black => 900,
        }
    }
}

/// Heavier weights have larger CSS values: the CSS value tells the weights
/// apart.
pub proof fn law_css_weight_injective(a: FontWeight, b: FontWeight)
    ensures
        css_weight(a) == css_weight(b) <==> a == b,
{
}

/// The case of an ASCII name does not matter to the weight it denotes: its
/// lower case is ASCII again and stays as it is when lowered once more, so
/// `FontWeight::from_str` gives the same weight for a name and for its
/// lower case.
pub proof fn law_font_weight_ignores_case(s: Seq<char>)
    requires
        is_ascii_text(s),
    ensures
        is_ascii_text(lower(s)),
        lower(lower(s)) == lower(s),
        weight_of_lower(lower(lower(s))) == weight_of_lower(lower(s)),
{
    assert forall|i: int| 0 <= i < lower(s).len() implies (#[trigger] lower(s)[i] as u32) < 128 by {
        assert((s[i] as u32) < 128);
    }
    assert(lower(lower(s)) =~= lower(s));
}

/// Every weight is found again from its own lower-case name: the name is
/// ASCII, so `FontWeight::from_str` gives the weight back for it.
pub proof fn law_font_weight_names(w: FontWeight)
    ensures
        is_ascii_text(weight_name(w)),
        weight_of_lower(lower(weight_name(w))) == Some(w),
{
    reveal_strlit("thin");
    reveal_strlit("light");
    reveal_strlit("normal");
    reveal_strlit("medium");
    reveal_strlit("semibold");
    reveal_strlit("bold");
    reveal_strlit("extrabold");
    reveal_strlit("black");
    reveal_strlit("regular");
    reveal_strlit("semi-bold");
    reveal_strlit("extra-bold");
    let n = weight_name(w);
    assert(lower(n) =~= n);
    assert("thin"@.len() == 4 && "bold"@.len() == 4 && "light"@.len() == 5 && "black"@.len() == 5);
    assert("thin"@[0] == 't' && "bold"@[0] == 'b' && "light"@[0] == 'l' && "black"@[0] == 'b');
    assert("normal"@.len() == 6 && "medium"@.len() == 6 && "normal"@[0] == 'n' && "medium"@[0] == 'm');
    assert("semibold"@.len() == 8 && "regular"@.len() == 7 && "semi-bold"@.len() == 9);
    assert("extrabold"@.len() == 9 && "extra-bold"@.len() == 10);
    assert("extrabold"@[0] == 'e' && "semi-bold"@[0] == 's');
    assert forall|i: int| 0 <= i < n.len() implies (#[trigger] n[i] as u32) < 128 by {
        assert('a' <= n[i] <= 'z');
    }
}

/// The lower-case name of a weight.
pub open spec fn weight_name(w: FontWeight) -> Seq<char> {
    match w {
        FontWeight::Thin => "thin"@,
        FontWeight::Light => "light"@,
        FontWeight::Normal => "normal"@,
        FontWeight::Medium => "medium"@,
        FontWeight::Semibold => "semibold"@,
        FontWeight::Bold => "bold"@,
        FontWeight::Extrabold => "extrabold"@,
        FontWeight::Black => "black"@,
    }
}

// -- Text Align --

#[derive(Debug, Clone, Copy, PartialEq, Eq, Structural)]
pub enum TextAlign {
    Left,
    Center,
    Right,
}

// -- Text Decoration --

#[derive(Debug, Clone, Copy, PartialEq, Eq, Structural)]
pub enum TextDecoration {
    NoDecoration,
    Underline,
    Strikethrough,
}

// -- Text Transform --

#[derive(Debug, Clone, Copy, PartialEq, Eq, Structural)]
pub enum TextTransform {
    NoTransform,
    Uppercase,
    Lowercase,
}

// -- Image Fit --

#[derive(Debug, Clone, Copy, PartialEq, Eq, Structural)]
pub enum ImageFit {
    Cover,
    Contain,
    Fill,
    NoFit,
}

// -- Position --

#[derive(Debug, Clone, Copy, PartialEq, Eq, Structural)]
pub enum PositionMode {
    Relative,
    Absolute,
}

#[derive(Debug, Clone, Copy, PartialEq)]
pub struct Position {
    pub mode: PositionMode,
    pub top: Option<Decimal>,
    pub right: Option<Decimal>,
    pub bottom: Option<Decimal>,
    pub left: Option<Decimal>,
}

} // verus!
