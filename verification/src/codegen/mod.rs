pub mod tokens;
pub mod html;
pub mod react;

use vstd::prelude::*;

use crate::ir::extra::lower;
use crate::text::{chars_of, is_ascii_text, lowercase_of, str_eq, string_of, to_lowercase};

verus! {

/// Supported output formats for code generation.
pub enum Format {
    Tokens,
    Html,
    React,
}

/// The format a name gives, whatever the case of its letters: the one its
/// Unicode lower case names.
pub open spec fn format_of(s: Seq<char>) -> Option<Format> {
    format_of_lower(lowercase_of(s))
}

/// The format a name in lower case gives.
pub open spec fn format_of_lower(l: Seq<char>) -> Option<Format> {
    if l == "tokens"@ {
        Some(Format::Tokens)
    } else if l == "html"@ {
        Some(Format::Html)
    } else if l == "react"@ {
        Some(Format::React)
    } else {
        None
    }
}

impl Format {
    pub fn parse_str(s: &str) -> (r: Option<Format>)
        ensures
            r == format_of(s@),
            is_ascii_text(s@) ==> r == format_of_lower(lower(s@)),
    {
        let l = to_lowercase(s);
        Format::from_lower(l.as_str())
    }

    /// The format a name already in lower case gives.
    pub fn from_lower(t: &str) -> (r: Option<Format>)
        ensures
            r == format_of_lower(t@),
    {
        if str_eq(t, "tokens") {
            Some(Format::Tokens)
        } else if str_eq(t, "html") {
            Some(Format::Html)
        } else if str_eq(t, "react") {
            Some(Format::React)
        } else {
            None
        }
    }
}

/// A name with each `-` made a `_`, as a file name of generated code wants.
pub open spec fn underscored(s: Seq<char>) -> Seq<char> {
    s.map_values(|c: char| if c == '-' { '_' } else { c })
}

pub fn replace_dashes(s: &str) -> (r: String)
    ensures
        r@ == underscored(s@),
{
    let cs = chars_of(s);
    let mut out: Vec<char> = Vec::new();
    let mut i: usize = 0;
    while i < cs.len()
        invariant
            i <= cs.len(),
            cs@ == s@,
            out@ =~= underscored(s@).subrange(0, i as int),
        decreases cs.len() - i,
    {
        let c = cs[i];
        out.push(if c == '-' { '_' } else { c });
        i = i + 1;
    }
    string_of(&out)
}

} // verus!
