use vstd::prelude::*;

use crate::number::{Decimal, decimal_chars};
use crate::text::{chars_of, copy_string, int_chars, push_char, push_int, push_str, str_eq};

verus! {

/// Source location for error reporting.
#[derive(Debug, Clone, Copy, PartialEq, Eq, Structural)]
pub struct Span {
    pub start: usize,
    pub end: usize,
    pub line: usize,
    pub col: usize,
}

/// A token with its kind and source span.
#[derive(Debug, Clone, PartialEq)]
pub struct Token {
    pub kind: TokenKind,
    pub span: Span,
}

#[derive(Debug, Clone, PartialEq)]
pub enum TokenKind {
    // -- Literals --
    Integer(i64),
    Float(Decimal),
    String(String),
    Color(String),  // e.g. "FF0066" or "FF006680" (without #)
    Bool(bool),
    // -- Identifiers & Keywords --
    Ident(String),
    Canvas,
    Asset,
    Let,
    Include,
    Frame,
    Text,
    Image,
    Shape,
    Component,
    Use,
    Page,
    // -- Punctuation --
    LBrace,
    RBrace,
    LParen,
    RParen,
    LBracket,
    RBracket,
    Equals,
    Comma,
    Dot,
    // -- Special --
    Eof,
}

/// The mathematical content of a token kind: text as character sequences.
pub ghost enum Kind {
    Integer(int),
    Float(Decimal),
    Str(Seq<char>),
    Color(Seq<char>),
    Bool(bool),
    Ident(Seq<char>),
    Canvas,
    Asset,
    Let,
    Include,
    Frame,
    Text,
    Image,
    Shape,
    Component,
    Use,
    Page,
    LBrace,
    RBrace,
    LParen,
    RParen,
    LBracket,
    RBracket,
    Equals,
    Comma,
    Dot,
    Eof,
}

/// The mathematical content of a token.
pub ghost struct TokenV {
    pub kind: Kind,
    pub span: Span,
}

impl View for TokenKind {
    type V = Kind;

    open spec fn view(&self) -> Kind {
        match self {
            TokenKind::Integer(n) => Kind::Integer(*n as int),
            TokenKind::Float(d) => Kind::Float(*d),
            TokenKind::String(s) => Kind::Str(s@),
            TokenKind::Color(s) => Kind::Color(s@),
            TokenKind::Bool(b) => Kind::Bool(*b),
            TokenKind::Ident(s) => Kind::Ident(s@),
            TokenKind::Canvas => Kind::Canvas,
            TokenKind::Asset => Kind::Asset,
            TokenKind::Let => Kind::Let,
            TokenKind::Include => Kind::Include,
            TokenKind::Frame => Kind::Frame,
            TokenKind::Text => Kind::Text,
            TokenKind::Image => Kind::Image,
            TokenKind::Shape => Kind::Shape,
            TokenKind::Component => Kind::Component,
            TokenKind::Use => Kind::Use,
            TokenKind::Page => Kind::Page,
            TokenKind::LBrace => Kind::LBrace,
            TokenKind::RBrace => Kind::RBrace,
            TokenKind::LParen => Kind::LParen,
            TokenKind::RParen => Kind::RParen,
            TokenKind::LBracket => Kind::LBracket,
            TokenKind::RBracket => Kind::RBracket,
            TokenKind::Equals => Kind::Equals,
            TokenKind::Comma => Kind::Comma,
            TokenKind::Dot => Kind::Dot,
            TokenKind::Eof => Kind::Eof,
        }
    }
}

impl View for Token {
    type V = TokenV;

    open spec fn view(&self) -> TokenV {
        TokenV { kind: self.kind@, span: self.span }
    }
}

/// The keyword that a word spells, if any.
pub open spec fn keyword_of(s: Seq<char>) -> Option<Kind> {
    if s == "canvas"@ {
        Some(Kind::Canvas)
    } else if s == "asset"@ {
        Some(Kind::Asset)
    } else if s == "let"@ {
        Some(Kind::Let)
    } else if s == "include"@ {
        Some(Kind::Include)
    } else if s == "frame"@ {
        Some(Kind::Frame)
    } else if s == "text"@ {
        Some(Kind::Text)
    } else if s == "image"@ {
        Some(Kind::Image)
    } else if s == "shape"@ {
        Some(Kind::Shape)
    } else if s == "component"@ {
        Some(Kind::Component)
    } else if s == "use"@ {
        Some(Kind::Use)
    } else if s == "page"@ {
        Some(Kind::Page)
    } else if s == "true"@ {
        Some(Kind::Bool(true))
    } else if s == "false"@ {
        Some(Kind::Bool(false))
    } else {
        None
    }
}

/// The escaped form of one character inside a `Debug` string.
pub open spec fn escape_char(c: char) -> Seq<char> {
    if c == '"' {
        seq!['\\', '"']
    } else if c == '\\' {
        seq!['\\', '\\']
    } else if c == '\n' {
        seq!['\\', 'n']
    } else if c == '\t' {
        seq!['\\', 't']
    } else if c == '\r' {
        seq!['\\', 'r']
    } else {
        seq![c]
    }
}

/// The escaped form of a text inside a `Debug` string.
pub open spec fn escape_text(s: Seq<char>) -> Seq<char>
    decreases s.len(),
{
    if s.len() == 0 {
        Seq::empty()
    } else {
        escape_text(s.drop_last()) + escape_char(s.last())
    }
}

/// A text in double quotes, escaped, as `Debug` writes a string.
pub open spec fn quoted(s: Seq<char>) -> Seq<char> {
    seq!['"'] + escape_text(s) + seq!['"']
}

/// A number as `Debug` writes a float: with ".0" when it is whole.
pub open spec fn float_debug(d: Decimal) -> Seq<char> {
    if d.scl() == 0 {
        int_chars(d.mant()) + ".0"@
    } else {
        decimal_chars(d)
    }
}

/// A token kind as `Debug` writes it.
pub open spec fn kind_debug(k: Kind) -> Seq<char> {
    match k {
        Kind::Integer(n) => "Integer("@ + int_chars(n) + ")"@,
        Kind::Float(d) => "Float("@ + float_debug(d) + ")"@,
        Kind::Str(s) => "String("@ + quoted(s) + ")"@,
        Kind::Color(s) => "Color("@ + quoted(s) + ")"@,
        Kind::Bool(b) => if b { "Bool(true)"@ } else { "Bool(false)"@ },
        Kind::Ident(s) => "Ident("@ + quoted(s) + ")"@,
        Kind::Canvas => "Canvas"@,
        Kind::Asset => "Asset"@,
        Kind::Let => "Let"@,
        Kind::Include => "Include"@,
        Kind::Frame => "Frame"@,
        Kind::Text => "Text"@,
        Kind::Image => "Image"@,
        Kind::Shape => "Shape"@,
        Kind::Component => "Component"@,
        Kind::Use => "Use"@,
        Kind::Page => "Page"@,
        Kind::LBrace => "LBrace"@,
        Kind::RBrace => "RBrace"@,
        Kind::LParen => "LParen"@,
        Kind::RParen => "RParen"@,
        Kind::LBracket => "LBracket"@,
        Kind::RBracket => "RBracket"@,
        Kind::Equals => "Equals"@,
        Kind::Comma => "Comma"@,
        Kind::Dot => "Dot"@,
        Kind::Eof => "Eof"@,
    }
}

/// Appends a string in double quotes, escaped as `Debug` does.
pub fn push_quoted(s: &mut String, t: &str)
    ensures
        final(s)@ == old(s)@ + quoted(t@),
{
    let cs = chars_of(t);
    push_char(s, '"');
    let ghost start = s@;
    let mut i: usize = 0;
    while i < cs.len()
        invariant
            i <= cs.len(),
            cs@ == t@,
            s@ == start + escape_text(cs@.subrange(0, i as int)),
        decreases cs.len() - i,
    {
        let c = cs[i];
        if c == '"' {
            push_str(s, "\\\"");
        } else if c == '\\' {
            push_str(s, "\\\\");
        } else if c == '\n' {
            push_str(s, "\\n");
        } else if c == '\t' {
            push_str(s, "\\t");
        } else if c == '\r' {
            push_str(s, "\\r");
        } else {
            push_char(s, c);
        }
        proof {
            reveal_strlit("\\\"");
            reveal_strlit("\\\\");
            reveal_strlit("\\n");
            reveal_strlit("\\t");
            reveal_strlit("\\r");
            let sub = cs@.subrange(0, i + 1);
            assert(sub.drop_last() =~= cs@.subrange(0, i as int));
            assert(sub.last() == c);
        }
        i = i + 1;
    }
    push_char(s, '"');
    proof {
        assert(cs@.subrange(0, cs@.len() as int) =~= t@);
        assert(final(s)@ =~= old(s)@ + quoted(t@));
    }
}

/// Appends a number as `Debug` writes a float.
pub fn push_float_debug(s: &mut String, d: &Decimal)
    ensures
        final(s)@ == old(s)@ + float_debug(*d),
{
    if d.scale() == 0 {
        push_int(s, d.mantissa());
        push_str(s, ".0");
        proof {
            assert(final(s)@ =~= old(s)@ + float_debug(*d));
        }
    } else {
        d.push_text(s);
    }
}

impl TokenKind {
    /// Whether the kind is well formed.
    pub open spec fn wf(&self) -> bool {
        true
    }

    /// Map a keyword string to its token kind, or None if not a keyword.
    pub fn keyword(s: &str) -> (r: Option<TokenKind>)
        ensures
            match r {
                Some(k) => keyword_of(s@) == Some(k@),
                None => keyword_of(s@).is_none(),
            },
    {
        if str_eq(s, "canvas") {
            Some(TokenKind::Canvas)
        } else if str_eq(s, "asset") {
            Some(TokenKind::Asset)
        } else if str_eq(s, "let") {
            Some(TokenKind::Let)
        } else if str_eq(s, "include") {
            Some(TokenKind::Include)
        } else if str_eq(s, "frame") {
            Some(TokenKind::Frame)
        } else if str_eq(s, "text") {
            Some(TokenKind::Text)
        } else if str_eq(s, "image") {
            Some(TokenKind::Image)
        } else if str_eq(s, "shape") {
            Some(TokenKind::Shape)
        } else if str_eq(s, "component") {
            Some(TokenKind::Component)
        } else if str_eq(s, "use") {
            Some(TokenKind::Use)
        } else if str_eq(s, "page") {
            Some(TokenKind::Page)
        } else if str_eq(s, "true") {
            Some(TokenKind::Bool(true))
        } else if str_eq(s, "false") {
            Some(TokenKind::Bool(false))
        } else {
            None
        }
    }

    /// A copy of the kind.
    pub fn duplicate(&self) -> (k: TokenKind)
        ensures
            k@ == self@,
            self.wf() ==> k.wf(),
    {
        match self {
            TokenKind::Integer(n) => TokenKind::Integer(*n),
            TokenKind::Float(d) => TokenKind::Float(*d),
            TokenKind::String(s) => TokenKind::String(copy_string(s)),
            TokenKind::Color(s) => TokenKind::Color(copy_string(s)),
            TokenKind::Bool(b) => TokenKind::Bool(*b),
            TokenKind::Ident(s) => TokenKind::Ident(copy_string(s)),
            TokenKind::Canvas => TokenKind::Canvas,
            TokenKind::Asset => TokenKind::Asset,
            TokenKind::Let => TokenKind::Let,
            TokenKind::Include => TokenKind::Include,
            TokenKind::Frame => TokenKind::Frame,
            TokenKind::Text => TokenKind::Text,
            TokenKind::Image => TokenKind::Image,
            TokenKind::Shape => TokenKind::Shape,
            TokenKind::Component => TokenKind::Component,
            TokenKind::Use => TokenKind::Use,
            TokenKind::Page => TokenKind::Page,
            TokenKind::LBrace => TokenKind::LBrace,
            TokenKind::RBrace => TokenKind::RBrace,
            TokenKind::LParen => TokenKind::LParen,
            TokenKind::RParen => TokenKind::RParen,
            TokenKind::LBracket => TokenKind::LBracket,
            TokenKind::RBracket => TokenKind::RBracket,
            TokenKind::Equals => TokenKind::Equals,
            TokenKind::Comma => TokenKind::Comma,
            TokenKind::Dot => TokenKind::Dot,
            TokenKind::Eof => TokenKind::Eof,
        }
    }

    /// Appends the kind as `Debug` writes it.
    pub fn push_debug(&self, s: &mut String)
        requires
            self.wf(),
        ensures
            final(s)@ == old(s)@ + kind_debug(self@),
    {
        match self {
            TokenKind::Integer(n) => {
                push_str(s, "Integer(");
                push_int(s, *n);
                push_str(s, ")");
            },
            TokenKind::Float(d) => {
                push_str(s, "Float(");
                push_float_debug(s, d);
                push_str(s, ")");
            },
            TokenKind::String(t) => {
                push_str(s, "String(");
                push_quoted(s, t.as_str());
                push_str(s, ")");
            },
            TokenKind::Color(t) => {
                push_str(s, "Color(");
                push_quoted(s, t.as_str());
                push_str(s, ")");
            },
            TokenKind::Bool(b) => {
                if *b {
                    push_str(s, "Bool(true)");
                } else {
                    push_str(s, "Bool(false)");
                }
            },
            TokenKind::Ident(t) => {
                push_str(s, "Ident(");
                push_quoted(s, t.as_str());
                push_str(s, ")");
            },
            TokenKind::Canvas => push_str(s, "Canvas"),
            TokenKind::Asset => push_str(s, "Asset"),
            TokenKind::Let => push_str(s, "Let"),
            TokenKind::Include => push_str(s, "Include"),
            TokenKind::Frame => push_str(s, "Frame"),
            TokenKind::Text => push_str(s, "Text"),
            TokenKind::Image => push_str(s, "Image"),
            TokenKind::Shape => push_str(s, "Shape"),
            TokenKind::Component => push_str(s, "Component"),
            TokenKind::Use => push_str(s, "Use"),
            TokenKind::Page => push_str(s, "Page"),
            TokenKind::LBrace => push_str(s, "LBrace"),
            TokenKind::RBrace => push_str(s, "RBrace"),
            TokenKind::LParen => push_str(s, "LParen"),
            TokenKind::RParen => push_str(s, "RParen"),
            TokenKind::LBracket => push_str(s, "LBracket"),
            TokenKind::RBracket => push_str(s, "RBracket"),
            TokenKind::Equals => push_str(s, "Equals"),
            TokenKind::Comma => push_str(s, "Comma"),
            TokenKind::Dot => push_str(s, "Dot"),
            TokenKind::Eof => push_str(s, "Eof"),
        }
        proof {
            assert(final(s)@ =~= old(s)@ + kind_debug(self@));
        }
    }
}

impl Token {
    /// A copy of the token.
    pub fn duplicate(&self) -> (t: Token)
        ensures
            t@ == self@,
            self.kind.wf() ==> t.kind.wf(),
    {
        Token { kind: self.kind.duplicate(), span: self.span }
    }
}

} // verus!
