use vstd::prelude::*;

use crate::error::{ErrorKind, ErrorView, PastelError};
use crate::number::{Decimal, decimal_of, parts_wf};
use crate::text::{chars_of, nat_digits, push_char, push_nat, push_str, string_of};
use crate::token::{Kind, Span, Token, TokenKind, TokenV, keyword_of};

verus! {

// ---------------------------------------------------------------------------
// Character classes (ASCII, as Rust's `is_ascii_*` define them)
// ---------------------------------------------------------------------------

pub open spec fn is_digit(c: char) -> bool {
    '0' <= c && c <= '9'
}

pub open spec fn is_hex(c: char) -> bool {
    is_digit(c) || ('a' <= c && c <= 'f') || ('A' <= c && c <= 'F')
}

pub open spec fn is_alpha(c: char) -> bool {
    ('a' <= c && c <= 'z') || ('A' <= c && c <= 'Z')
}

/// A character that may continue an identifier.
pub open spec fn is_ident_char(c: char) -> bool {
    is_alpha(c) || is_digit(c) || c == '_' || c == '-'
}

/// A character that may start an identifier.
pub open spec fn is_ident_start(c: char) -> bool {
    is_alpha(c) || c == '_'
}

// ---------------------------------------------------------------------------
// Runs of characters
// ---------------------------------------------------------------------------

/// The end of the run of hex digits that starts at `i`.
pub open spec fn hex_end(src: Seq<char>, i: int) -> int
    decreases src.len() - i,
{
    if 0 <= i < src.len() && is_hex(src[i]) { hex_end(src, i + 1) } else { i }
}

/// The end of the run of decimal digits that starts at `i`.
pub open spec fn digit_end(src: Seq<char>, i: int) -> int
    decreases src.len() - i,
{
    if 0 <= i < src.len() && is_digit(src[i]) { digit_end(src, i + 1) } else { i }
}

/// The end of the run of identifier characters that starts at `i`.
pub open spec fn ident_end(src: Seq<char>, i: int) -> int
    decreases src.len() - i,
{
    if 0 <= i < src.len() && is_ident_char(src[i]) { ident_end(src, i + 1) } else { i }
}

/// The first line break at or after `i`, or the end of the source.
pub open spec fn line_end(src: Seq<char>, i: int) -> int
    decreases src.len() - i,
{
    if 0 <= i < src.len() && src[i] != '\n' { line_end(src, i + 1) } else { i }
}

pub proof fn lemma_hex_end(src: Seq<char>, i: int)
    requires
        0 <= i <= src.len(),
    ensures
        i <= hex_end(src, i) <= src.len(),
        forall|k: int| i <= k < hex_end(src, i) ==> is_hex(#[trigger] src[k]),
        hex_end(src, i) < src.len() ==> !is_hex(src[hex_end(src, i)]),
    decreases src.len() - i,
{
    if i < src.len() && is_hex(src[i]) {
        lemma_hex_end(src, i + 1);
    }
}

pub proof fn lemma_digit_end(src: Seq<char>, i: int)
    requires
        0 <= i <= src.len(),
    ensures
        i <= digit_end(src, i) <= src.len(),
        forall|k: int| i <= k < digit_end(src, i) ==> is_digit(#[trigger] src[k]),
        digit_end(src, i) < src.len() ==> !is_digit(src[digit_end(src, i)]),
    decreases src.len() - i,
{
    if i < src.len() && is_digit(src[i]) {
        lemma_digit_end(src, i + 1);
    }
}

pub proof fn lemma_ident_end(src: Seq<char>, i: int)
    requires
        0 <= i <= src.len(),
    ensures
        i <= ident_end(src, i) <= src.len(),
        forall|k: int| i <= k < ident_end(src, i) ==> is_ident_char(#[trigger] src[k]),
    decreases src.len() - i,
{
    if i < src.len() && is_ident_char(src[i]) {
        lemma_ident_end(src, i + 1);
    }
}

pub proof fn lemma_line_end(src: Seq<char>, i: int)
    requires
        0 <= i <= src.len(),
    ensures
        i <= line_end(src, i) <= src.len(),
    decreases src.len() - i,
{
    if i < src.len() && src[i] != '\n' {
        lemma_line_end(src, i + 1);
    }
}

/// After a dotted identifier segment ends at `j`, the end of the identifier
/// once every `.segment` that follows is absorbed.
pub open spec fn dots_end(src: Seq<char>, j: int) -> int
    decreases src.len() - j,
{
    if 0 <= j && j + 1 < src.len() && src[j] == '.' && is_ident_start(src[j + 1]) {
        proof {
            lemma_ident_end(src, j + 1);
        }
        dots_end(src, ident_end(src, j + 1))
    } else {
        j
    }
}

pub proof fn lemma_dots_end(src: Seq<char>, j: int)
    requires
        0 <= j <= src.len(),
    ensures
        j <= dots_end(src, j) <= src.len(),
    decreases src.len() - j,
{
    if 0 <= j && j + 1 < src.len() && src[j] == '.' && is_ident_start(src[j + 1]) {
        lemma_ident_end(src, j + 1);
        lemma_dots_end(src, ident_end(src, j + 1));
    }
}

// ---------------------------------------------------------------------------
// Number values
// ---------------------------------------------------------------------------

pub open spec fn digit_val(c: char) -> int {
    c as int - 48
}

/// The value of the decimal digits `ds` appended to the value `acc`.
pub open spec fn fold_digits(acc: int, ds: Seq<char>) -> int
    decreases ds.len(),
{
    if ds.len() == 0 {
        acc
    } else {
        fold_digits(acc, ds.drop_last()) * 10 + digit_val(ds.last())
    }
}

/// The digits without their trailing zeros.
pub open spec fn strip_zeros(ds: Seq<char>) -> Seq<char>
    decreases ds.len(),
{
    if ds.len() > 0 && ds.last() == '0' { strip_zeros(ds.drop_last()) } else { ds }
}

pub proof fn lemma_fold_concat(acc: int, a: Seq<char>, b: Seq<char>)
    ensures
        fold_digits(acc, a + b) == fold_digits(fold_digits(acc, a), b),
    decreases b.len(),
{
    if b.len() == 0 {
        assert(a + b =~= a);
    } else {
        assert((a + b).drop_last() =~= a + b.drop_last());
        lemma_fold_concat(acc, a, b.drop_last());
    }
}

pub proof fn lemma_fold_grows(acc: int, ds: Seq<char>)
    requires
        acc >= 0,
        forall|k: int| 0 <= k < ds.len() ==> is_digit(#[trigger] ds[k]),
    ensures
        fold_digits(acc, ds) >= acc,
    decreases ds.len(),
{
    if ds.len() > 0 {
        lemma_fold_grows(acc, ds.drop_last());
    }
}

pub proof fn lemma_strip_zeros(ds: Seq<char>)
    ensures
        strip_zeros(ds).len() <= ds.len(),
        strip_zeros(ds) =~= ds.subrange(0, strip_zeros(ds).len() as int),
        strip_zeros(ds).len() > 0 ==> strip_zeros(ds).last() != '0',
        forall|k: int| strip_zeros(ds).len() <= k < ds.len() ==> #[trigger] ds[k] == '0',
    decreases ds.len(),
{
    if ds.len() > 0 && ds.last() == '0' {
        lemma_strip_zeros(ds.drop_last());
        assert forall|k: int| strip_zeros(ds).len() <= k < ds.len() implies #[trigger] ds[k] == '0' by {
            if k < ds.len() - 1 {
                assert(ds.drop_last()[k] == ds[k]);
            }
        }
        assert(ds.drop_last().subrange(0, strip_zeros(ds).len() as int) =~= ds.subrange(
            0,
            strip_zeros(ds).len() as int,
        ));
    }
}

pub const I64_LIMIT: u64 = 9223372036854775808;

/// A signed integer of the given sign and magnitude, if it fits in 64 bits.
pub open spec fn signed_fits(neg: bool, m: int) -> bool {
    if neg { m <= I64_LIMIT } else { m < I64_LIMIT }
}

pub open spec fn signed(neg: bool, m: int) -> int {
    if neg { -m } else { m }
}

// ---------------------------------------------------------------------------
// The scanner, as a function of the source and the scanning position
// ---------------------------------------------------------------------------

/// A scanning position: an index into the source, with its line and column.
pub ghost struct Pos {
    pub pos: int,
    pub line: int,
    pub col: int,
}

pub open spec fn mk_span(start: int, end: int, line: int, col: int) -> Span {
    Span { start: start as usize, end: end as usize, line: line as usize, col: col as usize }
}

pub open spec fn lex_err(kind: ErrorKind, message: Seq<char>, span: Span, hint: Option<Seq<char>>) -> ErrorView {
    ErrorView { kind, message, span: Some(span), hint }
}

/// Skips blanks, line breaks and `//` comments.
pub open spec fn skip_blank(src: Seq<char>, st: Pos) -> Pos
    decreases src.len() - st.pos,
{
    if 0 <= st.pos < src.len() {
        let c = src[st.pos];
        if c == ' ' || c == '\t' || c == '\r' {
            skip_blank(src, Pos { pos: st.pos + 1, line: st.line, col: st.col + 1 })
        } else if c == '\n' {
            skip_blank(src, Pos { pos: st.pos + 1, line: st.line + 1, col: 1 })
        } else if c == '/' && st.pos + 1 < src.len() && src[st.pos + 1] == '/' {
            let e = line_end(src, st.pos + 1);
            proof {
                lemma_line_end(src, st.pos + 1);
            }
            skip_blank(src, Pos { pos: e, line: st.line, col: st.col + (e - st.pos) })
        } else {
            st
        }
    } else {
        st
    }
}

/// A one-character token at `st`.
pub open spec fn single(k: Kind, st: Pos) -> Result<(TokenV, Pos), ErrorView> {
    Ok(
        (
            TokenV { kind: k, span: mk_span(st.pos, st.pos + 1, st.line, st.col) },
            Pos { pos: st.pos + 1, line: st.line, col: st.col + 1 },
        ),
    )
}

/// A color literal `#` followed by 6 or 8 hex digits.
pub open spec fn scan_color_spec(src: Seq<char>, st: Pos) -> Result<(TokenV, Pos), ErrorView> {
    let p = st.pos;
    let q = hex_end(src, p + 1);
    let n = q - p - 1;
    if n != 6 && n != 8 {
        Err(
            lex_err(
                ErrorKind::InvalidColor,
                "color literal must be 6 or 8 hex digits, got "@ + nat_digits(n as nat) + " digits"@,
                mk_span(p, q, st.line, st.col),
                Some("use #RRGGBB or #RRGGBBAA format"@),
            ),
        )
    } else {
        Ok(
            (
                TokenV { kind: Kind::Color(src.subrange(p + 1, q)), span: mk_span(p, q, st.line, st.col) },
                Pos { pos: q, line: st.line, col: st.col + (q - p) },
            ),
        )
    }
}

/// What an escape sequence `\e` stands for inside a string literal.
pub open spec fn unescape(e: char) -> Seq<char> {
    if e == 'n' {
        seq!['\n']
    } else if e == 't' {
        seq!['\t']
    } else if e == '\\' {
        seq!['\\']
    } else if e == '"' {
        seq!['"']
    } else {
        seq!['\\', e]
    }
}

/// Scans the body of a string literal from `i` (after the opening quote),
/// with `acc` the text so far: the index of the closing quote, the line and
/// column there, and the text; `None` when the source ends first.
pub open spec fn string_body(src: Seq<char>, i: int, line: int, col: int, acc: Seq<char>) -> Option<
    (int, int, int, Seq<char>),
>
    decreases src.len() - i,
{
    if i < 0 || i >= src.len() {
        None
    } else if src[i] == '"' {
        Some((i, line, col, acc))
    } else {
        let ch = src[i];
        let l1 = if ch == '\n' { line + 1 } else { line };
        let c1 = if ch == '\n' { 1 } else { col + 1 };
        if ch == '\\' && i + 1 < src.len() {
            string_body(src, i + 2, l1, c1 + 1, acc + unescape(src[i + 1]))
        } else {
            string_body(src, i + 1, l1, c1, acc.push(ch))
        }
    }
}

pub open spec fn sat_sub(a: int, b: int) -> int {
    if a >= b { a - b } else { 0 }
}

/// A string literal in double quotes, with escapes.
pub open spec fn scan_string_spec(src: Seq<char>, st: Pos) -> Result<(TokenV, Pos), ErrorView> {
    let p = st.pos;
    match string_body(src, p + 1, st.line, st.col + 1, Seq::empty()) {
        None => Err(
            lex_err(
                ErrorKind::UnterminatedString,
                "unterminated string literal"@,
                mk_span(p, src.len() as int, st.line, st.col),
                Some("add a closing '\"'"@),
            ),
        ),
        Some((i, l, c, v)) => Ok(
            (
                TokenV { kind: Kind::Str(v), span: mk_span(p, i + 1, l, sat_sub(c + 1, i + 1 - p)) },
                Pos { pos: i + 1, line: l, col: c + 1 },
            ),
        ),
    }
}

/// A number literal: an optional '-', digits, and an optional fraction.
pub open spec fn scan_number_spec(src: Seq<char>, st: Pos) -> Result<(TokenV, Pos), ErrorView> {
    let p = st.pos;
    let neg = src[p] == '-';
    let i = if neg { p + 1 } else { p };
    let j = digit_end(src, i);
    if j + 1 < src.len() && src[j] == '.' && is_digit(src[j + 1]) {
        let k = digit_end(src, j + 1);
        let span = mk_span(p, k, st.line, st.col);
        let kept = strip_zeros(src.subrange(j + 1, k));
        let m = fold_digits(0, src.subrange(i, j) + kept);
        if kept.len() <= 18 && signed_fits(neg, m) {
            Ok(
                (
                    TokenV {
                        kind: Kind::Float(decimal_of(signed(neg, m), kept.len() as int)),
                        span,
                    },
                    Pos { pos: k, line: st.line, col: st.col + (k - p) },
                ),
            )
        } else {
            Err(
                lex_err(
                    ErrorKind::InvalidNumber,
                    "invalid float literal '"@ + src.subrange(p, k) + "'"@,
                    span,
                    None,
                ),
            )
        }
    } else {
        let span = mk_span(p, j, st.line, st.col);
        let m = fold_digits(0, src.subrange(i, j));
        if signed_fits(neg, m) {
            Ok(
                (
                    TokenV { kind: Kind::Integer(signed(neg, m)), span },
                    Pos { pos: j, line: st.line, col: st.col + (j - p) },
                ),
            )
        } else {
            Err(
                lex_err(
                    ErrorKind::InvalidNumber,
                    "invalid integer literal '"@ + src.subrange(p, j) + "'"@,
                    span,
                    None,
                ),
            )
        }
    }
}

/// An identifier or keyword; a non-keyword absorbs `.segment` parts.
pub open spec fn scan_ident_spec(src: Seq<char>, st: Pos) -> Result<(TokenV, Pos), ErrorView> {
    let p = st.pos;
    let j0 = ident_end(src, p);
    let j = if keyword_of(src.subrange(p, j0)) is None { dots_end(src, j0) } else { j0 };
    let word = src.subrange(p, j);
    let kind = match keyword_of(word) {
        Some(k) => k,
        None => Kind::Ident(word),
    };
    Ok(
        (
            TokenV { kind, span: mk_span(p, j, st.line, st.col) },
            Pos { pos: j, line: st.line, col: st.col + (j - p) },
        ),
    )
}

/// The token that starts at `st`, and the position after it.
pub open spec fn scan_spec(src: Seq<char>, st: Pos) -> Result<(TokenV, Pos), ErrorView> {
    let p = st.pos;
    let c = src[p];
    if c == '{' {
        single(Kind::LBrace, st)
    } else if c == '}' {
        single(Kind::RBrace, st)
    } else if c == '(' {
        single(Kind::LParen, st)
    } else if c == ')' {
        single(Kind::RParen, st)
    } else if c == '[' {
        single(Kind::LBracket, st)
    } else if c == ']' {
        single(Kind::RBracket, st)
    } else if c == '=' {
        single(Kind::Equals, st)
    } else if c == ',' {
        single(Kind::Comma, st)
    } else if c == '.' {
        single(Kind::Dot, st)
    } else if c == '#' {
        scan_color_spec(src, st)
    } else if c == '"' {
        scan_string_spec(src, st)
    } else if is_digit(c) || (c == '-' && p + 1 < src.len() && is_digit(src[p + 1])) {
        scan_number_spec(src, st)
    } else if is_ident_start(c) {
        scan_ident_spec(src, st)
    } else {
        Err(
            lex_err(
                ErrorKind::UnexpectedChar,
                "unexpected character '"@ + seq![c] + "'"@,
                mk_span(p, p, st.line, st.col),
                None,
            ),
        )
    }
}

pub proof fn lemma_string_body(src: Seq<char>, i: int, line: int, col: int, acc: Seq<char>)
    requires
        0 <= i,
    ensures
        match string_body(src, i, line, col, acc) {
            Some((e, _, _, _)) => i <= e < src.len(),
            None => true,
        },
    decreases src.len() - i,
{
    if i < 0 || i >= src.len() {
    } else if src[i] == '"' {
    } else {
        let ch = src[i];
        let l1 = if ch == '\n' { line + 1 } else { line };
        let c1 = if ch == '\n' { 1 } else { col + 1 };
        if ch == '\\' && i + 1 < src.len() {
            lemma_string_body(src, i + 2, l1, c1 + 1, acc + unescape(src[i + 1]));
        } else {
            lemma_string_body(src, i + 1, l1, c1, acc.push(ch));
        }
    }
}

/// Every token takes at least one character, and stays inside the source.
pub proof fn lemma_scan_advances(src: Seq<char>, st: Pos)
    requires
        0 <= st.pos < src.len(),
    ensures
        match scan_spec(src, st) {
            Ok((_, st2)) => st.pos < st2.pos <= src.len(),
            Err(_) => true,
        },
{
    let p = st.pos;
    let c = src[p];
    if c == '#' {
        lemma_hex_end(src, p + 1);
    } else if c == '"' {
        lemma_string_body(src, p + 1, st.line, st.col + 1, Seq::empty());
    } else if is_digit(c) || (c == '-' && p + 1 < src.len() && is_digit(src[p + 1])) {
        let neg = src[p] == '-';
        let i = if neg { p + 1 } else { p };
        lemma_digit_end(src, i);
        assert(digit_end(src, i) == digit_end(src, i + 1));
        lemma_digit_end(src, i + 1);
        let j = digit_end(src, i);
        if j + 1 < src.len() && src[j] == '.' && is_digit(src[j + 1]) {
            lemma_digit_end(src, j + 1);
        }
    } else if is_ident_start(c) {
        lemma_ident_end(src, p);
        assert(ident_end(src, p) == ident_end(src, p + 1));
        lemma_ident_end(src, p + 1);
        lemma_dots_end(src, ident_end(src, p));
    }
}

pub proof fn lemma_skip_blank(src: Seq<char>, st: Pos)
    requires
        0 <= st.pos <= src.len(),
    ensures
        st.pos <= skip_blank(src, st).pos <= src.len(),
    decreases src.len() - st.pos,
{
    if 0 <= st.pos < src.len() {
        let c = src[st.pos];
        if c == ' ' || c == '\t' || c == '\r' {
            lemma_skip_blank(src, Pos { pos: st.pos + 1, line: st.line, col: st.col + 1 });
        } else if c == '\n' {
            lemma_skip_blank(src, Pos { pos: st.pos + 1, line: st.line + 1, col: 1 });
        } else if c == '/' && st.pos + 1 < src.len() && src[st.pos + 1] == '/' {
            let e = line_end(src, st.pos + 1);
            lemma_line_end(src, st.pos + 1);
            lemma_skip_blank(src, Pos { pos: e, line: st.line, col: st.col + (e - st.pos) });
        }
    }
}

/// The tokens of the source from `st` on, ending with `Eof`; or the first
/// error.
pub open spec fn lex_spec(src: Seq<char>, st: Pos) -> Result<Seq<TokenV>, ErrorView>
    decreases src.len() - st.pos,
{
    if st.pos < 0 || st.pos > src.len() {
        Ok(Seq::empty())
    } else {
        let s1 = skip_blank(src, st);
        proof {
            lemma_skip_blank(src, st);
        }
        if s1.pos >= src.len() {
            Ok(seq![TokenV { kind: Kind::Eof, span: mk_span(s1.pos, s1.pos, s1.line, s1.col) }])
        } else {
            proof {
                lemma_scan_advances(src, s1);
            }
            match scan_spec(src, s1) {
                Err(e) => Err(e),
                Ok((t, s2)) => match lex_spec(src, s2) {
                    Ok(rest) => Ok(seq![t] + rest),
                    Err(e) => Err(e),
                },
            }
        }
    }
}

// ---------------------------------------------------------------------------
// The shape of a token list
// ---------------------------------------------------------------------------

/// A scanning position inside the source, on a line no later than one
/// past the characters before it.
pub open spec fn pos_ok(src: Seq<char>, st: Pos) -> bool {
    0 <= st.pos <= src.len() && 1 <= st.line <= st.pos + 1
}

/// The tokens of a source of `n` characters: the last is the only `Eof`, it
/// stands at the end of the source, each token's span starts no later than
/// it ends, and a later token starts where an earlier one has ended or
/// after, on the same line or a later one.
pub open spec fn tokens_shape(ts: Seq<TokenV>, n: int) -> bool {
    &&& ts.len() > 0
    &&& ts.last().kind == Kind::Eof
    &&& ts.last().span.start == n && ts.last().span.end == n
    &&& forall|i: int| 0 <= i < ts.len() - 1 ==> (#[trigger] ts[i]).kind != Kind::Eof
    &&& forall|i: int| 0 <= i < ts.len() ==> (#[trigger] ts[i]).span.start <= ts[i].span.end
    &&& forall|i: int, j: int|
        0 <= i < j < ts.len() ==> (#[trigger] ts[i]).span.end <= (#[trigger] ts[j]).span.start && ts[i].span.line
            <= ts[j].span.line
}

proof fn lemma_skip_blank_lines(src: Seq<char>, st: Pos)
    requires
        pos_ok(src, st),
    ensures
        pos_ok(src, skip_blank(src, st)),
        st.line <= skip_blank(src, st).line,
    decreases src.len() - st.pos,
{
    if 0 <= st.pos < src.len() {
        let c = src[st.pos];
        if c == ' ' || c == '\t' || c == '\r' {
            lemma_skip_blank_lines(src, Pos { pos: st.pos + 1, line: st.line, col: st.col + 1 });
        } else if c == '\n' {
            lemma_skip_blank_lines(src, Pos { pos: st.pos + 1, line: st.line + 1, col: 1 });
        } else if c == '/' && st.pos + 1 < src.len() && src[st.pos + 1] == '/' {
            let e = line_end(src, st.pos + 1);
            lemma_line_end(src, st.pos + 1);
            lemma_skip_blank_lines(src, Pos { pos: e, line: st.line, col: st.col + (e - st.pos) });
        }
    }
}

proof fn lemma_string_body_lines(src: Seq<char>, i: int, line: int, col: int, acc: Seq<char>)
    requires
        1 <= line <= i,
    ensures
        match string_body(src, i, line, col, acc) {
            Some((e, l, _, _)) => line <= l <= e,
            None => true,
        },
    decreases src.len() - i,
{
    if i < 0 || i >= src.len() {
    } else if src[i] == '"' {
    } else {
        let ch = src[i];
        let l1 = if ch == '\n' { line + 1 } else { line };
        let c1 = if ch == '\n' { 1 } else { col + 1 };
        if ch == '\\' && i + 1 < src.len() {
            lemma_string_body_lines(src, i + 2, l1, c1 + 1, acc + unescape(src[i + 1]));
        } else {
            lemma_string_body_lines(src, i + 1, l1, c1, acc.push(ch));
        }
    }
}

/// A token scanned at `st`: not `Eof`, spanning from `st` to where scanning
/// goes on, on a line between the two.
#[verifier::rlimit(40)]
#[verifier::spinoff_prover]
proof fn lemma_scan_shape(src: Seq<char>, st: Pos)
    requires
        pos_ok(src, st),
        st.pos < src.len(),
        src.len() < usize::MAX,
    ensures
        match scan_spec(src, st) {
            Ok((t, st2)) => {
                &&& t.kind != Kind::Eof
                &&& pos_ok(src, st2)
                &&& st.pos < st2.pos
                &&& st.line <= st2.line
                &&& t.span.start == st.pos && t.span.end == st2.pos
                &&& st.line <= t.span.line <= st2.line
            },
            Err(_) => true,
        },
{
    lemma_scan_advances(src, st);
    let p = st.pos;
    let c = src[p];
    if c == '"' {
        lemma_string_body_lines(src, p + 1, st.line, st.col + 1, Seq::empty());
    } else if is_ident_start(c) && !(is_digit(c) || (c == '-' && p + 1 < src.len() && is_digit(src[p + 1]))) {
        let j0 = ident_end(src, p);
        let j = if keyword_of(src.subrange(p, j0)) is None { dots_end(src, j0) } else { j0 };
        let w = src.subrange(p, j);
        assert(keyword_of(w) != Some(Kind::Eof));
    }
}

/// The tokens from a position inside the source have the shape of a token
/// list, and start at that position or later, on its line or a later one.
proof fn lemma_lex_shape(src: Seq<char>, st: Pos)
    requires
        pos_ok(src, st),
        src.len() < usize::MAX,
    ensures
        match lex_spec(src, st) {
            Ok(ts) => tokens_shape(ts, src.len() as int) && st.pos <= ts[0].span.start && st.line <= ts[0].span.line,
            Err(_) => true,
        },
    decreases src.len() - st.pos,
{
    let s1 = skip_blank(src, st);
    lemma_skip_blank(src, st);
    lemma_skip_blank_lines(src, st);
    if s1.pos < src.len() {
        lemma_scan_advances(src, s1);
        lemma_scan_shape(src, s1);
        match scan_spec(src, s1) {
            Ok((t, s2)) => {
                lemma_lex_shape(src, s2);
                match lex_spec(src, s2) {
                    Ok(rest) => {
                        let ts = seq![t] + rest;
                        assert(ts.last() == rest.last());
                        assert forall|i: int| 0 <= i < ts.len() - 1 implies (#[trigger] ts[i]).kind != Kind::Eof by {
                            if i > 0 {
                                assert(ts[i] == rest[i - 1]);
                            }
                        }
                        assert forall|i: int| 0 <= i < ts.len() implies (#[trigger] ts[i]).span.start <= ts[i].span.end by {
                            if i > 0 {
                                assert(ts[i] == rest[i - 1]);
                            }
                        }
                        assert forall|i: int, j: int| 0 <= i < j < ts.len() implies (#[trigger] ts[i]).span.end
                            <= (#[trigger] ts[j]).span.start && ts[i].span.line <= ts[j].span.line by {
                            assert(ts[j] == rest[j - 1]);
                            if i > 0 {
                                assert(ts[i] == rest[i - 1]);
                            } else {
                                assert(rest[0].span.start <= rest[0].span.end);
                                if j > 1 {
                                    assert(rest[0].span.end <= rest[j - 1].span.start);
                                }
                            }
                        }
                    },
                    Err(_) => {},
                }
            },
            Err(_) => {},
        }
    }
}

/// The tokens of a source end with the one `Eof`, which stands at the end
/// of the source; the spans of the tokens go forward through the source,
/// never back in position or in line.
pub proof fn law_tokens_shape(src: Seq<char>)
    requires
        src.len() < usize::MAX,
    ensures
        match tokenize_spec(src) {
            Ok(ts) => tokens_shape(ts, src.len() as int),
            Err(_) => true,
        },
{
    lemma_lex_shape(src, Pos { pos: 0, line: 1, col: 1 });
}

/// The tokens of a whole source text, or the first error.
pub open spec fn tokenize_spec(src: Seq<char>) -> Result<Seq<TokenV>, ErrorView> {
    lex_spec(src, Pos { pos: 0, line: 1, col: 1 })
}

} // verus!

verus! {

// ---------------------------------------------------------------------------
// The lexer
// ---------------------------------------------------------------------------

pub fn is_digit_char(c: char) -> (b: bool)
    ensures
        b == is_digit(c),
{
    '0' <= c && c <= '9'
}

pub fn is_hex_char(c: char) -> (b: bool)
    ensures
        b == is_hex(c),
{
    ('0' <= c && c <= '9') || ('a' <= c && c <= 'f') || ('A' <= c && c <= 'F')
}

pub fn is_alpha_char(c: char) -> (b: bool)
    ensures
        b == is_alpha(c),
{
    ('a' <= c && c <= 'z') || ('A' <= c && c <= 'Z')
}

pub fn is_ident_char_exec(c: char) -> (b: bool)
    ensures
        b == is_ident_char(c),
{
    is_alpha_char(c) || is_digit_char(c) || c == '_' || c == '-'
}

/// The string of the characters `src[from..to]`.
pub fn slice_string(src: &Vec<char>, from: usize, to: usize) -> (s: String)
    requires
        from <= to <= src.len(),
    ensures
        s@ == src@.subrange(from as int, to as int),
{
    let mut s = String::new();
    let mut i = from;
    while i < to
        invariant
            from <= i <= to <= src.len(),
            s@ == src@.subrange(from as int, i as int),
        decreases to - i,
    {
        push_char(&mut s, src[i]);
        i = i + 1;
        assert(s@ =~= src@.subrange(from as int, i as int));
    }
    s
}

/// Appends the digits `src[from..to]` to the value `acc`; `None` when the
/// value does not fit in 64 bits.
pub fn accumulate(src: &Vec<char>, from: usize, to: usize, acc: u64) -> (r: Option<u64>)
    requires
        from <= to <= src.len(),
        forall|k: int| from <= k < to ==> is_digit(#[trigger] src@[k]),
    ensures
        match r {
            Some(v) => v as int == fold_digits(acc as int, src@.subrange(from as int, to as int)),
            None => fold_digits(acc as int, src@.subrange(from as int, to as int)) > u64::MAX,
        },
{
    let mut v = acc;
    let mut i = from;
    while i < to
        invariant
            from <= i <= to <= src.len(),
            forall|k: int| from <= k < to ==> is_digit(#[trigger] src@[k]),
            v as int == fold_digits(acc as int, src@.subrange(from as int, i as int)),
        decreases to - i,
    {
        let c = src[i];
        let d = (c as u32 - 48u32) as u64;
        proof {
            let next = src@.subrange(from as int, i + 1);
            assert(next.drop_last() =~= src@.subrange(from as int, i as int));
            assert(next.last() == c);
            let rest = src@.subrange(i + 1, to as int);
            assert(src@.subrange(from as int, to as int) =~= next + rest);
            lemma_fold_concat(acc as int, next, rest);
            assert forall|k: int| 0 <= k < rest.len() implies is_digit(#[trigger] rest[k]) by {
                assert(rest[k] == src@[i + 1 + k]);
            }
            lemma_fold_grows(fold_digits(acc as int, next), rest);
        }
        match v.checked_mul(10) {
            Some(v10) => match v10.checked_add(d) {
                Some(v2) => {
                    v = v2;
                },
                None => {
                    return None;
                },
            },
            None => {
                return None;
            },
        }
        i = i + 1;
    }
    Some(v)
}

/// Turns source text into tokens.
pub struct Lexer {
    source: Vec<char>,
    pos: usize,
    line: usize,
    col: usize,
}

/// The result of scanning, with the tokens viewed mathematically.
pub open spec fn prepend(p: Seq<TokenV>, r: Result<Seq<TokenV>, ErrorView>) -> Result<Seq<TokenV>, ErrorView> {
    match r {
        Ok(rest) => Ok(p + rest),
        Err(e) => Err(e),
    }
}

pub open spec fn tokens_view(ts: Seq<Token>) -> Seq<TokenV> {
    ts.map_values(|t: Token| t@)
}

impl Lexer {
    /// The source characters.
    pub closed spec fn src(&self) -> Seq<char> {
        self.source@
    }

    /// The scanning position.
    pub closed spec fn state(&self) -> Pos {
        Pos { pos: self.pos as int, line: self.line as int, col: self.col as int }
    }

    pub closed spec fn wf(&self) -> bool {
        &&& self.pos <= self.source.len()
        &&& self.source.len() < usize::MAX
        &&& 1 <= self.line <= self.pos + 1
        &&& 1 <= self.col <= self.pos + 1
    }

    pub fn new(source: &str) -> (l: Lexer)
        requires
            source@.len() < usize::MAX,
        ensures
            l.wf(),
            l.src() == source@,
            l.state() == (Pos { pos: 0, line: 1, col: 1 }),
    {
        Lexer { source: chars_of(source), pos: 0, line: 1, col: 1 }
    }

    fn is_at_end(&self) -> (b: bool)
        ensures
            b == (self.pos >= self.source.len()),
    {
        self.pos >= self.source.len()
    }

    fn peek(&self) -> (c: char)
        requires
            self.pos < self.source.len(),
        ensures
            c == self.source@[self.pos as int],
    {
        self.source[self.pos]
    }

    fn peek_next(&self) -> (r: Option<char>)
        requires
            self.wf(),
        ensures
            r == if self.pos + 1 < self.source.len() {
                Some(self.source@[self.pos + 1])
            } else {
                None::<char>
            },
    {
        if self.pos + 1 < self.source.len() {
            Some(self.source[self.pos + 1])
        } else {
            None
        }
    }

    fn next_is_digit(&self) -> (b: bool)
        requires
            self.wf(),
        ensures
            b == (self.pos + 1 < self.source.len() && is_digit(self.source@[self.pos + 1])),
    {
        match self.peek_next() {
            Some(c) => is_digit_char(c),
            None => false,
        }
    }

    fn next_is_ident_start(&self) -> (b: bool)
        requires
            self.wf(),
        ensures
            b == (self.pos + 1 < self.source.len() && is_ident_start(self.source@[self.pos + 1])),
    {
        match self.peek_next() {
            Some(c) => is_alpha_char(c) || c == '_',
            None => false,
        }
    }

    fn advance(&mut self) -> (c: char)
        requires
            old(self).wf(),
            old(self).pos < old(self).source.len(),
        ensures
            final(self).wf(),
            final(self).source == old(self).source,
            c == old(self).source@[old(self).pos as int],
            final(self).pos == old(self).pos + 1,
            final(self).col == old(self).col + 1,
            final(self).line == old(self).line,
    {
        let ch = self.source[self.pos];
        self.pos = self.pos + 1;
        self.col = self.col + 1;
        ch
    }

    fn current_span(&self, len: usize) -> (s: Span)
        ensures
            s == mk_span(sat_sub(self.pos as int, len as int), self.pos as int, self.line as int, sat_sub(self.col as int, len as int)),
    {
        Span {
            start: if self.pos >= len { self.pos - len } else { 0 },
            end: self.pos,
            line: self.line,
            col: if self.col >= len { self.col - len } else { 0 },
        }
    }

    fn skip_whitespace_and_comments(&mut self)
        requires
            old(self).wf(),
        ensures
            final(self).wf(),
            final(self).source == old(self).source,
            final(self).state() == skip_blank(old(self).src(), old(self).state()),
    {
        while !self.is_at_end()
            invariant
                self.wf(),
                self.source == old(self).source,
                skip_blank(self.src(), self.state()) == skip_blank(old(self).src(), old(self).state()),
            ensures
                self.wf(),
                self.source == old(self).source,
                skip_blank(self.src(), self.state()) == skip_blank(old(self).src(), old(self).state()),
                skip_blank(self.src(), self.state()) == self.state(),
            decreases self.source.len() - self.pos,
        {
            let ch = self.peek();
            if ch == ' ' || ch == '\t' || ch == '\r' {
                self.advance();
            } else if ch == '\n' {
                self.advance();
                self.line = self.line + 1;
                self.col = 1;
            } else if ch == '/' && self.peek_next() == Some('/') {
                let ghost p0 = self.pos as int;
                let ghost c0 = self.col as int;
                let ghost l0 = self.line as int;
                proof {
                    lemma_line_end(self.src(), p0 + 1);
                    assert(line_end(self.src(), p0) == line_end(self.src(), p0 + 1));
                }
                while !self.is_at_end() && self.peek() != '\n'
                    invariant
                        self.wf(),
                        self.source == old(self).source,
                        p0 <= self.pos,
                        p0 + 1 < self.source.len(),
                        self.source@[p0] == '/',
                        self.source@[p0 + 1] == '/',
                        line_end(self.src(), self.pos as int) == line_end(self.src(), p0 + 1),
                        self.col == c0 + (self.pos - p0),
                        self.line == l0,
                        skip_blank(old(self).src(), old(self).state()) == skip_blank(
                            self.src(),
                            Pos { pos: p0, line: l0, col: c0 },
                        ),
                    decreases self.source.len() - self.pos,
                {
                    self.advance();
                }
                proof {
                    assert(line_end(self.src(), self.pos as int) == self.pos);
                }
            } else {
                break;
            }
        }
    }

    fn single_char_token(&mut self, kind: TokenKind) -> (r: Result<Token, PastelError>)
        requires
            old(self).wf(),
            old(self).pos < old(self).source.len(),
            kind.wf(),
        ensures
            final(self).wf(),
            final(self).source == old(self).source,
            match r {
                Ok(t) => single(kind@, old(self).state()) == Ok::<(TokenV, Pos), ErrorView>((t@, final(self).state()))
                    && t.kind.wf(),
                Err(_) => false,
            },
    {
        self.advance();
        Ok(Token { kind, span: self.current_span(1) })
    }

    fn scan_color(&mut self) -> (r: Result<Token, PastelError>)
        requires
            old(self).wf(),
            old(self).pos < old(self).source.len(),
            old(self).source@[old(self).pos as int] == '#',
        ensures
            final(self).wf(),
            final(self).source == old(self).source,
            match r {
                Ok(t) => scan_color_spec(old(self).src(), old(self).state()) == Ok::<(TokenV, Pos), ErrorView>(
                    (t@, final(self).state()),
                ) && t.kind.wf(),
                Err(e) => scan_color_spec(old(self).src(), old(self).state()) == Err::<(TokenV, Pos), ErrorView>(e@),
            },
    {
        let start_line = self.line;
        let start_col = self.col;
        let start_pos = self.pos;
        self.advance();
        let mut hex: Vec<char> = Vec::new();
        proof {
            lemma_hex_end(self.src(), start_pos + 1);
        }
        while !self.is_at_end() && is_hex_char(self.peek())
            invariant
                self.wf(),
                self.source == old(self).source,
                start_pos < self.pos,
                self.line == start_line,
                self.col == start_col + (self.pos - start_pos),
                hex_end(self.src(), self.pos as int) == hex_end(self.src(), start_pos + 1),
                hex@ == self.src().subrange(start_pos + 1, self.pos as int),
            decreases self.source.len() - self.pos,
        {
            let c = self.advance();
            hex.push(c);
            proof {
                assert(hex@ =~= self.src().subrange(start_pos + 1, self.pos as int));
            }
        }
        proof {
            assert(hex_end(self.src(), self.pos as int) == self.pos);
        }
        if hex.len() != 6 && hex.len() != 8 {
            let mut msg = String::new();
            push_str(&mut msg, "color literal must be 6 or 8 hex digits, got ");
            push_nat(&mut msg, hex.len() as u64);
            push_str(&mut msg, " digits");
            let mut hint = String::new();
            push_str(&mut hint, "use #RRGGBB or #RRGGBBAA format");
            let e = PastelError::new(ErrorKind::InvalidColor, msg).with_span(
                Span { start: start_pos, end: self.pos, line: start_line, col: start_col },
            ).with_hint(hint);
            proof {
                assert(e@ == scan_color_spec(old(self).src(), old(self).state())->Err_0);
            }
            return Err(e);
        }
        let len = hex.len() + 1;
        let t = Token { kind: TokenKind::Color(string_of(&hex)), span: self.current_span(len) };
        Ok(t)
    }

    fn scan_string(&mut self) -> (r: Result<Token, PastelError>)
        requires
            old(self).wf(),
            old(self).pos < old(self).source.len(),
            old(self).source@[old(self).pos as int] == '"',
        ensures
            final(self).wf(),
            final(self).source == old(self).source,
            match r {
                Ok(t) => scan_string_spec(old(self).src(), old(self).state()) == Ok::<(TokenV, Pos), ErrorView>(
                    (t@, final(self).state()),
                ) && t.kind.wf(),
                Err(e) => scan_string_spec(old(self).src(), old(self).state()) == Err::<(TokenV, Pos), ErrorView>(e@),
            },
    {
        let start_line = self.line;
        let start_col = self.col;
        let start_pos = self.pos;
        self.advance();
        let mut value = String::new();
        while !self.is_at_end() && self.peek() != '"'
            invariant
                self.wf(),
                self.source == old(self).source,
                start_pos < self.pos,
                string_body(self.src(), start_pos + 1, start_line as int, start_col + 1, Seq::empty())
                    == string_body(self.src(), self.pos as int, self.line as int, self.col as int, value@),
            decreases self.source.len() - self.pos,
        {
            let ch = self.advance();
            if ch == '\n' {
                self.line = self.line + 1;
                self.col = 1;
            }
            let ghost before = value@;
            if ch == '\\' && !self.is_at_end() {
                let escaped = self.advance();
                if escaped == 'n' {
                    push_char(&mut value, '\n');
                } else if escaped == 't' {
                    push_char(&mut value, '\t');
                } else if escaped == '\\' {
                    push_char(&mut value, '\\');
                } else if escaped == '"' {
                    push_char(&mut value, '"');
                } else {
                    push_char(&mut value, '\\');
                    push_char(&mut value, escaped);
                }
                proof {
                    assert(value@ =~= before + unescape(escaped));
                }
            } else {
                push_char(&mut value, ch);
            }
        }
        if self.is_at_end() {
            let mut msg = String::new();
            push_str(&mut msg, "unterminated string literal");
            let mut hint = String::new();
            push_str(&mut hint, "add a closing '\"'");
            let e = PastelError::new(ErrorKind::UnterminatedString, msg).with_span(
                Span { start: start_pos, end: self.pos, line: start_line, col: start_col },
            ).with_hint(hint);
            return Err(e);
        }
        self.advance();
        let len = self.pos - start_pos;
        Ok(Token { kind: TokenKind::String(value), span: self.current_span(len) })
    }

    /// Advances over a run of decimal digits.
    fn skip_digits(&mut self)
        requires
            old(self).wf(),
        ensures
            final(self).wf(),
            final(self).source == old(self).source,
            final(self).pos == digit_end(old(self).src(), old(self).pos as int),
            old(self).pos <= final(self).pos,
            final(self).line == old(self).line,
            final(self).col == old(self).col + (final(self).pos - old(self).pos),
    {
        proof {
            lemma_digit_end(self.src(), self.pos as int);
        }
        while !self.is_at_end() && is_digit_char(self.peek())
            invariant
                self.wf(),
                self.source == old(self).source,
                old(self).pos <= self.pos,
                self.line == old(self).line,
                self.col == old(self).col + (self.pos - old(self).pos),
                digit_end(self.src(), self.pos as int) == digit_end(old(self).src(), old(self).pos as int),
            decreases self.source.len() - self.pos,
        {
            self.advance();
        }
    }

    /// Advances over a run of identifier characters.
    fn skip_ident_chars(&mut self)
        requires
            old(self).wf(),
        ensures
            final(self).wf(),
            final(self).source == old(self).source,
            final(self).pos == ident_end(old(self).src(), old(self).pos as int),
            old(self).pos <= final(self).pos,
            final(self).line == old(self).line,
            final(self).col == old(self).col + (final(self).pos - old(self).pos),
    {
        proof {
            lemma_ident_end(self.src(), self.pos as int);
        }
        while !self.is_at_end() && is_ident_char_exec(self.peek())
            invariant
                self.wf(),
                self.source == old(self).source,
                old(self).pos <= self.pos,
                self.line == old(self).line,
                self.col == old(self).col + (self.pos - old(self).pos),
                ident_end(self.src(), self.pos as int) == ident_end(old(self).src(), old(self).pos as int),
            decreases self.source.len() - self.pos,
        {
            self.advance();
        }
    }

    fn scan_number(&mut self) -> (r: Result<Token, PastelError>)
        requires
            old(self).wf(),
            old(self).pos < old(self).source.len(),
            is_digit(old(self).source@[old(self).pos as int]) || (old(self).source@[old(self).pos as int] == '-'
                && old(self).pos + 1 < old(self).source.len() && is_digit(
                old(self).source@[old(self).pos + 1],
            )),
        ensures
            final(self).wf(),
            final(self).source == old(self).source,
            match r {
                Ok(t) => scan_number_spec(old(self).src(), old(self).state()) == Ok::<(TokenV, Pos), ErrorView>(
                    (t@, final(self).state()),
                ) && t.kind.wf(),
                Err(e) => scan_number_spec(old(self).src(), old(self).state()) == Err::<(TokenV, Pos), ErrorView>(e@),
            },
    {
        let ghost src = self.src();
        let start_pos = self.pos;
        let neg = self.peek() == '-';
        if neg {
            self.advance();
        }
        let int_start = self.pos;
        self.skip_digits();
        let int_end = self.pos;
        proof {
            lemma_digit_end(src, int_start as int);
        }
        if !self.is_at_end() && self.peek() == '.' && self.next_is_digit() {
            return self.scan_fraction(start_pos, neg, int_start);
        }
        let len = self.pos - start_pos;
        let span = self.current_span(len);
        let value = accumulate(&self.source, int_start, int_end, 0);
        let fits = match value {
            Some(v) => if neg { v <= I64_LIMIT } else { v < I64_LIMIT },
            None => false,
        };
        if !fits {
            let mut msg = String::new();
            push_str(&mut msg, "invalid integer literal '");
            let text = slice_string(&self.source, start_pos, int_end);
            push_str(&mut msg, text.as_str());
            push_str(&mut msg, "'");
            let e = PastelError::new(ErrorKind::InvalidNumber, msg).with_span(span);
            proof {
                assert(e@.message =~= "invalid integer literal '"@ + src.subrange(start_pos as int, int_end as int) + "'"@);
            }
            return Err(e);
        }
        let v = match value {
            Some(v) => v,
            None => 0,
        };
        Ok(Token { kind: TokenKind::Integer(signed_i64(neg, v)), span })
    }

    /// Scans the fraction of a number literal: the lexer stands on the '.'
    /// after the integer digits.
    fn scan_fraction(&mut self, start_pos: usize, neg: bool, int_start: usize) -> (r: Result<Token, PastelError>)
        requires
            old(self).wf(),
            start_pos < old(self).source.len(),
            neg == (old(self).source@[start_pos as int] == '-'),
            int_start == if neg { start_pos + 1 } else { start_pos as int },
            old(self).pos == digit_end(old(self).src(), int_start as int),
            old(self).pos + 1 < old(self).source.len(),
            old(self).source@[old(self).pos as int] == '.',
            is_digit(old(self).source@[old(self).pos + 1]),
            old(self).col >= old(self).pos - start_pos,
        ensures
            final(self).wf(),
            final(self).source == old(self).source,
            match r {
                Ok(t) => scan_number_spec(old(self).src(), Pos { pos: start_pos as int, line: old(self).line as int, col: old(self).col - (old(self).pos - start_pos) }) == Ok::<(TokenV, Pos), ErrorView>(
                    (t@, final(self).state()),
                ) && t.kind.wf(),
                Err(e) => scan_number_spec(old(self).src(), Pos { pos: start_pos as int, line: old(self).line as int, col: old(self).col - (old(self).pos - start_pos) }) == Err::<(TokenV, Pos), ErrorView>(e@),
            },
    {
        let ghost src = self.src();
        let int_end = self.pos;
        proof {
            lemma_digit_end(src, int_start as int);
        }
        self.advance();
        let frac_start = self.pos;
        self.skip_digits();
        let frac_end = self.pos;
        proof {
            lemma_digit_end(src, frac_start as int);
        }
        let len = self.pos - start_pos;
        let span = self.current_span(len);
        let z = strip_end(&self.source, frac_start, frac_end);
        let ghost ints = src.subrange(int_start as int, int_end as int);
        let ghost kept = strip_zeros(src.subrange(frac_start as int, frac_end as int));
        proof {
            assert(kept =~= src.subrange(frac_start as int, z as int));
        }
        let value = number_value(&self.source, int_start, int_end, frac_start, z);
        let scale = z - frac_start;
        let fits = match value {
            Some(v) => scale <= 18 && (if neg { v <= I64_LIMIT } else { v < I64_LIMIT }),
            None => false,
        };
        if !fits {
            let mut msg = String::new();
            push_str(&mut msg, "invalid float literal '");
            let text = slice_string(&self.source, start_pos, frac_end);
            push_str(&mut msg, text.as_str());
            push_str(&mut msg, "'");
            let e = PastelError::new(ErrorKind::InvalidNumber, msg).with_span(span);
            proof {
                assert(e@.message =~= "invalid float literal '"@ + src.subrange(start_pos as int, frac_end as int) + "'"@);
            }
            return Err(e);
        }
        let v = match value {
            Some(v) => v,
            None => 0,
        };
        let mantissa = signed_i64(neg, v);
        proof {
            if scale > 0 {
                lemma_strip_zeros(src.subrange(frac_start as int, frac_end as int));
                assert(kept.last() == src[z - 1]);
                assert((ints + kept).subrange((ints + kept).len() - kept.len(), (ints + kept).len() as int) =~= kept);
                lemma_last_digit(ints + kept, kept);
            }
            lemma_sign_keeps_digit(neg, v as int);
        }
        let d = Decimal::from_parts(mantissa, scale as u32);
        Ok(Token { kind: TokenKind::Float(d), span })
    }

    fn scan_identifier(&mut self) -> (r: Result<Token, PastelError>)
        requires
            old(self).wf(),
            old(self).pos < old(self).source.len(),
            is_ident_start(old(self).source@[old(self).pos as int]),
        ensures
            final(self).wf(),
            final(self).source == old(self).source,
            match r {
                Ok(t) => scan_ident_spec(old(self).src(), old(self).state()) == Ok::<(TokenV, Pos), ErrorView>(
                    (t@, final(self).state()),
                ) && t.kind.wf(),
                Err(_) => false,
            },
    {
        let ghost src = self.src();
        let start_pos = self.pos;
        self.skip_ident_chars();
        let first = slice_string(&self.source, start_pos, self.pos);
        if TokenKind::keyword(first.as_str()).is_none() {
            proof {
                lemma_dots_end(src, self.pos as int);
            }
            while !self.is_at_end() && self.peek() == '.' && self.next_is_ident_start()
                invariant
                    self.wf(),
                    self.source == old(self).source,
                    start_pos <= self.pos,
                    src == self.source@,
                    self.line == old(self).line,
                    self.col == old(self).col + (self.pos - start_pos),
                    dots_end(src, self.pos as int) == dots_end(src, ident_end(src, start_pos as int)),
                decreases self.source.len() - self.pos,
            {
                let ghost j = self.pos as int;
                proof {
                    assert(dots_end(src, j) == dots_end(src, ident_end(src, j + 1)));
                }
                self.advance();
                self.skip_ident_chars();
            }
        }
        let len = self.pos - start_pos;
        let word = slice_string(&self.source, start_pos, self.pos);
        let kind = match TokenKind::keyword(word.as_str()) {
            Some(k) => k,
            None => TokenKind::Ident(word),
        };
        Ok(Token { kind, span: self.current_span(len) })
    }

    fn scan_token(&mut self) -> (r: Result<Token, PastelError>)
        requires
            old(self).wf(),
            old(self).pos < old(self).source.len(),
        ensures
            final(self).wf(),
            final(self).source == old(self).source,
            match r {
                Ok(t) => scan_spec(old(self).src(), old(self).state()) == Ok::<(TokenV, Pos), ErrorView>(
                    (t@, final(self).state()),
                ) && t.kind.wf(),
                Err(e) => scan_spec(old(self).src(), old(self).state()) == Err::<(TokenV, Pos), ErrorView>(e@),
            },
    {
        let ch = self.peek();
        if ch == '{' {
            self.single_char_token(TokenKind::LBrace)
        } else if ch == '}' {
            self.single_char_token(TokenKind::RBrace)
        } else if ch == '(' {
            self.single_char_token(TokenKind::LParen)
        } else if ch == ')' {
            self.single_char_token(TokenKind::RParen)
        } else if ch == '[' {
            self.single_char_token(TokenKind::LBracket)
        } else if ch == ']' {
            self.single_char_token(TokenKind::RBracket)
        } else if ch == '=' {
            self.single_char_token(TokenKind::Equals)
        } else if ch == ',' {
            self.single_char_token(TokenKind::Comma)
        } else if ch == '.' {
            self.single_char_token(TokenKind::Dot)
        } else if ch == '#' {
            self.scan_color()
        } else if ch == '"' {
            self.scan_string()
        } else if is_digit_char(ch) || (ch == '-' && self.next_is_digit()) {
            self.scan_number()
        } else if is_alpha_char(ch) || ch == '_' {
            self.scan_identifier()
        } else {
            let span = self.current_span(0);
            self.advance();
            let mut msg = String::new();
            push_str(&mut msg, "unexpected character '");
            push_char(&mut msg, ch);
            push_str(&mut msg, "'");
            let e = PastelError::new(ErrorKind::UnexpectedChar, msg).with_span(span);
            proof {
                assert(e@.message =~= "unexpected character '"@ + seq![ch] + "'"@);
            }
            Err(e)
        }
    }

    /// Scans the whole source: its tokens, ending with `Eof`, or the first
    /// error.
    pub fn tokenize(&mut self) -> (r: Result<Vec<Token>, PastelError>)
        requires
            old(self).wf(),
        ensures
            match r {
                Ok(ts) => lex_spec(old(self).src(), old(self).state()) == Ok::<Seq<TokenV>, ErrorView>(tokens_view(ts@))
                    && (forall|i: int| 0 <= i < ts.len() ==> (#[trigger] ts@[i]).kind.wf())
                    && ts.len() > 0 && ts@.last().kind == TokenKind::Eof,
                Err(e) => lex_spec(old(self).src(), old(self).state()) == Err::<Seq<TokenV>, ErrorView>(e@),
            },
    {
        let mut tokens: Vec<Token> = Vec::new();
        loop
            invariant
                self.wf(),
                self.source == old(self).source,
                old(self).pos <= self.pos,
                lex_spec(old(self).src(), old(self).state()) == prepend(tokens_view(tokens@), lex_spec(self.src(), self.state())),
                forall|i: int| 0 <= i < tokens.len() ==> (#[trigger] tokens@[i]).kind.wf(),
            decreases self.source.len() - self.pos,
        {
            let ghost st0 = self.state();
            self.skip_whitespace_and_comments();
            proof {
                lemma_skip_blank(self.src(), st0);
            }
            if self.is_at_end() {
                let t = Token { kind: TokenKind::Eof, span: self.current_span(0) };
                let ghost before = tokens@;
                tokens.push(t);
                proof {
                    assert(tokens_view(tokens@) =~= tokens_view(before) + seq![t@]);
                }
                return Ok(tokens);
            }
            proof {
                lemma_scan_advances(self.src(), self.state());
            }
            let token = match self.scan_token() {
                Ok(t) => t,
                Err(e) => {
                    return Err(e);
                },
            };
            let ghost before = tokens@;
            tokens.push(token);
            proof {
                assert(tokens_view(tokens@) =~= tokens_view(before) + seq![token@]);
                let rest = lex_spec(self.src(), self.state());
                match rest {
                    Ok(r) => {
                        assert(tokens_view(before) + (seq![token@] + r) =~= tokens_view(tokens@) + r);
                    },
                    Err(_) => {},
                }
            }
        }
    }
}

/// The signed integer of a sign and a magnitude that fits.
pub fn signed_i64(neg: bool, v: u64) -> (n: i64)
    requires
        signed_fits(neg, v as int),
    ensures
        n as int == signed(neg, v as int),
{
    if neg {
        if v == I64_LIMIT { i64::MIN } else { -(v as i64) }
    } else {
        v as i64
    }
}

/// The end of the digits `src[from..to]` once their trailing zeros are dropped.
pub fn strip_end(src: &Vec<char>, from: usize, to: usize) -> (z: usize)
    requires
        from <= to <= src.len(),
    ensures
        from <= z <= to,
        strip_zeros(src@.subrange(from as int, to as int)) =~= src@.subrange(from as int, z as int),
{
    let mut z = to;
    while z > from && src[z - 1] == '0'
        invariant
            from <= z <= to <= src.len(),
            strip_zeros(src@.subrange(from as int, z as int)) == strip_zeros(src@.subrange(from as int, to as int)),
        decreases z,
    {
        proof {
            assert(src@.subrange(from as int, z as int).drop_last() =~= src@.subrange(from as int, z - 1));
        }
        z = z - 1;
    }
    z
}

/// The value of the digits `src[a..b]` followed by `src[c..d]`, if it fits
/// in 64 bits.
pub fn number_value(src: &Vec<char>, a: usize, b: usize, c: usize, d: usize) -> (r: Option<u64>)
    requires
        a <= b <= src.len(),
        c <= d <= src.len(),
        forall|k: int| a <= k < b ==> is_digit(#[trigger] src@[k]),
        forall|k: int| c <= k < d ==> is_digit(#[trigger] src@[k]),
    ensures
        match r {
            Some(v) => v as int == fold_digits(0, src@.subrange(a as int, b as int) + src@.subrange(c as int, d as int)),
            None => fold_digits(0, src@.subrange(a as int, b as int) + src@.subrange(c as int, d as int)) > u64::MAX,
        },
{
    let ghost x = src@.subrange(a as int, b as int);
    let ghost y = src@.subrange(c as int, d as int);
    proof {
        lemma_fold_concat(0, x, y);
    }
    match accumulate(src, a, b, 0) {
        Some(v) => accumulate(src, c, d, v),
        None => {
            proof {
                assert forall|k: int| 0 <= k < y.len() implies is_digit(#[trigger] y[k]) by {
                    assert(y[k] == src@[c + k]);
                }
                lemma_fold_grows(fold_digits(0, x), y);
            }
            None
        },
    }
}

pub proof fn lemma_last_digit(all: Seq<char>, kept: Seq<char>)
    requires
        kept.len() > 0,
        all.len() >= kept.len(),
        all.subrange(all.len() - kept.len(), all.len() as int) =~= kept,
        kept.last() != '0',
        is_digit(kept.last()),
    ensures
        fold_digits(0, all) % 10 != 0,
{
    assert(all.last() == kept.last());
    let q = fold_digits(0, all.drop_last());
    let d = digit_val(all.last());
    assert(1 <= d <= 9);
    assert(fold_digits(0, all) == q * 10 + d);
    assert((q * 10 + d) % 10 != 0) by (nonlinear_arith)
        requires 1 <= d <= 9;
}

pub proof fn lemma_sign_keeps_digit(neg: bool, m: int)
    ensures
        m % 10 != 0 ==> signed(neg, m) % 10 != 0,
{
    if neg && m % 10 != 0 {
        assert((-m) % 10 != 0) by (nonlinear_arith)
            requires m % 10 != 0;
    }
}

} // verus!