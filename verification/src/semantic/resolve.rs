use vstd::prelude::*;

use crate::ast::{expr_view, Expr, Expression};
use crate::error::{err_view, ErrorKind, ErrorView, PastelError};
use crate::expr::{expr_debug, lemma_exprs_view_len, push_expr_debug};
use crate::ir::style::{
    color_of_hex, Align, Color, CornerRadius, Dimension, FontWeight, LayoutMode,
    Padding, Shadow, Stroke, TextAlign,
};
use crate::ir::extra::font_weight_of;
use crate::number::{decimal_of, trunc, Decimal};
use crate::text::{owned, push_str, str_eq};
use super::vars::{resolved, VariableResolver};

verus! {

// ---------------------------------------------------------------------------
// Typed values of resolved expressions
// ---------------------------------------------------------------------------

pub open spec fn type_err(message: Seq<char>) -> ErrorView {
    err_view(ErrorKind::TypeMismatch, message)
}

pub open spec fn value_err(message: Seq<char>) -> ErrorView {
    err_view(ErrorKind::InvalidValue, message)
}

pub open spec fn hinted(e: ErrorView, hint: Seq<char>) -> ErrorView {
    ErrorView { hint: Some(hint), ..e }
}

/// "PREFIX 'WORD'".
pub open spec fn unknown(prefix: Seq<char>, word: Seq<char>) -> Seq<char> {
    prefix + " '"@ + word + "'"@
}

/// A whole number as a decimal.
pub open spec fn int_decimal(n: int) -> Decimal {
    decimal_of(n, 0)
}

/// A result with the error taken by its view.
pub open spec fn rv<T>(r: Result<T, PastelError>) -> Result<T, ErrorView> {
    match r {
        Ok(v) => Ok(v),
        Err(e) => Err(e@),
    }
}

/// A text result with the text taken by its view.
pub open spec fn rv_text(r: Result<String, PastelError>) -> Result<Seq<char>, ErrorView> {
    match r {
        Ok(v) => Ok(v@),
        Err(e) => Err(e@),
    }
}

/// The number an expression holds.
pub open spec fn number_of(r: Expr) -> Result<Decimal, ErrorView> {
    match r {
        Expr::Integer(n) => Ok(int_decimal(n)),
        Expr::Float(d) => Ok(d),
        _ => Err(type_err("expected number, got "@ + expr_debug(r))),
    }
}

/// A non-negative number as a 32-bit count: whole numbers wrap modulo 2^32,
/// fractions are cut toward zero and saturate.
pub open spec fn count_of(r: Expr) -> Result<u32, ErrorView> {
    let e = type_err("expected positive integer, got "@ + expr_debug(r));
    match r {
        Expr::Integer(n) => if n >= 0 { Ok((n % 4294967296) as u32) } else { Err(e) },
        Expr::Float(d) => if d.mant() >= 0 {
            Ok(if trunc(d) > u32::MAX { u32::MAX } else { trunc(d) as u32 })
        } else {
            Err(e)
        },
        _ => Err(e),
    }
}

/// The text of a string or of an identifier.
pub open spec fn text_of(r: Expr) -> Result<Seq<char>, ErrorView> {
    match r {
        Expr::Str(s) => Ok(s),
        Expr::Ident(s) => Ok(s),
        _ => Err(type_err("expected string, got "@ + expr_debug(r))),
    }
}

/// The color of a color literal, or of the word `transparent`.
pub open spec fn color_value(r: Expr) -> Result<Color, ErrorView> {
    match r {
        Expr::Color(hex) => match color_of_hex(hex) {
            Some(c) => Ok(c),
            None => Err(value_err("invalid color: #"@ + hex)),
        },
        Expr::Ident(s) => if s == "transparent"@ {
            Ok(Color { r: 0, g: 0, b: 0, a: 0 })
        } else {
            Err(type_err("expected color, got "@ + expr_debug(r)))
        },
        _ => Err(type_err("expected color, got "@ + expr_debug(r))),
    }
}

/// A size: a number, `fill` or `hug`.
pub open spec fn dimension_of(r: Expr) -> Result<Dimension, ErrorView> {
    match r {
        Expr::Integer(n) => Ok(Dimension::Fixed(int_decimal(n))),
        Expr::Float(d) => Ok(Dimension::Fixed(d)),
        Expr::Ident(s) => if s == "fill"@ {
            Ok(Dimension::Fill)
        } else if s == "hug"@ {
            Ok(Dimension::Hug)
        } else {
            Err(hinted(value_err(unknown("unknown dimension"@, s)), "expected a number, 'fill', or 'hug'"@))
        },
        _ => Err(type_err("expected dimension, got "@ + expr_debug(r))),
    }
}

pub open spec fn f64_spec(b: Seq<(Seq<char>, Expr)>, e: Expr) -> Result<Decimal, ErrorView> {
    number_of(resolved(b, e))
}

pub open spec fn u32_spec(b: Seq<(Seq<char>, Expr)>, e: Expr) -> Result<u32, ErrorView> {
    count_of(resolved(b, e))
}

pub open spec fn string_spec(b: Seq<(Seq<char>, Expr)>, e: Expr) -> Result<Seq<char>, ErrorView> {
    text_of(resolved(b, e))
}

pub open spec fn color_spec(b: Seq<(Seq<char>, Expr)>, e: Expr) -> Result<Color, ErrorView> {
    color_value(resolved(b, e))
}

pub open spec fn dimension_spec(b: Seq<(Seq<char>, Expr)>, e: Expr) -> Result<Dimension, ErrorView> {
    dimension_of(resolved(b, e))
}

/// `[width, color]`.
pub open spec fn stroke_spec(b: Seq<(Seq<char>, Expr)>, e: Expr) -> Result<Stroke, ErrorView> {
    let r = resolved(b, e);
    if r is Array && r->Array_0.len() == 2 {
        let items = r->Array_0;
        match f64_spec(b, items[0]) {
            Err(x) => Err(x),
            Ok(w) => match color_spec(b, items[1]) {
                Err(x) => Err(x),
                Ok(c) => Ok(Stroke { width: w, color: c, dash: None }),
            },
        }
    } else {
        Err(hinted(type_err("expected stroke as [width, color]"@), "e.g. stroke = [1, #DDDDDD]"@))
    }
}

/// The numbers of the first `n` items, in order, or the first error.
pub open spec fn numbers_spec(b: Seq<(Seq<char>, Expr)>, items: Seq<Expr>, n: nat) -> Result<Seq<Decimal>, ErrorView>
    decreases n,
{
    if n == 0 {
        Ok(Seq::empty())
    } else {
        match numbers_spec(b, items, (n - 1) as nat) {
            Err(x) => Err(x),
            Ok(vs) => match f64_spec(b, items[n - 1]) {
                Err(x) => Err(x),
                Ok(v) => Ok(vs.push(v)),
            },
        }
    }
}

/// Once an item fails, the list fails with its error.
pub proof fn lemma_numbers_err(b: Seq<(Seq<char>, Expr)>, items: Seq<Expr>, k: nat, m: nat)
    requires
        k <= m,
        numbers_spec(b, items, k) is Err,
    ensures
        numbers_spec(b, items, m) == numbers_spec(b, items, k),
    decreases m,
{
    if m > k {
        lemma_numbers_err(b, items, k, (m - 1) as nat);
    }
}

/// Padding as top, right, bottom, left: one number for all sides, or an
/// array of 1, 2 or 4 numbers.
pub open spec fn padding_spec(b: Seq<(Seq<char>, Expr)>, e: Expr) -> Result<Seq<Decimal>, ErrorView> {
    let r = resolved(b, e);
    match r {
        Expr::Array(items) => if items.len() == 1 {
            match numbers_spec(b, items, 1) {
                Err(x) => Err(x),
                Ok(vs) => Ok(seq![vs[0], vs[0], vs[0], vs[0]]),
            }
        } else if items.len() == 2 {
            match numbers_spec(b, items, 2) {
                Err(x) => Err(x),
                Ok(vs) => Ok(seq![vs[0], vs[1], vs[0], vs[1]]),
            }
        } else if items.len() == 4 {
            numbers_spec(b, items, 4)
        } else {
            Err(value_err("padding must have 1, 2, or 4 values"@))
        },
        Expr::Integer(_) | Expr::Float(_) => match f64_spec(b, r) {
            Err(x) => Err(x),
            Ok(v) => Ok(seq![v, v, v, v]),
        },
        _ => Err(type_err("expected padding as number or array"@)),
    }
}

/// Corner radii: one number for all corners, or four.
pub open spec fn corners_spec(b: Seq<(Seq<char>, Expr)>, e: Expr) -> Result<Seq<Decimal>, ErrorView> {
    let r = resolved(b, e);
    match r {
        Expr::Integer(_) | Expr::Float(_) => match f64_spec(b, r) {
            Err(x) => Err(x),
            Ok(v) => Ok(seq![v, v, v, v]),
        },
        Expr::Array(items) => if items.len() == 4 {
            numbers_spec(b, items, 4)
        } else {
            Err(type_err("expected radius as number or [tl, tr, br, bl]"@))
        },
        _ => Err(type_err("expected radius as number or [tl, tr, br, bl]"@)),
    }
}

/// `[x, y, blur, color]`.
pub open spec fn shadow_spec(b: Seq<(Seq<char>, Expr)>, e: Expr) -> Result<Shadow, ErrorView> {
    let r = resolved(b, e);
    if r is Array && r->Array_0.len() == 4 {
        let items = r->Array_0;
        match numbers_spec(b, items, 3) {
            Err(x) => Err(x),
            Ok(vs) => match color_spec(b, items[3]) {
                Err(x) => Err(x),
                Ok(c) => Ok(Shadow { x: vs[0], y: vs[1], blur: vs[2], color: c }),
            },
        }
    } else {
        Err(hinted(type_err("expected shadow as [x, y, blur, color]"@), "e.g. shadow = [0, 2, 8, #00000012]"@))
    }
}

/// A word of the value, looked up by `of`; an unknown word is an error
/// "PREFIX 'word'" with the hint, if any.
pub open spec fn keyword_spec<T>(
    b: Seq<(Seq<char>, Expr)>,
    e: Expr,
    of: spec_fn(Seq<char>) -> Option<T>,
    prefix: Seq<char>,
    hint: Option<Seq<char>>,
) -> Result<T, ErrorView> {
    match string_spec(b, e) {
        Err(x) => Err(x),
        Ok(s) => match of(s) {
            Some(v) => Ok(v),
            None => Err(ErrorView { hint, ..value_err(unknown(prefix, s)) }),
        },
    }
}

pub open spec fn weight_hint() -> Seq<char> {
    "expected: thin, light, normal, medium, semibold, bold, extrabold, black"@
}

pub open spec fn text_align_of(s: Seq<char>) -> Option<TextAlign> {
    if s == "left"@ {
        Some(TextAlign::Left)
    } else if s == "center"@ {
        Some(TextAlign::Center)
    } else if s == "right"@ {
        Some(TextAlign::Right)
    } else {
        None
    }
}

pub open spec fn layout_mode_of(s: Seq<char>) -> Option<LayoutMode> {
    if s == "horizontal"@ {
        Some(LayoutMode::Horizontal)
    } else if s == "vertical"@ {
        Some(LayoutMode::Vertical)
    } else if s == "grid"@ {
        Some(LayoutMode::Grid)
    } else {
        None
    }
}

pub open spec fn align_of(s: Seq<char>) -> Option<Align> {
    if s == "start"@ {
        Some(Align::Start)
    } else if s == "center"@ {
        Some(Align::Center)
    } else if s == "end"@ {
        Some(Align::End)
    } else if s == "stretch"@ {
        Some(Align::Stretch)
    } else {
        None
    }
}

pub open spec fn font_weight_spec(b: Seq<(Seq<char>, Expr)>, e: Expr) -> Result<FontWeight, ErrorView> {
    keyword_spec(b, e, |s: Seq<char>| font_weight_of(s), "unknown font weight"@, Some(weight_hint()))
}

pub open spec fn text_align_spec(b: Seq<(Seq<char>, Expr)>, e: Expr) -> Result<TextAlign, ErrorView> {
    keyword_spec(b, e, |s: Seq<char>| text_align_of(s), "unknown text align"@, None)
}

pub open spec fn layout_mode_spec(b: Seq<(Seq<char>, Expr)>, e: Expr) -> Result<LayoutMode, ErrorView> {
    keyword_spec(b, e, |s: Seq<char>| layout_mode_of(s), "unknown layout mode"@, None)
}

pub open spec fn align_spec(b: Seq<(Seq<char>, Expr)>, e: Expr) -> Result<Align, ErrorView> {
    keyword_spec(b, e, |s: Seq<char>| align_of(s), "unknown align"@, None)
}

/// "PREFIX" followed by the `Debug` text of an expression.
pub fn got(prefix: &str, r: &Expression) -> (m: String)
    ensures
        m@ == prefix@ + expr_debug(expr_view(*r)),
{
    let mut m = String::new();
    push_str(&mut m, prefix);
    push_expr_debug(&mut m, r);
    m
}

/// "PREFIX 'WORD'".
pub fn unknown_msg(prefix: &str, word: &str) -> (m: String)
    ensures
        m@ == unknown(prefix@, word@),
{
    let mut m = String::new();
    push_str(&mut m, prefix);
    push_str(&mut m, " '");
    push_str(&mut m, word);
    push_str(&mut m, "'");
    m
}

/// Converts resolved expressions into typed IR values.
pub struct PropertyResolver<'a> {
    pub vars: &'a VariableResolver,
}

impl<'a> PropertyResolver<'a> {
    /// The bindings that values are resolved against.
    pub open spec fn bindings(&self) -> Seq<(Seq<char>, Expr)> {
        self.vars.bindings()
    }

    pub fn new(vars: &'a VariableResolver) -> (p: PropertyResolver<'a>)
        ensures
            p.bindings() == vars.bindings(),
    {
        PropertyResolver { vars }
    }

    pub fn resolve_f64(&self, expr: &Expression) -> (r: Result<Decimal, PastelError>)
        ensures
            rv(r) == f64_spec(self.bindings(), expr_view(*expr)),
    {
        let r = self.vars.resolve(expr);
        match &r {
            Expression::Integer(n) => Ok(Decimal::from_int(*n)),
            Expression::Float(d) => Ok(*d),
            _ => Err(PastelError::new(ErrorKind::TypeMismatch, got("expected number, got ", &r))),
        }
    }

    pub fn resolve_u32(&self, expr: &Expression) -> (r: Result<u32, PastelError>)
        ensures
            rv(r) == u32_spec(self.bindings(), expr_view(*expr)),
    {
        let r = self.vars.resolve(expr);
        match &r {
            Expression::Integer(n) => {
                if *n >= 0 {
                    let v: u64 = (*n as u64) % 4294967296;
                    return Ok(v as u32);
                }
            },
            Expression::Float(d) => {
                if d.is_nonnegative() {
                    let t = d.truncate();
                    if t > 4294967295 {
                        return Ok(u32::MAX);
                    } else {
                        return Ok(t as u32);
                    }
                }
            },
            _ => {},
        }
        Err(PastelError::new(ErrorKind::TypeMismatch, got("expected positive integer, got ", &r)))
    }

    pub fn resolve_string(&self, expr: &Expression) -> (r: Result<String, PastelError>)
        ensures
            rv_text(r) == string_spec(self.bindings(), expr_view(*expr)),
    {
        let r = self.vars.resolve(expr);
        match r {
            Expression::String(s) => Ok(s),
            Expression::Ident(s) => Ok(s),
            _ => Err(PastelError::new(ErrorKind::TypeMismatch, got("expected string, got ", &r))),
        }
    }

    pub fn resolve_color(&self, expr: &Expression) -> (r: Result<Color, PastelError>)
        ensures
            rv(r) == color_spec(self.bindings(), expr_view(*expr)),
    {
        let r = self.vars.resolve(expr);
        match &r {
            Expression::Color(hex) => match Color::from_hex(hex.as_str()) {
                Some(c) => Ok(c),
                None => {
                    let mut m = String::new();
                    push_str(&mut m, "invalid color: #");
                    push_str(&mut m, hex.as_str());
                    Err(PastelError::new(ErrorKind::InvalidValue, m))
                },
            },
            Expression::Ident(s) => {
                if str_eq(s.as_str(), "transparent") {
                    Ok(Color::transparent())
                } else {
                    Err(PastelError::new(ErrorKind::TypeMismatch, got("expected color, got ", &r)))
                }
            },
            _ => Err(PastelError::new(ErrorKind::TypeMismatch, got("expected color, got ", &r))),
        }
    }

    pub fn resolve_dimension(&self, expr: &Expression) -> (r: Result<Dimension, PastelError>)
        ensures
            rv(r) == dimension_spec(self.bindings(), expr_view(*expr)),
    {
        let r = self.vars.resolve(expr);
        match &r {
            Expression::Integer(n) => Ok(Dimension::Fixed(Decimal::from_int(*n))),
            Expression::Float(d) => Ok(Dimension::Fixed(*d)),
            Expression::Ident(s) => {
                if str_eq(s.as_str(), "fill") {
                    Ok(Dimension::Fill)
                } else if str_eq(s.as_str(), "hug") {
                    Ok(Dimension::Hug)
                } else {
                    Err(
                        PastelError::new(ErrorKind::InvalidValue, unknown_msg("unknown dimension", s.as_str())).with_hint(
                            owned("expected a number, 'fill', or 'hug'"),
                        ),
                    )
                }
            },
            _ => Err(PastelError::new(ErrorKind::TypeMismatch, got("expected dimension, got ", &r))),
        }
    }

    /// The numbers of the first `n` items, in order.
    pub(crate) fn resolve_numbers(&self, items: &Vec<Expression>, n: usize) -> (r: Result<Vec<Decimal>, PastelError>)
        requires
            n <= items.len(),
        ensures
            match r {
                Ok(vs) => numbers_spec(self.bindings(), crate::ast::exprs_view(items@), n as nat) == Ok::<Seq<Decimal>, ErrorView>(vs@)
                    && vs.len() == n,
                Err(e) => numbers_spec(self.bindings(), crate::ast::exprs_view(items@), n as nat) == Err::<Seq<Decimal>, ErrorView>(e@),
            },
    {
        proof {
            lemma_exprs_view_len(items@);
        }
        let mut vs: Vec<Decimal> = Vec::new();
        let mut i: usize = 0;
        while i < n
            invariant
                i <= n <= items.len(),
                crate::ast::exprs_view(items@).len() == items.len(),
                forall|k: int| 0 <= k < items.len() ==> #[trigger] crate::ast::exprs_view(items@)[k] == expr_view(items@[k]),
                numbers_spec(self.bindings(), crate::ast::exprs_view(items@), i as nat) == Ok::<Seq<Decimal>, ErrorView>(vs@),
                vs.len() == i,
            decreases n - i,
        {
            let v = match self.resolve_f64(&items[i]) {
                Ok(v) => v,
                Err(e) => {
                    proof {
                        lemma_numbers_err(self.bindings(), crate::ast::exprs_view(items@), (i + 1) as nat, n as nat);
                    }
                    return Err(e);
                },
            };
            vs.push(v);
            i = i + 1;
        }
        Ok(vs)
    }

    pub fn resolve_stroke(&self, expr: &Expression) -> (r: Result<Stroke, PastelError>)
        ensures
            rv(r) == stroke_spec(self.bindings(), expr_view(*expr)),
    {
        let r = self.vars.resolve(expr);
        match &r {
            Expression::Array(items) => {
                proof {
                    lemma_exprs_view_len(items@);
                }
                if items.len() == 2 {
                    let width = match self.resolve_f64(&items[0]) {
                        Ok(w) => w,
                        Err(e) => {
                            return Err(e);
                        },
                    };
                    let color = match self.resolve_color(&items[1]) {
                        Ok(c) => c,
                        Err(e) => {
                            return Err(e);
                        },
                    };
                    return Ok(Stroke { width, color, dash: None });
                }
            },
            _ => {},
        }
        Err(
            PastelError::new(ErrorKind::TypeMismatch, owned("expected stroke as [width, color]")).with_hint(
                owned("e.g. stroke = [1, #DDDDDD]"),
            ),
        )
    }

    pub fn resolve_padding(&self, expr: &Expression) -> (r: Result<Padding, PastelError>)
        ensures
            match r {
                Ok(p) => padding_spec(self.bindings(), expr_view(*expr)) == Ok::<Seq<Decimal>, ErrorView>(p.0@),
                Err(e) => padding_spec(self.bindings(), expr_view(*expr)) == Err::<Seq<Decimal>, ErrorView>(e@),
            },
    {
        let r = self.vars.resolve(expr);
        match &r {
            Expression::Array(items) => {
                proof {
                    lemma_exprs_view_len(items@);
                }
                if items.len() == 1 {
                    let vs = match self.resolve_numbers(items, 1) {
                        Ok(vs) => vs,
                        Err(e) => {
                            return Err(e);
                        },
                    };
                    let v = vs[0];
                    let p = Padding([v, v, v, v]);
                    proof {
                        assert(p.0@ =~= seq![v, v, v, v]);
                    }
                    Ok(p)
                } else if items.len() == 2 {
                    let vs = match self.resolve_numbers(items, 2) {
                        Ok(vs) => vs,
                        Err(e) => {
                            return Err(e);
                        },
                    };
                    let p = Padding([vs[0], vs[1], vs[0], vs[1]]);
                    proof {
                        assert(p.0@ =~= seq![vs@[0], vs@[1], vs@[0], vs@[1]]);
                    }
                    Ok(p)
                } else if items.len() == 4 {
                    let vs = match self.resolve_numbers(items, 4) {
                        Ok(vs) => vs,
                        Err(e) => {
                            return Err(e);
                        },
                    };
                    let p = Padding([vs[0], vs[1], vs[2], vs[3]]);
                    proof {
                        assert(p.0@ =~= vs@);
                    }
                    Ok(p)
                } else {
                    Err(PastelError::new(ErrorKind::InvalidValue, owned("padding must have 1, 2, or 4 values")))
                }
            },
            Expression::Integer(_) | Expression::Float(_) => {
                let v = match self.resolve_f64(&r) {
                    Ok(v) => v,
                    Err(e) => {
                        return Err(e);
                    },
                };
                let p = Padding([v, v, v, v]);
                proof {
                    assert(p.0@ =~= seq![v, v, v, v]);
                }
                Ok(p)
            },
            _ => Err(PastelError::new(ErrorKind::TypeMismatch, owned("expected padding as number or array"))),
        }
    }

    pub fn resolve_corners(&self, expr: &Expression) -> (r: Result<CornerRadius, PastelError>)
        ensures
            match r {
                Ok(c) => corners_spec(self.bindings(), expr_view(*expr)) == Ok::<Seq<Decimal>, ErrorView>(c.0@),
                Err(e) => corners_spec(self.bindings(), expr_view(*expr)) == Err::<Seq<Decimal>, ErrorView>(e@),
            },
    {
        let r = self.vars.resolve(expr);
        match &r {
            Expression::Integer(_) | Expression::Float(_) => {
                let v = match self.resolve_f64(&r) {
                    Ok(v) => v,
                    Err(e) => {
                        return Err(e);
                    },
                };
                let c = CornerRadius([v, v, v, v]);
                proof {
                    assert(c.0@ =~= seq![v, v, v, v]);
                }
                Ok(c)
            },
            Expression::Array(items) => {
                proof {
                    lemma_exprs_view_len(items@);
                }
                if items.len() == 4 {
                    let vs = match self.resolve_numbers(items, 4) {
                        Ok(vs) => vs,
                        Err(e) => {
                            return Err(e);
                        },
                    };
                    let c = CornerRadius([vs[0], vs[1], vs[2], vs[3]]);
                    proof {
                        assert(c.0@ =~= vs@);
                    }
                    Ok(c)
                } else {
                    Err(PastelError::new(ErrorKind::TypeMismatch, owned("expected radius as number or [tl, tr, br, bl]")))
                }
            },
            _ => Err(PastelError::new(ErrorKind::TypeMismatch, owned("expected radius as number or [tl, tr, br, bl]"))),
        }
    }

    pub fn resolve_shadow(&self, expr: &Expression) -> (r: Result<Shadow, PastelError>)
        ensures
            rv(r) == shadow_spec(self.bindings(), expr_view(*expr)),
    {
        let r = self.vars.resolve(expr);
        match &r {
            Expression::Array(items) => {
                proof {
                    lemma_exprs_view_len(items@);
                }
                if items.len() == 4 {
                    let vs = match self.resolve_numbers(items, 3) {
                        Ok(vs) => vs,
                        Err(e) => {
                            return Err(e);
                        },
                    };
                    let color = match self.resolve_color(&items[3]) {
                        Ok(c) => c,
                        Err(e) => {
                            return Err(e);
                        },
                    };
                    return Ok(Shadow { x: vs[0], y: vs[1], blur: vs[2], color });
                }
            },
            _ => {},
        }
        Err(
            PastelError::new(ErrorKind::TypeMismatch, owned("expected shadow as [x, y, blur, color]")).with_hint(
                owned("e.g. shadow = [0, 2, 8, #00000012]"),
            ),
        )
    }

    pub fn resolve_font_weight(&self, expr: &Expression) -> (r: Result<FontWeight, PastelError>)
        ensures
            rv(r) == font_weight_spec(self.bindings(), expr_view(*expr)),
    {
        let s = match self.resolve_string(expr) {
            Ok(s) => s,
            Err(e) => {
                return Err(e);
            },
        };
        match FontWeight::from_str(s.as_str()) {
            Some(w) => Ok(w),
            None => Err(
                PastelError::new(ErrorKind::InvalidValue, unknown_msg("unknown font weight", s.as_str())).with_hint(
                    owned("expected: thin, light, normal, medium, semibold, bold, extrabold, black"),
                ),
            ),
        }
    }

    pub fn resolve_text_align(&self, expr: &Expression) -> (r: Result<TextAlign, PastelError>)
        ensures
            rv(r) == text_align_spec(self.bindings(), expr_view(*expr)),
    {
        let s = match self.resolve_string(expr) {
            Ok(s) => s,
            Err(e) => {
                return Err(e);
            },
        };
        let t = s.as_str();
        if str_eq(t, "left") {
            Ok(TextAlign::Left)
        } else if str_eq(t, "center") {
            Ok(TextAlign::Center)
        } else if str_eq(t, "right") {
            Ok(TextAlign::Right)
        } else {
            Err(PastelError::new(ErrorKind::InvalidValue, unknown_msg("unknown text align", t)))
        }
    }

    pub fn resolve_layout_mode(&self, expr: &Expression) -> (r: Result<LayoutMode, PastelError>)
        ensures
            rv(r) == layout_mode_spec(self.bindings(), expr_view(*expr)),
    {
        let s = match self.resolve_string(expr) {
            Ok(s) => s,
            Err(e) => {
                return Err(e);
            },
        };
        let t = s.as_str();
        if str_eq(t, "horizontal") {
            Ok(LayoutMode::Horizontal)
        } else if str_eq(t, "vertical") {
            Ok(LayoutMode::Vertical)
        } else if str_eq(t, "grid") {
            Ok(LayoutMode::Grid)
        } else {
            Err(PastelError::new(ErrorKind::InvalidValue, unknown_msg("unknown layout mode", t)))
        }
    }

    pub fn resolve_align(&self, expr: &Expression) -> (r: Result<Align, PastelError>)
        ensures
            rv(r) == align_spec(self.bindings(), expr_view(*expr)),
    {
        let s = match self.resolve_string(expr) {
            Ok(s) => s,
            Err(e) => {
                return Err(e);
            },
        };
        let t = s.as_str();
        if str_eq(t, "start") {
            Ok(Align::Start)
        } else if str_eq(t, "center") {
            Ok(Align::Center)
        } else if str_eq(t, "end") {
            Ok(Align::End)
        } else if str_eq(t, "stretch") {
            Ok(Align::Stretch)
        } else {
            Err(PastelError::new(ErrorKind::InvalidValue, unknown_msg("unknown align", t)))
        }
    }
}

/// A `text align` value resolves to the alignment its text names, the word
/// that the HTML output writes for it (`left`, `center`, `right`), and a
/// text resolves to an alignment only when it is that alignment's word.
pub proof fn law_text_align_is_the_named_one(b: Seq<(Seq<char>, Expr)>, e: Expr, a: TextAlign)
    ensures
        string_spec(b, e) == Ok::<Seq<char>, ErrorView>(crate::codegen::html::text_align_word(a))
            ==> text_align_spec(b, e) == Ok::<TextAlign, ErrorView>(a),
        text_align_spec(b, e) == Ok::<TextAlign, ErrorView>(a)
            ==> string_spec(b, e) == Ok::<Seq<char>, ErrorView>(crate::codegen::html::text_align_word(a)),
{
    reveal_strlit("left");
    reveal_strlit("center");
    reveal_strlit("right");
    assert("left"@.len() == 4 && "center"@.len() == 6 && "right"@.len() == 5);
}

/// A `layout` value resolves to the mode its text names, the word the plan
/// writes for it, and only that word resolves to that mode.
pub proof fn law_layout_mode_is_the_named_one(b: Seq<(Seq<char>, Expr)>, e: Expr, m: LayoutMode)
    ensures
        string_spec(b, e) == Ok::<Seq<char>, ErrorView>(crate::summary::mode_word(m))
            ==> layout_mode_spec(b, e) == Ok::<LayoutMode, ErrorView>(m),
        layout_mode_spec(b, e) == Ok::<LayoutMode, ErrorView>(m)
            ==> string_spec(b, e) == Ok::<Seq<char>, ErrorView>(crate::summary::mode_word(m)),
{
    reveal_strlit("horizontal");
    reveal_strlit("vertical");
    reveal_strlit("grid");
    assert("horizontal"@.len() == 10 && "vertical"@.len() == 8 && "grid"@.len() == 4);
}

} // verus!
