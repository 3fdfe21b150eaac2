use vstd::prelude::*;

use crate::ast::{expr_view, Expr, Expression};
use crate::error::{ErrorKind, ErrorView, PastelError};
use crate::expr::{expr_debug, lemma_exprs_view_len};
use crate::ir::style::{
    BlendMode, ImageFit, Justify, PositionMode, TextDecoration, TextTransform,
};
use crate::number::Decimal;
use crate::text::{owned, push_str, str_eq};
use super::resolve::{
    got, hinted, keyword_spec, numbers_spec, rv, type_err, unknown_msg, PropertyResolver,
};
use super::vars::resolved;

verus! {

/// Whether an expression resolves to a number.
pub open spec fn is_number_spec(b: Seq<(Seq<char>, Expr)>, e: Expr) -> bool {
    let r = resolved(b, e);
    r is Integer || r is Float
}

/// A boolean, or one of the words `true` and `false`.
pub open spec fn bool_spec(b: Seq<(Seq<char>, Expr)>, e: Expr) -> Result<bool, ErrorView> {
    let r = resolved(b, e);
    match r {
        Expr::Bool(v) => Ok(v),
        Expr::Ident(s) => if s == "true"@ {
            Ok(true)
        } else if s == "false"@ {
            Ok(false)
        } else {
            Err(type_err("expected bool, got '"@ + s + "'"@))
        },
        _ => Err(type_err("expected bool, got "@ + expr_debug(r))),
    }
}

pub open spec fn position_mode_of(s: Seq<char>) -> Option<PositionMode> {
    if s == "absolute"@ {
        Some(PositionMode::Absolute)
    } else if s == "relative"@ {
        Some(PositionMode::Relative)
    } else {
        None
    }
}

pub open spec fn text_decoration_of(s: Seq<char>) -> Option<TextDecoration> {
    if s == "none"@ {
        Some(TextDecoration::NoDecoration)
    } else if s == "underline"@ {
        Some(TextDecoration::Underline)
    } else if s == "strikethrough"@ || s == "line-through"@ {
        Some(TextDecoration::Strikethrough)
    } else {
        None
    }
}

pub open spec fn text_transform_of(s: Seq<char>) -> Option<TextTransform> {
    if s == "none"@ {
        Some(TextTransform::NoTransform)
    } else if s == "uppercase"@ {
        Some(TextTransform::Uppercase)
    } else if s == "lowercase"@ {
        Some(TextTransform::Lowercase)
    } else {
        None
    }
}

pub open spec fn blend_mode_of(s: Seq<char>) -> Option<BlendMode> {
    if s == "normal"@ {
        Some(BlendMode::Normal)
    } else if s == "multiply"@ {
        Some(BlendMode::Multiply)
    } else if s == "screen"@ {
        Some(BlendMode::Screen)
    } else if s == "overlay"@ {
        Some(BlendMode::Overlay)
    } else if s == "darken"@ {
        Some(BlendMode::Darken)
    } else if s == "lighten"@ {
        Some(BlendMode::Lighten)
    } else {
        None
    }
}

pub open spec fn justify_of(s: Seq<char>) -> Option<Justify> {
    if s == "start"@ {
        Some(Justify::Start)
    } else if s == "center"@ {
        Some(Justify::Center)
    } else if s == "end"@ {
        Some(Justify::End)
    } else if s == "space-between"@ {
        Some(Justify::SpaceBetween)
    } else if s == "space-around"@ {
        Some(Justify::SpaceAround)
    } else {
        None
    }
}

pub open spec fn image_fit_of(s: Seq<char>) -> Option<ImageFit> {
    if s == "cover"@ {
        Some(ImageFit::Cover)
    } else if s == "contain"@ {
        Some(ImageFit::Contain)
    } else if s == "fill"@ {
        Some(ImageFit::Fill)
    } else if s == "none"@ {
        Some(ImageFit::NoFit)
    } else {
        None
    }
}

/// `[dash, gap]`.
pub open spec fn stroke_dash_spec(b: Seq<(Seq<char>, Expr)>, e: Expr) -> Result<Seq<Decimal>, ErrorView> {
    let r = resolved(b, e);
    if r is Array && r->Array_0.len() == 2 {
        numbers_spec(b, r->Array_0, 2)
    } else {
        Err(hinted(type_err("expected stroke-dash as [dash, gap]"@), "e.g. stroke-dash = [8, 4]"@))
    }
}

pub open spec fn position_mode_spec(b: Seq<(Seq<char>, Expr)>, e: Expr) -> Result<PositionMode, ErrorView> {
    keyword_spec(b, e, |s: Seq<char>| position_mode_of(s), "unknown position mode"@, Some("expected: absolute, relative"@))
}

pub open spec fn text_decoration_spec(b: Seq<(Seq<char>, Expr)>, e: Expr) -> Result<TextDecoration, ErrorView> {
    keyword_spec(b, e, |s: Seq<char>| text_decoration_of(s), "unknown text decoration"@, Some("expected: none, underline, strikethrough"@))
}

pub open spec fn text_transform_spec(b: Seq<(Seq<char>, Expr)>, e: Expr) -> Result<TextTransform, ErrorView> {
    keyword_spec(b, e, |s: Seq<char>| text_transform_of(s), "unknown text transform"@, Some("expected: none, uppercase, lowercase"@))
}

pub open spec fn blend_mode_spec(b: Seq<(Seq<char>, Expr)>, e: Expr) -> Result<BlendMode, ErrorView> {
    keyword_spec(b, e, |s: Seq<char>| blend_mode_of(s), "unknown blend mode"@, Some("expected: normal, multiply, screen, overlay, darken, lighten"@))
}

pub open spec fn justify_spec(b: Seq<(Seq<char>, Expr)>, e: Expr) -> Result<Justify, ErrorView> {
    keyword_spec(b, e, |s: Seq<char>| justify_of(s), "unknown justify"@, None)
}

pub open spec fn image_fit_spec(b: Seq<(Seq<char>, Expr)>, e: Expr) -> Result<ImageFit, ErrorView> {
    keyword_spec(b, e, |s: Seq<char>| image_fit_of(s), "unknown image fit"@, None)
}

/// Non-fill resolution helpers.
impl<'a> PropertyResolver<'a> {
    pub fn is_number(&self, expr: &Expression) -> (b: bool)
        ensures
            b == is_number_spec(self.bindings(), expr_view(*expr)),
    {
        let r = self.vars.resolve(expr);
        match r {
            Expression::Integer(_) | Expression::Float(_) => true,
            _ => false,
        }
    }

    pub fn resolve_bool(&self, expr: &Expression) -> (r: Result<bool, PastelError>)
        ensures
            rv(r) == bool_spec(self.bindings(), expr_view(*expr)),
    {
        let r = self.vars.resolve(expr);
        match &r {
            Expression::Bool(b) => Ok(*b),
            Expression::Ident(s) => {
                if str_eq(s.as_str(), "true") {
                    Ok(true)
                } else if str_eq(s.as_str(), "false") {
                    Ok(false)
                } else {
                    let mut m = String::new();
                    push_str(&mut m, "expected bool, got '");
                    push_str(&mut m, s.as_str());
                    push_str(&mut m, "'");
                    Err(PastelError::new(ErrorKind::TypeMismatch, m))
                }
            },
            _ => Err(PastelError::new(ErrorKind::TypeMismatch, got("expected bool, got ", &r))),
        }
    }

    pub fn resolve_position_mode(&self, expr: &Expression) -> (r: Result<PositionMode, PastelError>)
        ensures
            rv(r) == position_mode_spec(self.bindings(), expr_view(*expr)),
    {
        let s = match self.resolve_string(expr) {
            Ok(s) => s,
            Err(e) => {
                return Err(e);
            },
        };
        let t = s.as_str();
        if str_eq(t, "absolute") {
            Ok(PositionMode::Absolute)
        } else if str_eq(t, "relative") {
            Ok(PositionMode::Relative)
        } else {
            Err(
                PastelError::new(ErrorKind::InvalidValue, unknown_msg("unknown position mode", t)).with_hint(
                    owned("expected: absolute, relative"),
                ),
            )
        }
    }

    pub fn resolve_text_decoration(&self, expr: &Expression) -> (r: Result<TextDecoration, PastelError>)
        ensures
            rv(r) == text_decoration_spec(self.bindings(), expr_view(*expr)),
    {
        let s = match self.resolve_string(expr) {
            Ok(s) => s,
            Err(e) => {
                return Err(e);
            },
        };
        let t = s.as_str();
        if str_eq(t, "none") {
            Ok(TextDecoration::NoDecoration)
        } else if str_eq(t, "underline") {
            Ok(TextDecoration::Underline)
        } else if str_eq(t, "strikethrough") || str_eq(t, "line-through") {
            Ok(TextDecoration::Strikethrough)
        } else {
            Err(
                PastelError::new(ErrorKind::InvalidValue, unknown_msg("unknown text decoration", t)).with_hint(
                    owned("expected: none, underline, strikethrough"),
                ),
            )
        }
    }

    pub fn resolve_text_transform(&self, expr: &Expression) -> (r: Result<TextTransform, PastelError>)
        ensures
            rv(r) == text_transform_spec(self.bindings(), expr_view(*expr)),
    {
        let s = match self.resolve_string(expr) {
            Ok(s) => s,
            Err(e) => {
                return Err(e);
            },
        };
        let t = s.as_str();
        if str_eq(t, "none") {
            Ok(TextTransform::NoTransform)
        } else if str_eq(t, "uppercase") {
            Ok(TextTransform::Uppercase)
        } else if str_eq(t, "lowercase") {
            Ok(TextTransform::Lowercase)
        } else {
            Err(
                PastelError::new(ErrorKind::InvalidValue, unknown_msg("unknown text transform", t)).with_hint(
                    owned("expected: none, uppercase, lowercase"),
                ),
            )
        }
    }

    pub fn resolve_stroke_dash(&self, expr: &Expression) -> (r: Result<[Decimal; 2], PastelError>)
        ensures
            match r {
                Ok(d) => stroke_dash_spec(self.bindings(), expr_view(*expr)) == Ok::<Seq<Decimal>, ErrorView>(d@),
                Err(e) => stroke_dash_spec(self.bindings(), expr_view(*expr)) == Err::<Seq<Decimal>, ErrorView>(e@),
            },
    {
        let r = self.vars.resolve(expr);
        match &r {
            Expression::Array(items) => {
                proof {
                    lemma_exprs_view_len(items@);
                }
                if items.len() == 2 {
                    let vs = match self.resolve_numbers(items, 2) {
                        Ok(vs) => vs,
                        Err(e) => {
                            return Err(e);
                        },
                    };
                    let d = [vs[0], vs[1]];
                    proof {
                        assert(d@ =~= vs@);
                    }
                    return Ok(d);
                }
            },
            _ => {},
        }
        Err(
            PastelError::new(ErrorKind::TypeMismatch, owned("expected stroke-dash as [dash, gap]")).with_hint(
                owned("e.g. stroke-dash = [8, 4]"),
            ),
        )
    }

    pub fn resolve_blend_mode(&self, expr: &Expression) -> (r: Result<BlendMode, PastelError>)
        ensures
            rv(r) == blend_mode_spec(self.bindings(), expr_view(*expr)),
    {
        let s = match self.resolve_string(expr) {
            Ok(s) => s,
            Err(e) => {
                return Err(e);
            },
        };
        let t = s.as_str();
        if str_eq(t, "normal") {
            Ok(BlendMode::Normal)
        } else if str_eq(t, "multiply") {
            Ok(BlendMode::Multiply)
        } else if str_eq(t, "screen") {
            Ok(BlendMode::Screen)
        } else if str_eq(t, "overlay") {
            Ok(BlendMode::Overlay)
        } else if str_eq(t, "darken") {
            Ok(BlendMode::Darken)
        } else if str_eq(t, "lighten") {
            Ok(BlendMode::Lighten)
        } else {
            Err(
                PastelError::new(ErrorKind::InvalidValue, unknown_msg("unknown blend mode", t)).with_hint(
                    owned("expected: normal, multiply, screen, overlay, darken, lighten"),
                ),
            )
        }
    }

    pub fn resolve_justify(&self, expr: &Expression) -> (r: Result<Justify, PastelError>)
        ensures
            rv(r) == justify_spec(self.bindings(), expr_view(*expr)),
    {
        let s = match self.resolve_string(expr) {
            Ok(s) => s,
            Err(e) => {
                return Err(e);
            },
        };
        let t = s.as_str();
        if str_eq(t, "start") {
            Ok(Justify::Start)
        } else if str_eq(t, "center") {
            Ok(Justify::Center)
        } else if str_eq(t, "end") {
            Ok(Justify::End)
        } else if str_eq(t, "space-between") {
            Ok(Justify::SpaceBetween)
        } else if str_eq(t, "space-around") {
            Ok(Justify::SpaceAround)
        } else {
            Err(PastelError::new(ErrorKind::InvalidValue, unknown_msg("unknown justify", t)))
        }
    }

    pub fn resolve_image_fit(&self, expr: &Expression) -> (r: Result<ImageFit, PastelError>)
        ensures
            rv(r) == image_fit_spec(self.bindings(), expr_view(*expr)),
    {
        let s = match self.resolve_string(expr) {
            Ok(s) => s,
            Err(e) => {
                return Err(e);
            },
        };
        let t = s.as_str();
        if str_eq(t, "cover") {
            Ok(ImageFit::Cover)
        } else if str_eq(t, "contain") {
            Ok(ImageFit::Contain)
        } else if str_eq(t, "fill") {
            Ok(ImageFit::Fill)
        } else if str_eq(t, "none") {
            Ok(ImageFit::NoFit)
        } else {
            Err(PastelError::new(ErrorKind::InvalidValue, unknown_msg("unknown image fit", t)))
        }
    }
}

} // verus!
