use vstd::prelude::*;

use crate::ast::{expr_view, exprs_view, Expr, Expression};
use crate::error::{ErrorKind, ErrorView, PastelError};
use crate::expr::{expr_debug, lemma_exprs_view_len};
use crate::ir::style::{color_of_hex, fill_view, Fill, FillV, GradientStop};
use crate::number::{decimal_of, normal_parts, pow10, Decimal};
use crate::text::{owned, push_str, str_eq};
use super::resolve::{color_spec, f64_spec, got, hinted, int_decimal, type_err, value_err, PropertyResolver};
use super::resolve_extra::is_number_spec;
use super::vars::resolved;

verus! {

// ---------------------------------------------------------------------------
// Fills and gradients
// ---------------------------------------------------------------------------

/// The number of color arguments from `i` on (each may be followed by a
/// position), added to `count`.
pub open spec fn count_colors(b: Seq<(Seq<char>, Expr)>, args: Seq<Expr>, i: int, count: nat) -> nat
    decreases args.len() - i,
{
    if i < 0 || i >= args.len() {
        count
    } else {
        let r = resolved(b, args[i]);
        if r is Color || r is Ident {
            let j = i + 1;
            let k = if j < args.len() && is_number_spec(b, args[j]) { j + 1 } else { j };
            count_colors(b, args, k, count + 1)
        } else {
            count_colors(b, args, i + 1, count)
        }
    }
}

/// The position of the `idx`th of `count` evenly spread stops, in percent,
/// cut to 15 fraction digits.
pub open spec fn even_position(idx: nat, count: nat) -> Decimal {
    let np = normal_parts((idx * pow10(17)) / (count - 1), 15);
    decimal_of(np.0, np.1 as int)
}

/// The stops from argument `i` on: a color, then an optional position; a
/// stop without one is spread evenly by its index among the colors.
pub open spec fn stops_spec(
    b: Seq<(Seq<char>, Expr)>,
    args: Seq<Expr>,
    i: int,
    idx: nat,
    count: nat,
    acc: Seq<GradientStop>,
) -> Result<Seq<GradientStop>, ErrorView>
    decreases args.len() - i,
{
    if i < 0 || i >= args.len() {
        Ok(acc)
    } else {
        match color_spec(b, args[i]) {
            Err(x) => Err(x),
            Ok(color) => {
                let j = i + 1;
                if j < args.len() && is_number_spec(b, args[j]) {
                    match f64_spec(b, args[j]) {
                        Err(x) => Err(x),
                        Ok(position) => stops_spec(b, args, j + 1, idx + 1, count, acc.push(GradientStop { color, position })),
                    }
                } else {
                    let position = if count <= 1 { int_decimal(0) } else { even_position(idx, count) };
                    stops_spec(b, args, j, idx + 1, count, acc.push(GradientStop { color, position }))
                }
            },
        }
    }
}

/// The stops of the arguments from `start` on.
pub open spec fn gradient_stops(b: Seq<(Seq<char>, Expr)>, args: Seq<Expr>, start: int) -> Result<Seq<GradientStop>, ErrorView> {
    stops_spec(b, args, start, 0, count_colors(b, args, start, 0), Seq::empty())
}

/// `linear-gradient(angle, color1, color2, ...)`.
pub open spec fn linear_spec(b: Seq<(Seq<char>, Expr)>, args: Seq<Expr>) -> Result<FillV, ErrorView> {
    if args.len() < 3 {
        Err(
            hinted(
                value_err("linear-gradient requires at least 3 arguments: angle, color1, color2"@),
                "e.g. linear-gradient(180, #FF0066, #3300FF)"@,
            ),
        )
    } else {
        match f64_spec(b, args[0]) {
            Err(x) => Err(x),
            Ok(angle) => match gradient_stops(b, args, 1) {
                Err(x) => Err(x),
                Ok(stops) => Ok(FillV::Linear(angle, stops)),
            },
        }
    }
}

/// `radial-gradient(color1, color2, ...)` centred, or
/// `radial-gradient(cx, cy, color1, color2, ...)`.
pub open spec fn radial_spec(b: Seq<(Seq<char>, Expr)>, args: Seq<Expr>) -> Result<FillV, ErrorView> {
    if args.len() < 2 {
        Err(
            hinted(
                value_err("radial-gradient requires at least 2 color arguments"@),
                "e.g. radial-gradient(#FF6B6B, #4ECDC4)"@,
            ),
        )
    } else if args.len() >= 4 && is_number_spec(b, args[0]) && is_number_spec(b, args[1]) {
        match f64_spec(b, args[0]) {
            Err(x) => Err(x),
            Ok(cx) => match f64_spec(b, args[1]) {
                Err(x) => Err(x),
                Ok(cy) => match gradient_stops(b, args, 2) {
                    Err(x) => Err(x),
                    Ok(stops) => Ok(FillV::Radial(cx, cy, stops)),
                },
            },
        }
    } else {
        match gradient_stops(b, args, 0) {
            Err(x) => Err(x),
            Ok(stops) => Ok(FillV::Radial(int_decimal(50), int_decimal(50), stops)),
        }
    }
}

/// A fill: a color, `transparent`, or a gradient.
pub open spec fn fill_spec(b: Seq<(Seq<char>, Expr)>, e: Expr) -> Result<FillV, ErrorView> {
    let r = resolved(b, e);
    match r {
        Expr::Color(hex) => match color_of_hex(hex) {
            Some(c) => Ok(FillV::Solid(c)),
            None => Err(value_err("invalid color: #"@ + hex)),
        },
        Expr::Ident(s) => if s == "transparent"@ {
            Ok(FillV::Transparent)
        } else {
            Err(type_err("expected fill, got "@ + expr_debug(r)))
        },
        Expr::Call(name, args) => if name == "linear-gradient"@ {
            linear_spec(b, args)
        } else if name == "radial-gradient"@ {
            radial_spec(b, args)
        } else {
            Err(type_err("expected fill, got "@ + expr_debug(r)))
        },
        _ => Err(type_err("expected fill, got "@ + expr_debug(r))),
    }
}

/// A fill result with the fill taken by its view.
pub open spec fn rv_fill(r: Result<Fill, PastelError>) -> Result<FillV, ErrorView> {
    match r {
        Ok(f) => Ok(fill_view(f)),
        Err(e) => Err(e@),
    }
}

pub proof fn lemma_count_grows(b: Seq<(Seq<char>, Expr)>, args: Seq<Expr>, i: int, count: nat)
    ensures
        count_colors(b, args, i, count) >= count,
    decreases args.len() - i,
{
    if 0 <= i < args.len() {
        let r = resolved(b, args[i]);
        if r is Color || r is Ident {
            let j = i + 1;
            let k = if j < args.len() && is_number_spec(b, args[j]) { j + 1 } else { j };
            lemma_count_grows(b, args, k, count + 1);
        } else {
            lemma_count_grows(b, args, i + 1, count);
        }
    }
}

/// Fill and gradient resolution.
impl<'a> PropertyResolver<'a> {
    pub fn resolve_fill(&self, expr: &Expression) -> (r: Result<Fill, PastelError>)
        ensures
            rv_fill(r) == fill_spec(self.bindings(), expr_view(*expr)),
    {
        let r = self.vars.resolve(expr);
        match &r {
            Expression::Color(hex) => match crate::ir::style::Color::from_hex(hex.as_str()) {
                Some(color) => Ok(Fill::Solid { color }),
                None => {
                    let mut m = String::new();
                    push_str(&mut m, "invalid color: #");
                    push_str(&mut m, hex.as_str());
                    Err(PastelError::new(ErrorKind::InvalidValue, m))
                },
            },
            Expression::Ident(s) => {
                if str_eq(s.as_str(), "transparent") {
                    Ok(Fill::Transparent)
                } else {
                    Err(PastelError::new(ErrorKind::TypeMismatch, got("expected fill, got ", &r)))
                }
            },
            Expression::FunctionCall { name, args } => {
                if str_eq(name.as_str(), "linear-gradient") {
                    self.resolve_linear_gradient(args)
                } else if str_eq(name.as_str(), "radial-gradient") {
                    self.resolve_radial_gradient(args)
                } else {
                    Err(PastelError::new(ErrorKind::TypeMismatch, got("expected fill, got ", &r)))
                }
            },
            _ => Err(PastelError::new(ErrorKind::TypeMismatch, got("expected fill, got ", &r))),
        }
    }

    fn resolve_linear_gradient(&self, args: &Vec<Expression>) -> (r: Result<Fill, PastelError>)
        ensures
            rv_fill(r) == linear_spec(self.bindings(), exprs_view(args@)),
    {
        proof {
            lemma_exprs_view_len(args@);
        }
        if args.len() < 3 {
            return Err(
                PastelError::new(
                    ErrorKind::InvalidValue,
                    owned("linear-gradient requires at least 3 arguments: angle, color1, color2"),
                ).with_hint(owned("e.g. linear-gradient(180, #FF0066, #3300FF)")),
            );
        }
        let angle = match self.resolve_f64(&args[0]) {
            Ok(a) => a,
            Err(e) => {
                return Err(e);
            },
        };
        match self.parse_gradient_stops(args, 1) {
            Ok(stops) => Ok(Fill::LinearGradient { angle, stops }),
            Err(e) => Err(e),
        }
    }

    fn resolve_radial_gradient(&self, args: &Vec<Expression>) -> (r: Result<Fill, PastelError>)
        ensures
            rv_fill(r) == radial_spec(self.bindings(), exprs_view(args@)),
    {
        proof {
            lemma_exprs_view_len(args@);
        }
        if args.len() < 2 {
            return Err(
                PastelError::new(ErrorKind::InvalidValue, owned("radial-gradient requires at least 2 color arguments")).with_hint(
                    owned("e.g. radial-gradient(#FF6B6B, #4ECDC4)"),
                ),
            );
        }
        if args.len() >= 4 && self.is_number(&args[0]) && self.is_number(&args[1]) {
            let cx = match self.resolve_f64(&args[0]) {
                Ok(v) => v,
                Err(e) => {
                    return Err(e);
                },
            };
            let cy = match self.resolve_f64(&args[1]) {
                Ok(v) => v,
                Err(e) => {
                    return Err(e);
                },
            };
            match self.parse_gradient_stops(args, 2) {
                Ok(stops) => Ok(Fill::RadialGradient { cx, cy, stops }),
                Err(e) => Err(e),
            }
        } else {
            match self.parse_gradient_stops(args, 0) {
                Ok(stops) => Ok(Fill::RadialGradient { cx: Decimal::from_int(50), cy: Decimal::from_int(50), stops }),
                Err(e) => Err(e),
            }
        }
    }

    /// The stops of the arguments from `start` on.
    fn parse_gradient_stops(&self, args: &Vec<Expression>, start: usize) -> (r: Result<Vec<GradientStop>, PastelError>)
        requires
            start <= args.len(),
        ensures
            match r {
                Ok(st) => gradient_stops(self.bindings(), exprs_view(args@), start as int) == Ok::<Seq<GradientStop>, ErrorView>(st@),
                Err(e) => gradient_stops(self.bindings(), exprs_view(args@), start as int) == Err::<Seq<GradientStop>, ErrorView>(e@),
            },
    {
        proof {
            lemma_exprs_view_len(args@);
        }
        let ghost b = self.bindings();
        let ghost av = exprs_view(args@);
        let color_count = self.count_gradient_colors(args, start);
        let mut stops: Vec<GradientStop> = Vec::new();
        let mut i = start;
        let mut color_idx: usize = 0;
        while i < args.len()
            invariant
                start <= i <= args.len(),
                b == self.bindings(),
                av == exprs_view(args@),
                av.len() == args.len(),
                forall|k: int| 0 <= k < args.len() ==> #[trigger] av[k] == expr_view(args@[k]),
                color_count == count_colors(b, av, i as int, color_idx as nat),
                color_idx <= i,
                gradient_stops(b, av, start as int) == stops_spec(b, av, i as int, color_idx as nat, color_count as nat, stops@),
            decreases args.len() - i,
        {
            let color = match self.resolve_color(&args[i]) {
                Ok(c) => c,
                Err(e) => {
                    return Err(e);
                },
            };
            let ghost i0 = i as int;
            i = i + 1;
            proof {
                let r = resolved(b, av[i0]);
                assert(r is Color || r is Ident);
                let k = if i < av.len() && is_number_spec(b, av[i as int]) { i + 1 } else { i as int };
                lemma_count_grows(b, av, k, (color_idx + 1) as nat);
            }
            let position = if i < args.len() && self.is_number(&args[i]) {
                let pos = match self.resolve_f64(&args[i]) {
                    Ok(p) => p,
                    Err(e) => {
                        return Err(e);
                    },
                };
                i = i + 1;
                pos
            } else if color_count <= 1 {
                Decimal::from_int(0)
            } else {
                let num: u128 = (color_idx as u128) * 100000000000000000u128;
                let q: u128 = num / ((color_count - 1) as u128);
                proof {
                    assert(pow10(17) == 100000000000000000) by {
                        reveal_with_fuel(pow10, 18);
                    }
                    let ghost d: int = color_count - 1;
                    assert(q <= 100000000000000000) by (nonlinear_arith)
                        requires
                            num as int == color_idx * 100000000000000000,
                            q as int == (num as int) / d,
                            color_idx <= d,
                            d >= 1;
                }
                Decimal::from_scaled(q as i64, 15)
            };
            stops.push(GradientStop { color, position });
            color_idx = color_idx + 1;
        }
        Ok(stops)
    }

    /// The number of color arguments from `start` on.
    fn count_gradient_colors(&self, args: &Vec<Expression>, start: usize) -> (n: usize)
        requires
            start <= args.len(),
        ensures
            n == count_colors(self.bindings(), exprs_view(args@), start as int, 0),
            n <= args.len(),
    {
        proof {
            lemma_exprs_view_len(args@);
        }
        let ghost b = self.bindings();
        let ghost av = exprs_view(args@);
        let mut count: usize = 0;
        let mut i = start;
        while i < args.len()
            invariant
                start <= i <= args.len(),
                count <= i,
                b == self.bindings(),
                av == exprs_view(args@),
                av.len() == args.len(),
                forall|k: int| 0 <= k < args.len() ==> #[trigger] av[k] == expr_view(args@[k]),
                count_colors(b, av, start as int, 0) == count_colors(b, av, i as int, count as nat),
            decreases args.len() - i,
        {
            let r = self.vars.resolve(&args[i]);
            match &r {
                Expression::Color(_) | Expression::Ident(_) => {
                    count = count + 1;
                    i = i + 1;
                    if i < args.len() && self.is_number(&args[i]) {
                        i = i + 1;
                    }
                },
                _ => {
                    i = i + 1;
                },
            }
        }
        count
    }
}

} // verus!
