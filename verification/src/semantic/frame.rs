use vstd::prelude::*;

use crate::ast::{attr_view, attrs_view, AttrV, Attribute, Expr, NodeDecl};
use crate::error::{ErrorView, PastelError};
use crate::ir::node::{FrameData, VisualProps};
use crate::ir::style::{
    fill_view, Align, FillV, Justify, Layout, LayoutMode, Position, PositionMode, Shadow, Stroke,
};
use crate::ir::view::{frame_view, no_visual, stroke_view, FrameV, StrokeV, VisualV};
use crate::number::Decimal;
use crate::text::{copy_string, str_eq};
use crate::token::Span;
use super::resolve::{
    align_spec, corners_spec, dimension_spec, f64_spec, layout_mode_spec, padding_spec, rv,
    shadow_spec, stroke_spec, u32_spec, PropertyResolver,
};
use super::resolve_extra::{blend_mode_spec, justify_spec, position_mode_spec, stroke_dash_spec};
use super::resolve_fill::fill_spec;

verus! {

// ---------------------------------------------------------------------------
// Frames
// ---------------------------------------------------------------------------

/// An error with the place of the attribute that caused it.
pub open spec fn spanned(e: ErrorView, span: Span) -> ErrorView {
    ErrorView { span: Some(span), ..e }
}

/// The accumulated state with a resolved value set by `f`, or the error of
/// the value, placed at `span`.
pub open spec fn then_set<T, A>(r: Result<T, ErrorView>, span: Span, f: spec_fn(T) -> A) -> Result<A, ErrorView> {
    match r {
        Ok(x) => Ok(f(x)),
        Err(e) => Err(spanned(e, span)),
    }
}

/// A frame while its attributes are read: the frame, and the layout and
/// position parts that are put together at the end.
pub ghost struct FrameAccV {
    pub f: FrameV,
    pub mode: Option<LayoutMode>,
    pub gap: Option<Decimal>,
    pub align: Option<Align>,
    pub justify: Option<Justify>,
    pub columns: Option<u32>,
    pub rows: Option<u32>,
    pub pos_mode: Option<PositionMode>,
    pub top: Option<Decimal>,
    pub right: Option<Decimal>,
    pub bottom: Option<Decimal>,
    pub left: Option<Decimal>,
}

pub open spec fn with_visual(acc: FrameAccV, v: VisualV) -> FrameAccV {
    FrameAccV { f: FrameV { visual: v, ..acc.f }, ..acc }
}

/// A stroke with a dash pattern, when there is a stroke.
pub open spec fn dashed(s: Option<StrokeV>, d: Seq<Decimal>) -> Option<StrokeV> {
    match s {
        Some(st) => Some(StrokeV { dash: Some(d), ..st }),
        None => None,
    }
}

/// One attribute of a frame applied; unknown attributes are ignored.
pub open spec fn frame_step(b: Seq<(Seq<char>, Expr)>, acc: FrameAccV, a: AttrV) -> Result<FrameAccV, ErrorView> {
    let k = a.key;
    let v = a.value;
    let sp = a.span;
    let vis = acc.f.visual;
    if k == "width"@ {
        then_set(dimension_spec(b, v), sp, |d| FrameAccV { f: FrameV { width: Some(d), ..acc.f }, ..acc })
    } else if k == "height"@ {
        then_set(dimension_spec(b, v), sp, |d| FrameAccV { f: FrameV { height: Some(d), ..acc.f }, ..acc })
    } else if k == "padding"@ {
        then_set(padding_spec(b, v), sp, |p: Seq<Decimal>| FrameAccV { f: FrameV { padding: Some(p), ..acc.f }, ..acc })
    } else if k == "fill"@ {
        then_set(fill_spec(b, v), sp, |x: FillV| with_visual(acc, VisualV { fill: Some(x), ..vis }))
    } else if k == "stroke"@ {
        then_set(stroke_spec(b, v), sp, |s: Stroke| with_visual(acc, VisualV { stroke: Some(stroke_view(s)), ..vis }))
    } else if k == "stroke-dash"@ {
        then_set(stroke_dash_spec(b, v), sp, |d: Seq<Decimal>| with_visual(acc, VisualV { stroke: dashed(vis.stroke, d), ..vis }))
    } else if k == "radius"@ {
        then_set(corners_spec(b, v), sp, |c: Seq<Decimal>| with_visual(acc, VisualV { corner_radius: Some(c), ..vis }))
    } else if k == "shadow"@ {
        then_set(shadow_spec(b, v), sp, |s: Shadow| with_visual(acc, VisualV { shadow: Some(s), ..vis }))
    } else if k == "inner-shadow"@ {
        then_set(shadow_spec(b, v), sp, |s: Shadow| with_visual(acc, VisualV { inner_shadow: Some(s), ..vis }))
    } else if k == "opacity"@ {
        then_set(f64_spec(b, v), sp, |x: Decimal| with_visual(acc, VisualV { opacity: Some(x), ..vis }))
    } else if k == "blur"@ {
        then_set(f64_spec(b, v), sp, |x: Decimal| with_visual(acc, VisualV { blur: Some(x), ..vis }))
    } else if k == "background-blur"@ {
        then_set(f64_spec(b, v), sp, |x: Decimal| with_visual(acc, VisualV { background_blur: Some(x), ..vis }))
    } else if k == "blend"@ {
        then_set(blend_mode_spec(b, v), sp, |m| with_visual(acc, VisualV { blend: Some(m), ..vis }))
    } else if k == "rotation"@ {
        then_set(f64_spec(b, v), sp, |x: Decimal| FrameAccV { f: FrameV { rotation: Some(x), ..acc.f }, ..acc })
    } else if k == "layout"@ {
        then_set(layout_mode_spec(b, v), sp, |m| FrameAccV { mode: Some(m), ..acc })
    } else if k == "gap"@ {
        then_set(f64_spec(b, v), sp, |x: Decimal| FrameAccV { gap: Some(x), ..acc })
    } else if k == "align"@ {
        then_set(align_spec(b, v), sp, |x| FrameAccV { align: Some(x), ..acc })
    } else if k == "justify"@ {
        then_set(justify_spec(b, v), sp, |x| FrameAccV { justify: Some(x), ..acc })
    } else if k == "columns"@ {
        then_set(u32_spec(b, v), sp, |x: u32| FrameAccV { columns: Some(x), ..acc })
    } else if k == "rows"@ {
        then_set(u32_spec(b, v), sp, |x: u32| FrameAccV { rows: Some(x), ..acc })
    } else if k == "position"@ {
        then_set(position_mode_spec(b, v), sp, |x| FrameAccV { pos_mode: Some(x), ..acc })
    } else if k == "top"@ {
        then_set(f64_spec(b, v), sp, |x: Decimal| FrameAccV { top: Some(x), ..acc })
    } else if k == "right"@ {
        then_set(f64_spec(b, v), sp, |x: Decimal| FrameAccV { right: Some(x), ..acc })
    } else if k == "bottom"@ {
        then_set(f64_spec(b, v), sp, |x: Decimal| FrameAccV { bottom: Some(x), ..acc })
    } else if k == "left"@ {
        then_set(f64_spec(b, v), sp, |x: Decimal| FrameAccV { left: Some(x), ..acc })
    } else {
        Ok(acc)
    }
}

/// The first `n` attributes applied in order, or the first error.
pub open spec fn frame_fold(b: Seq<(Seq<char>, Expr)>, attrs: Seq<AttrV>, n: nat, init: FrameAccV) -> Result<FrameAccV, ErrorView>
    decreases n,
{
    if n == 0 {
        Ok(init)
    } else {
        match frame_fold(b, attrs, (n - 1) as nat, init) {
            Err(e) => Err(e),
            Ok(acc) => frame_step(b, acc, attrs[n - 1]),
        }
    }
}

/// The frame once the layout and position parts are put together: a
/// layout when any of its mode, gap, align and justify is set (vertical by
/// default), a position when any of its parts is set (relative by default).
pub open spec fn frame_finish(acc: FrameAccV) -> FrameV {
    let layout = if acc.mode is Some || acc.gap is Some || acc.align is Some || acc.justify is Some {
        Some(
            Layout {
                mode: match acc.mode {
                    Some(m) => m,
                    None => LayoutMode::Vertical,
                },
                gap: acc.gap,
                align: acc.align,
                justify: acc.justify,
                columns: acc.columns,
                rows: acc.rows,
            },
        )
    } else {
        acc.f.layout
    };
    let position = if acc.pos_mode is Some || acc.top is Some || acc.right is Some || acc.bottom is Some
        || acc.left is Some {
        Some(
            Position {
                mode: match acc.pos_mode {
                    Some(m) => m,
                    None => PositionMode::Relative,
                },
                top: acc.top,
                right: acc.right,
                bottom: acc.bottom,
                left: acc.left,
            },
        )
    } else {
        acc.f.position
    };
    FrameV { layout, position, ..acc.f }
}

pub open spec fn frame_init(name: Option<Seq<char>>) -> FrameAccV {
    FrameAccV {
        f: FrameV {
            name,
            width: None,
            height: None,
            padding: None,
            layout: None,
            position: None,
            rotation: None,
            visual: no_visual(),
        },
        mode: None,
        gap: None,
        align: None,
        justify: None,
        columns: None,
        rows: None,
        pos_mode: None,
        top: None,
        right: None,
        bottom: None,
        left: None,
    }
}

/// The frame that a node's name and attributes describe.
pub open spec fn frame_spec(b: Seq<(Seq<char>, Expr)>, name: Option<Seq<char>>, attrs: Seq<AttrV>) -> Result<FrameV, ErrorView> {
    match frame_fold(b, attrs, attrs.len(), frame_init(name)) {
        Err(e) => Err(e),
        Ok(acc) => Ok(frame_finish(acc)),
    }
}

pub struct FrameAcc {
    pub f: FrameData,
    pub mode: Option<LayoutMode>,
    pub gap: Option<Decimal>,
    pub align: Option<Align>,
    pub justify: Option<Justify>,
    pub columns: Option<u32>,
    pub rows: Option<u32>,
    pub pos_mode: Option<PositionMode>,
    pub top: Option<Decimal>,
    pub right: Option<Decimal>,
    pub bottom: Option<Decimal>,
    pub left: Option<Decimal>,
}

pub open spec fn frame_acc_view(a: FrameAcc) -> FrameAccV {
    FrameAccV {
        f: frame_view(a.f),
        mode: a.mode,
        gap: a.gap,
        align: a.align,
        justify: a.justify,
        columns: a.columns,
        rows: a.rows,
        pos_mode: a.pos_mode,
        top: a.top,
        right: a.right,
        bottom: a.bottom,
        left: a.left,
    }
}

/// The error of a value, placed at the attribute.
fn at_attr(e: PastelError, a: &Attribute) -> (r: PastelError)
    ensures
        r@ == spanned(e@, a.span),
{
    e.with_span(a.span)
}

impl<'a> PropertyResolver<'a> {
    /// One attribute of a frame applied.
    pub fn frame_step(&self, acc: &mut FrameAcc, a: &Attribute) -> (r: Result<(), PastelError>)
        ensures
            match r {
                Ok(_) => frame_step(self.bindings(), frame_acc_view(*old(acc)), attr_view(*a)) == Ok::<FrameAccV, ErrorView>(frame_acc_view(*final(acc))),
                Err(e) => frame_step(self.bindings(), frame_acc_view(*old(acc)), attr_view(*a)) == Err::<FrameAccV, ErrorView>(e@),
            },
    {
        let k = a.key.as_str();
        let v = &a.value;
        if str_eq(k, "width") {
            match self.resolve_dimension(v) {
                Ok(d) => acc.f.width = Some(d),
                Err(e) => return Err(at_attr(e, a)),
            }
        } else if str_eq(k, "height") {
            match self.resolve_dimension(v) {
                Ok(d) => acc.f.height = Some(d),
                Err(e) => return Err(at_attr(e, a)),
            }
        } else if str_eq(k, "padding") {
            match self.resolve_padding(v) {
                Ok(p) => acc.f.padding = Some(p),
                Err(e) => return Err(at_attr(e, a)),
            }
        } else if str_eq(k, "fill") {
            match self.resolve_fill(v) {
                Ok(x) => acc.f.visual.fill = Some(x),
                Err(e) => return Err(at_attr(e, a)),
            }
        } else if str_eq(k, "stroke") {
            match self.resolve_stroke(v) {
                Ok(s) => acc.f.visual.stroke = Some(s),
                Err(e) => return Err(at_attr(e, a)),
            }
        } else if str_eq(k, "stroke-dash") {
            match self.resolve_stroke_dash(v) {
                Ok(d) => {
                    match acc.f.visual.stroke {
                        Some(s) => {
                            acc.f.visual.stroke = Some(Stroke { dash: Some(d), ..s });
                        },
                        None => {},
                    }
                },
                Err(e) => return Err(at_attr(e, a)),
            }
        } else if str_eq(k, "radius") {
            match self.resolve_corners(v) {
                Ok(c) => acc.f.visual.corner_radius = Some(c),
                Err(e) => return Err(at_attr(e, a)),
            }
        } else if str_eq(k, "shadow") {
            match self.resolve_shadow(v) {
                Ok(s) => acc.f.visual.shadow = Some(s),
                Err(e) => return Err(at_attr(e, a)),
            }
        } else if str_eq(k, "inner-shadow") {
            match self.resolve_shadow(v) {
                Ok(s) => acc.f.visual.inner_shadow = Some(s),
                Err(e) => return Err(at_attr(e, a)),
            }
        } else if str_eq(k, "opacity") {
            match self.resolve_f64(v) {
                Ok(x) => acc.f.visual.opacity = Some(x),
                Err(e) => return Err(at_attr(e, a)),
            }
        } else if str_eq(k, "blur") {
            match self.resolve_f64(v) {
                Ok(x) => acc.f.visual.blur = Some(x),
                Err(e) => return Err(at_attr(e, a)),
            }
        } else if str_eq(k, "background-blur") {
            match self.resolve_f64(v) {
                Ok(x) => acc.f.visual.background_blur = Some(x),
                Err(e) => return Err(at_attr(e, a)),
            }
        } else if str_eq(k, "blend") {
            match self.resolve_blend_mode(v) {
                Ok(m) => acc.f.visual.blend = Some(m),
                Err(e) => return Err(at_attr(e, a)),
            }
        } else if str_eq(k, "rotation") {
            match self.resolve_f64(v) {
                Ok(x) => acc.f.rotation = Some(x),
                Err(e) => return Err(at_attr(e, a)),
            }
        } else if str_eq(k, "layout") {
            match self.resolve_layout_mode(v) {
                Ok(m) => acc.mode = Some(m),
                Err(e) => return Err(at_attr(e, a)),
            }
        } else if str_eq(k, "gap") {
            match self.resolve_f64(v) {
                Ok(x) => acc.gap = Some(x),
                Err(e) => return Err(at_attr(e, a)),
            }
        } else if str_eq(k, "align") {
            match self.resolve_align(v) {
                Ok(x) => acc.align = Some(x),
                Err(e) => return Err(at_attr(e, a)),
            }
        } else if str_eq(k, "justify") {
            match self.resolve_justify(v) {
                Ok(x) => acc.justify = Some(x),
                Err(e) => return Err(at_attr(e, a)),
            }
        } else if str_eq(k, "columns") {
            match self.resolve_u32(v) {
                Ok(x) => acc.columns = Some(x),
                Err(e) => return Err(at_attr(e, a)),
            }
        } else if str_eq(k, "rows") {
            match self.resolve_u32(v) {
                Ok(x) => acc.rows = Some(x),
                Err(e) => return Err(at_attr(e, a)),
            }
        } else if str_eq(k, "position") {
            match self.resolve_position_mode(v) {
                Ok(x) => acc.pos_mode = Some(x),
                Err(e) => return Err(at_attr(e, a)),
            }
        } else if str_eq(k, "top") {
            match self.resolve_f64(v) {
                Ok(x) => acc.top = Some(x),
                Err(e) => return Err(at_attr(e, a)),
            }
        } else if str_eq(k, "right") {
            match self.resolve_f64(v) {
                Ok(x) => acc.right = Some(x),
                Err(e) => return Err(at_attr(e, a)),
            }
        } else if str_eq(k, "bottom") {
            match self.resolve_f64(v) {
                Ok(x) => acc.bottom = Some(x),
                Err(e) => return Err(at_attr(e, a)),
            }
        } else if str_eq(k, "left") {
            match self.resolve_f64(v) {
                Ok(x) => acc.left = Some(x),
                Err(e) => return Err(at_attr(e, a)),
            }
        }
        Ok(())
    }

    /// The frame that a node's name and attributes describe.
    pub fn build_frame(&self, node: &NodeDecl) -> (r: Result<FrameData, PastelError>)
        ensures
            match r {
                Ok(f) => frame_spec(self.bindings(), crate::ast::opt_view(node.name), attrs_view(node.attrs@)) == Ok::<FrameV, ErrorView>(frame_view(f)),
                Err(e) => frame_spec(self.bindings(), crate::ast::opt_view(node.name), attrs_view(node.attrs@)) == Err::<FrameV, ErrorView>(e@),
            },
    {
        let name = match &node.name {
            Some(n) => Some(copy_string(n)),
            None => None,
        };
        let mut acc = FrameAcc {
            f: FrameData {
                name,
                width: None,
                height: None,
                padding: None,
                layout: None,
                position: None,
                rotation: None,
                visual: VisualProps::empty(),
            },
            mode: None,
            gap: None,
            align: None,
            justify: None,
            columns: None,
            rows: None,
            pos_mode: None,
            top: None,
            right: None,
            bottom: None,
            left: None,
        };
        let ghost b = self.bindings();
        let ghost av = attrs_view(node.attrs@);
        let ghost init = frame_acc_view(acc);
        proof {
            assert(init == frame_init(crate::ast::opt_view(node.name)));
        }
        let mut i: usize = 0;
        while i < node.attrs.len()
            invariant
                i <= node.attrs.len(),
                b == self.bindings(),
                av == attrs_view(node.attrs@),
                init == frame_init(crate::ast::opt_view(node.name)),
                frame_fold(b, av, i as nat, init) == Ok::<FrameAccV, ErrorView>(frame_acc_view(acc)),
            decreases node.attrs.len() - i,
        {
            match self.frame_step(&mut acc, &node.attrs[i]) {
                Ok(_) => {},
                Err(e) => {
                    proof {
                        lemma_frame_fold_err(b, av, (i + 1) as nat, av.len(), init);
                    }
                    return Err(e);
                },
            }
            i = i + 1;
        }
        if acc.mode.is_some() || acc.gap.is_some() || acc.align.is_some() || acc.justify.is_some() {
            let mode = match acc.mode {
                Some(m) => m,
                None => LayoutMode::Vertical,
            };
            acc.f.layout = Some(
                Layout { mode, gap: acc.gap, align: acc.align, justify: acc.justify, columns: acc.columns, rows: acc.rows },
            );
        }
        if acc.pos_mode.is_some() || acc.top.is_some() || acc.right.is_some() || acc.bottom.is_some()
            || acc.left.is_some() {
            let mode = match acc.pos_mode {
                Some(m) => m,
                None => PositionMode::Relative,
            };
            acc.f.position = Some(
                Position { mode, top: acc.top, right: acc.right, bottom: acc.bottom, left: acc.left },
            );
        }
        Ok(acc.f)
    }
}

/// Once an attribute fails, the frame fails with its error.
pub proof fn lemma_frame_fold_err(b: Seq<(Seq<char>, Expr)>, attrs: Seq<AttrV>, k: nat, m: nat, init: FrameAccV)
    requires
        k <= m,
        frame_fold(b, attrs, k, init) is Err,
    ensures
        frame_fold(b, attrs, m, init) == frame_fold(b, attrs, k, init),
    decreases m,
{
    if m > k {
        lemma_frame_fold_err(b, attrs, k, (m - 1) as nat, init);
    }
}

} // verus!
