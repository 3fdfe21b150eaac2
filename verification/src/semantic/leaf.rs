use vstd::prelude::*;

use crate::ast::{attr_view, attrs_view, opt_view, AttrV, Attribute, Expr, NodeDecl};
use crate::error::{ErrorKind, ErrorView, PastelError};
use crate::ir::node::{ImageData, ShapeData, ShapeType, TextData, VisualProps};
use crate::ir::style::{Color, FillV, Shadow, Stroke};
use crate::ir::view::{
    image_view, no_visual, shape_view, stroke_view, text_view, ImageV, ShapeV, TextV, VisualV,
};
use crate::number::Decimal;
use crate::text::{copy_string, owned, str_eq};
use super::frame::{dashed, spanned, then_set};
use super::resolve::{
    color_spec, corners_spec, dimension_spec, f64_spec, font_weight_spec, hinted, shadow_spec,
    string_spec, stroke_spec, text_align_spec, unknown, unknown_msg, value_err, PropertyResolver,
};
use super::resolve_extra::{
    blend_mode_spec, bool_spec, image_fit_spec, stroke_dash_spec, text_decoration_spec,
    text_transform_spec,
};
use super::resolve_fill::fill_spec;

verus! {

// ---------------------------------------------------------------------------
// Text
// ---------------------------------------------------------------------------

/// One attribute of a text node applied; unknown attributes are ignored.
pub open spec fn text_step(b: Seq<(Seq<char>, Expr)>, t: TextV, a: AttrV) -> Result<TextV, ErrorView> {
    let k = a.key;
    let v = a.value;
    let sp = a.span;
    if k == "content"@ {
        then_set(string_spec(b, v), sp, |s: Seq<char>| TextV { content: s, ..t })
    } else if k == "size"@ || k == "font-size"@ {
        then_set(f64_spec(b, v), sp, |x: Decimal| TextV { font_size: Some(x), ..t })
    } else if k == "weight"@ || k == "font-weight"@ {
        then_set(font_weight_spec(b, v), sp, |w| TextV { font_weight: Some(w), ..t })
    } else if k == "font"@ || k == "family"@ || k == "font-family"@ {
        then_set(string_spec(b, v), sp, |s: Seq<char>| TextV { font_family: Some(s), ..t })
    } else if k == "color"@ {
        then_set(color_spec(b, v), sp, |c: Color| TextV { color: Some(c), ..t })
    } else if k == "align"@ || k == "text-align"@ {
        then_set(text_align_spec(b, v), sp, |x| TextV { text_align: Some(x), ..t })
    } else if k == "line-height"@ {
        then_set(f64_spec(b, v), sp, |x: Decimal| TextV { line_height: Some(x), ..t })
    } else if k == "width"@ {
        then_set(dimension_spec(b, v), sp, |d| TextV { width: Some(d), ..t })
    } else if k == "height"@ {
        then_set(dimension_spec(b, v), sp, |d| TextV { height: Some(d), ..t })
    } else if k == "wrap"@ {
        then_set(bool_spec(b, v), sp, |x: bool| TextV { wrap: Some(x), ..t })
    } else if k == "letter-spacing"@ {
        then_set(f64_spec(b, v), sp, |x: Decimal| TextV { letter_spacing: Some(x), ..t })
    } else if k == "text-decoration"@ {
        then_set(text_decoration_spec(b, v), sp, |x| TextV { text_decoration: Some(x), ..t })
    } else if k == "text-transform"@ {
        then_set(text_transform_spec(b, v), sp, |x| TextV { text_transform: Some(x), ..t })
    } else {
        Ok(t)
    }
}

pub open spec fn text_fold(b: Seq<(Seq<char>, Expr)>, attrs: Seq<AttrV>, n: nat, init: TextV) -> Result<TextV, ErrorView>
    decreases n,
{
    if n == 0 {
        Ok(init)
    } else {
        match text_fold(b, attrs, (n - 1) as nat, init) {
            Err(e) => Err(e),
            Ok(t) => text_step(b, t, attrs[n - 1]),
        }
    }
}

pub open spec fn text_init(label: Option<Seq<char>>) -> TextV {
    TextV {
        content: match label {
            Some(l) => l,
            None => Seq::empty(),
        },
        font_size: None,
        font_weight: None,
        font_family: None,
        color: None,
        text_align: None,
        line_height: None,
        width: None,
        height: None,
        wrap: None,
        letter_spacing: None,
        text_decoration: None,
        text_transform: None,
    }
}

/// The text that a node's label and attributes describe; its content is the
/// label unless a `content` attribute sets it.
pub open spec fn text_spec(b: Seq<(Seq<char>, Expr)>, label: Option<Seq<char>>, attrs: Seq<AttrV>) -> Result<TextV, ErrorView> {
    text_fold(b, attrs, attrs.len(), text_init(label))
}

// ---------------------------------------------------------------------------
// Images
// ---------------------------------------------------------------------------

pub open spec fn image_step(b: Seq<(Seq<char>, Expr)>, img: ImageV, a: AttrV) -> Result<ImageV, ErrorView> {
    let k = a.key;
    let v = a.value;
    let sp = a.span;
    if k == "width"@ {
        then_set(dimension_spec(b, v), sp, |d| ImageV { width: Some(d), ..img })
    } else if k == "height"@ {
        then_set(dimension_spec(b, v), sp, |d| ImageV { height: Some(d), ..img })
    } else if k == "radius"@ {
        then_set(corners_spec(b, v), sp, |c: Seq<Decimal>| ImageV { corner_radius: Some(c), ..img })
    } else if k == "shadow"@ {
        then_set(shadow_spec(b, v), sp, |s: Shadow| ImageV { shadow: Some(s), ..img })
    } else if k == "opacity"@ {
        then_set(f64_spec(b, v), sp, |x: Decimal| ImageV { opacity: Some(x), ..img })
    } else if k == "fit"@ {
        then_set(image_fit_spec(b, v), sp, |x| ImageV { fit: Some(x), ..img })
    } else {
        Ok(img)
    }
}

pub open spec fn image_fold(b: Seq<(Seq<char>, Expr)>, attrs: Seq<AttrV>, n: nat, init: ImageV) -> Result<ImageV, ErrorView>
    decreases n,
{
    if n == 0 {
        Ok(init)
    } else {
        match image_fold(b, attrs, (n - 1) as nat, init) {
            Err(e) => Err(e),
            Ok(img) => image_step(b, img, attrs[n - 1]),
        }
    }
}

pub open spec fn image_init(name: Option<Seq<char>>) -> ImageV {
    ImageV {
        name,
        asset: match name {
            Some(n) => n,
            None => Seq::empty(),
        },
        width: None,
        height: None,
        corner_radius: None,
        shadow: None,
        opacity: None,
        fit: None,
    }
}

/// The image that a node describes; it shows the asset of its own name.
pub open spec fn image_spec(b: Seq<(Seq<char>, Expr)>, name: Option<Seq<char>>, attrs: Seq<AttrV>) -> Result<ImageV, ErrorView> {
    image_fold(b, attrs, attrs.len(), image_init(name))
}

// ---------------------------------------------------------------------------
// Shapes
// ---------------------------------------------------------------------------

pub open spec fn shape_type_of(s: Seq<char>) -> Option<ShapeType> {
    if s == "rectangle"@ || s == "rect"@ {
        Some(ShapeType::Rectangle)
    } else if s == "ellipse"@ || s == "circle"@ {
        Some(ShapeType::Ellipse)
    } else if s == "line"@ {
        Some(ShapeType::Line)
    } else if s == "path"@ {
        Some(ShapeType::Path)
    } else {
        None
    }
}

pub open spec fn with_shape_visual(s: ShapeV, v: VisualV) -> ShapeV {
    ShapeV { visual: v, ..s }
}

pub open spec fn shape_step(b: Seq<(Seq<char>, Expr)>, s: ShapeV, a: AttrV) -> Result<ShapeV, ErrorView> {
    let k = a.key;
    let v = a.value;
    let sp = a.span;
    let vis = s.visual;
    if k == "type"@ {
        match string_spec(b, v) {
            Err(e) => Err(spanned(e, sp)),
            Ok(w) => match shape_type_of(w) {
                Some(t) => Ok(ShapeV { shape_type: t, ..s }),
                None => Err(
                    hinted(
                        spanned(value_err(unknown("unknown shape type"@, w)), sp),
                        "expected: rectangle, ellipse, line, path"@,
                    ),
                ),
            },
        }
    } else if k == "path"@ {
        then_set(string_spec(b, v), sp, |p: Seq<char>| ShapeV { shape_type: ShapeType::Path, path: Some(p), ..s })
    } else if k == "width"@ {
        then_set(dimension_spec(b, v), sp, |d| ShapeV { width: Some(d), ..s })
    } else if k == "height"@ {
        then_set(dimension_spec(b, v), sp, |d| ShapeV { height: Some(d), ..s })
    } else if k == "fill"@ {
        then_set(fill_spec(b, v), sp, |x: FillV| with_shape_visual(s, VisualV { fill: Some(x), ..vis }))
    } else if k == "stroke"@ {
        then_set(stroke_spec(b, v), sp, |x: Stroke| with_shape_visual(s, VisualV { stroke: Some(stroke_view(x)), ..vis }))
    } else if k == "stroke-dash"@ {
        then_set(stroke_dash_spec(b, v), sp, |d: Seq<Decimal>| with_shape_visual(s, VisualV { stroke: dashed(vis.stroke, d), ..vis }))
    } else if k == "radius"@ {
        then_set(corners_spec(b, v), sp, |c: Seq<Decimal>| with_shape_visual(s, VisualV { corner_radius: Some(c), ..vis }))
    } else if k == "shadow"@ {
        then_set(shadow_spec(b, v), sp, |x: Shadow| with_shape_visual(s, VisualV { shadow: Some(x), ..vis }))
    } else if k == "inner-shadow"@ {
        then_set(shadow_spec(b, v), sp, |x: Shadow| with_shape_visual(s, VisualV { inner_shadow: Some(x), ..vis }))
    } else if k == "opacity"@ {
        then_set(f64_spec(b, v), sp, |x: Decimal| with_shape_visual(s, VisualV { opacity: Some(x), ..vis }))
    } else if k == "blur"@ {
        then_set(f64_spec(b, v), sp, |x: Decimal| with_shape_visual(s, VisualV { blur: Some(x), ..vis }))
    } else if k == "blend"@ {
        then_set(blend_mode_spec(b, v), sp, |m| with_shape_visual(s, VisualV { blend: Some(m), ..vis }))
    } else if k == "rotation"@ {
        then_set(f64_spec(b, v), sp, |x: Decimal| ShapeV { rotation: Some(x), ..s })
    } else {
        Ok(s)
    }
}

pub open spec fn shape_fold(b: Seq<(Seq<char>, Expr)>, attrs: Seq<AttrV>, n: nat, init: ShapeV) -> Result<ShapeV, ErrorView>
    decreases n,
{
    if n == 0 {
        Ok(init)
    } else {
        match shape_fold(b, attrs, (n - 1) as nat, init) {
            Err(e) => Err(e),
            Ok(s) => shape_step(b, s, attrs[n - 1]),
        }
    }
}

pub open spec fn shape_init(name: Option<Seq<char>>) -> ShapeV {
    ShapeV {
        name,
        shape_type: ShapeType::Rectangle,
        path: None,
        width: None,
        height: None,
        rotation: None,
        visual: no_visual(),
    }
}

/// The shape that a node describes: a rectangle unless its `type` or `path`
/// says otherwise.
pub open spec fn shape_spec(b: Seq<(Seq<char>, Expr)>, name: Option<Seq<char>>, attrs: Seq<AttrV>) -> Result<ShapeV, ErrorView> {
    shape_fold(b, attrs, attrs.len(), shape_init(name))
}

pub proof fn lemma_text_fold_err(b: Seq<(Seq<char>, Expr)>, attrs: Seq<AttrV>, k: nat, m: nat, init: TextV)
    requires
        k <= m,
        text_fold(b, attrs, k, init) is Err,
    ensures
        text_fold(b, attrs, m, init) == text_fold(b, attrs, k, init),
    decreases m,
{
    if m > k {
        lemma_text_fold_err(b, attrs, k, (m - 1) as nat, init);
    }
}

pub proof fn lemma_image_fold_err(b: Seq<(Seq<char>, Expr)>, attrs: Seq<AttrV>, k: nat, m: nat, init: ImageV)
    requires
        k <= m,
        image_fold(b, attrs, k, init) is Err,
    ensures
        image_fold(b, attrs, m, init) == image_fold(b, attrs, k, init),
    decreases m,
{
    if m > k {
        lemma_image_fold_err(b, attrs, k, (m - 1) as nat, init);
    }
}

pub proof fn lemma_shape_fold_err(b: Seq<(Seq<char>, Expr)>, attrs: Seq<AttrV>, k: nat, m: nat, init: ShapeV)
    requires
        k <= m,
        shape_fold(b, attrs, k, init) is Err,
    ensures
        shape_fold(b, attrs, m, init) == shape_fold(b, attrs, k, init),
    decreases m,
{
    if m > k {
        lemma_shape_fold_err(b, attrs, k, (m - 1) as nat, init);
    }
}

impl<'a> PropertyResolver<'a> {
    /// One attribute of a text node applied.
    pub fn text_step(&self, t: &mut TextData, a: &Attribute) -> (r: Result<(), PastelError>)
        ensures
            match r {
                Ok(_) => text_step(self.bindings(), text_view(*old(t)), attr_view(*a)) == Ok::<TextV, ErrorView>(text_view(*final(t))),
                Err(e) => text_step(self.bindings(), text_view(*old(t)), attr_view(*a)) == Err::<TextV, ErrorView>(e@),
            },
    {
        let k = a.key.as_str();
        let v = &a.value;
        if str_eq(k, "content") {
            match self.resolve_string(v) {
                Ok(s) => t.content = s,
                Err(e) => return Err(e.with_span(a.span)),
            }
        } else if str_eq(k, "size") || str_eq(k, "font-size") {
            match self.resolve_f64(v) {
                Ok(x) => t.font_size = Some(x),
                Err(e) => return Err(e.with_span(a.span)),
            }
        } else if str_eq(k, "weight") || str_eq(k, "font-weight") {
            match self.resolve_font_weight(v) {
                Ok(w) => t.font_weight = Some(w),
                Err(e) => return Err(e.with_span(a.span)),
            }
        } else if str_eq(k, "font") || str_eq(k, "family") || str_eq(k, "font-family") {
            match self.resolve_string(v) {
                Ok(s) => t.font_family = Some(s),
                Err(e) => return Err(e.with_span(a.span)),
            }
        } else if str_eq(k, "color") {
            match self.resolve_color(v) {
                Ok(c) => t.color = Some(c),
                Err(e) => return Err(e.with_span(a.span)),
            }
        } else if str_eq(k, "align") || str_eq(k, "text-align") {
            match self.resolve_text_align(v) {
                Ok(x) => t.text_align = Some(x),
                Err(e) => return Err(e.with_span(a.span)),
            }
        } else if str_eq(k, "line-height") {
            match self.resolve_f64(v) {
                Ok(x) => t.line_height = Some(x),
                Err(e) => return Err(e.with_span(a.span)),
            }
        } else if str_eq(k, "width") {
            match self.resolve_dimension(v) {
                Ok(d) => t.width = Some(d),
                Err(e) => return Err(e.with_span(a.span)),
            }
        } else if str_eq(k, "height") {
            match self.resolve_dimension(v) {
                Ok(d) => t.height = Some(d),
                Err(e) => return Err(e.with_span(a.span)),
            }
        } else if str_eq(k, "wrap") {
            match self.resolve_bool(v) {
                Ok(x) => t.wrap = Some(x),
                Err(e) => return Err(e.with_span(a.span)),
            }
        } else if str_eq(k, "letter-spacing") {
            match self.resolve_f64(v) {
                Ok(x) => t.letter_spacing = Some(x),
                Err(e) => return Err(e.with_span(a.span)),
            }
        } else if str_eq(k, "text-decoration") {
            match self.resolve_text_decoration(v) {
                Ok(x) => t.text_decoration = Some(x),
                Err(e) => return Err(e.with_span(a.span)),
            }
        } else if str_eq(k, "text-transform") {
            match self.resolve_text_transform(v) {
                Ok(x) => t.text_transform = Some(x),
                Err(e) => return Err(e.with_span(a.span)),
            }
        }
        Ok(())
    }

    /// The text that a node's label and attributes describe.
    pub fn build_text(&self, node: &NodeDecl) -> (r: Result<TextData, PastelError>)
        ensures
            match r {
                Ok(t) => text_spec(self.bindings(), opt_view(node.label), attrs_view(node.attrs@)) == Ok::<TextV, ErrorView>(text_view(t)),
                Err(e) => text_spec(self.bindings(), opt_view(node.label), attrs_view(node.attrs@)) == Err::<TextV, ErrorView>(e@),
            },
    {
        let content = match &node.label {
            Some(l) => copy_string(l),
            None => String::new(),
        };
        let mut t = TextData {
            content,
            font_size: None,
            font_weight: None,
            font_family: None,
            color: None,
            text_align: None,
            line_height: None,
            width: None,
            height: None,
            wrap: None,
            letter_spacing: None,
            text_decoration: None,
            text_transform: None,
        };
        let ghost b = self.bindings();
        let ghost av = attrs_view(node.attrs@);
        let ghost init = text_view(t);
        proof {
            assert(init == text_init(opt_view(node.label)));
        }
        let mut i: usize = 0;
        while i < node.attrs.len()
            invariant
                i <= node.attrs.len(),
                b == self.bindings(),
                av == attrs_view(node.attrs@),
                init == text_init(opt_view(node.label)),
                text_fold(b, av, i as nat, init) == Ok::<TextV, ErrorView>(text_view(t)),
            decreases node.attrs.len() - i,
        {
            match self.text_step(&mut t, &node.attrs[i]) {
                Ok(_) => {},
                Err(e) => {
                    proof {
                        lemma_text_fold_err(b, av, (i + 1) as nat, av.len(), init);
                    }
                    return Err(e);
                },
            }
            i = i + 1;
        }
        Ok(t)
    }

    pub fn image_step(&self, img: &mut ImageData, a: &Attribute) -> (r: Result<(), PastelError>)
        ensures
            match r {
                Ok(_) => image_step(self.bindings(), image_view(*old(img)), attr_view(*a)) == Ok::<ImageV, ErrorView>(image_view(*final(img))),
                Err(e) => image_step(self.bindings(), image_view(*old(img)), attr_view(*a)) == Err::<ImageV, ErrorView>(e@),
            },
    {
        let k = a.key.as_str();
        let v = &a.value;
        if str_eq(k, "width") {
            match self.resolve_dimension(v) {
                Ok(d) => img.width = Some(d),
                Err(e) => return Err(e.with_span(a.span)),
            }
        } else if str_eq(k, "height") {
            match self.resolve_dimension(v) {
                Ok(d) => img.height = Some(d),
                Err(e) => return Err(e.with_span(a.span)),
            }
        } else if str_eq(k, "radius") {
            match self.resolve_corners(v) {
                Ok(c) => img.corner_radius = Some(c),
                Err(e) => return Err(e.with_span(a.span)),
            }
        } else if str_eq(k, "shadow") {
            match self.resolve_shadow(v) {
                Ok(s) => img.shadow = Some(s),
                Err(e) => return Err(e.with_span(a.span)),
            }
        } else if str_eq(k, "opacity") {
            match self.resolve_f64(v) {
                Ok(x) => img.opacity = Some(x),
                Err(e) => return Err(e.with_span(a.span)),
            }
        } else if str_eq(k, "fit") {
            match self.resolve_image_fit(v) {
                Ok(x) => img.fit = Some(x),
                Err(e) => return Err(e.with_span(a.span)),
            }
        }
        Ok(())
    }

    /// The image that a node describes.
    pub fn build_image(&self, node: &NodeDecl) -> (r: Result<ImageData, PastelError>)
        ensures
            match r {
                Ok(img) => image_spec(self.bindings(), opt_view(node.name), attrs_view(node.attrs@)) == Ok::<ImageV, ErrorView>(image_view(img)),
                Err(e) => image_spec(self.bindings(), opt_view(node.name), attrs_view(node.attrs@)) == Err::<ImageV, ErrorView>(e@),
            },
    {
        let name = match &node.name {
            Some(n) => Some(copy_string(n)),
            None => None,
        };
        let asset = match &node.name {
            Some(n) => copy_string(n),
            None => String::new(),
        };
        let mut img = ImageData {
            name,
            asset,
            width: None,
            height: None,
            corner_radius: None,
            shadow: None,
            opacity: None,
            fit: None,
        };
        let ghost b = self.bindings();
        let ghost av = attrs_view(node.attrs@);
        let ghost init = image_view(img);
        proof {
            assert(init == image_init(opt_view(node.name)));
        }
        let mut i: usize = 0;
        while i < node.attrs.len()
            invariant
                i <= node.attrs.len(),
                b == self.bindings(),
                av == attrs_view(node.attrs@),
                init == image_init(opt_view(node.name)),
                image_fold(b, av, i as nat, init) == Ok::<ImageV, ErrorView>(image_view(img)),
            decreases node.attrs.len() - i,
        {
            match self.image_step(&mut img, &node.attrs[i]) {
                Ok(_) => {},
                Err(e) => {
                    proof {
                        lemma_image_fold_err(b, av, (i + 1) as nat, av.len(), init);
                    }
                    return Err(e);
                },
            }
            i = i + 1;
        }
        Ok(img)
    }

    pub fn shape_step(&self, s: &mut ShapeData, a: &Attribute) -> (r: Result<(), PastelError>)
        ensures
            match r {
                Ok(_) => shape_step(self.bindings(), shape_view(*old(s)), attr_view(*a)) == Ok::<ShapeV, ErrorView>(shape_view(*final(s))),
                Err(e) => shape_step(self.bindings(), shape_view(*old(s)), attr_view(*a)) == Err::<ShapeV, ErrorView>(e@),
            },
    {
        let k = a.key.as_str();
        let v = &a.value;
        if str_eq(k, "type") {
            let w = match self.resolve_string(v) {
                Ok(w) => w,
                Err(e) => return Err(e.with_span(a.span)),
            };
            let t = w.as_str();
            if str_eq(t, "rectangle") || str_eq(t, "rect") {
                s.shape_type = ShapeType::Rectangle;
            } else if str_eq(t, "ellipse") || str_eq(t, "circle") {
                s.shape_type = ShapeType::Ellipse;
            } else if str_eq(t, "line") {
                s.shape_type = ShapeType::Line;
            } else if str_eq(t, "path") {
                s.shape_type = ShapeType::Path;
            } else {
                return Err(
                    PastelError::new(ErrorKind::InvalidValue, unknown_msg("unknown shape type", t)).with_span(
                        a.span,
                    ).with_hint(owned("expected: rectangle, ellipse, line, path")),
                );
            }
        } else if str_eq(k, "path") {
            match self.resolve_string(v) {
                Ok(p) => {
                    s.shape_type = ShapeType::Path;
                    s.path = Some(p);
                },
                Err(e) => return Err(e.with_span(a.span)),
            }
        } else if str_eq(k, "width") {
            match self.resolve_dimension(v) {
                Ok(d) => s.width = Some(d),
                Err(e) => return Err(e.with_span(a.span)),
            }
        } else if str_eq(k, "height") {
            match self.resolve_dimension(v) {
                Ok(d) => s.height = Some(d),
                Err(e) => return Err(e.with_span(a.span)),
            }
        } else if str_eq(k, "fill") {
            match self.resolve_fill(v) {
                Ok(x) => s.visual.fill = Some(x),
                Err(e) => return Err(e.with_span(a.span)),
            }
        } else if str_eq(k, "stroke") {
            match self.resolve_stroke(v) {
                Ok(x) => s.visual.stroke = Some(x),
                Err(e) => return Err(e.with_span(a.span)),
            }
        } else if str_eq(k, "stroke-dash") {
            match self.resolve_stroke_dash(v) {
                Ok(d) => {
                    match s.visual.stroke {
                        Some(st) => {
                            s.visual.stroke = Some(Stroke { dash: Some(d), ..st });
                        },
                        None => {},
                    }
                },
                Err(e) => return Err(e.with_span(a.span)),
            }
        } else if str_eq(k, "radius") {
            match self.resolve_corners(v) {
                Ok(c) => s.visual.corner_radius = Some(c),
                Err(e) => return Err(e.with_span(a.span)),
            }
        } else if str_eq(k, "shadow") {
            match self.resolve_shadow(v) {
                Ok(x) => s.visual.shadow = Some(x),
                Err(e) => return Err(e.with_span(a.span)),
            }
        } else if str_eq(k, "inner-shadow") {
            match self.resolve_shadow(v) {
                Ok(x) => s.visual.inner_shadow = Some(x),
                Err(e) => return Err(e.with_span(a.span)),
            }
        } else if str_eq(k, "opacity") {
            match self.resolve_f64(v) {
                Ok(x) => s.visual.opacity = Some(x),
                Err(e) => return Err(e.with_span(a.span)),
            }
        } else if str_eq(k, "blur") {
            match self.resolve_f64(v) {
                Ok(x) => s.visual.blur = Some(x),
                Err(e) => return Err(e.with_span(a.span)),
            }
        } else if str_eq(k, "blend") {
            match self.resolve_blend_mode(v) {
                Ok(m) => s.visual.blend = Some(m),
                Err(e) => return Err(e.with_span(a.span)),
            }
        } else if str_eq(k, "rotation") {
            match self.resolve_f64(v) {
                Ok(x) => s.rotation = Some(x),
                Err(e) => return Err(e.with_span(a.span)),
            }
        }
        Ok(())
    }

    /// The shape that a node describes.
    pub fn build_shape(&self, node: &NodeDecl) -> (r: Result<ShapeData, PastelError>)
        ensures
            match r {
                Ok(s) => shape_spec(self.bindings(), opt_view(node.name), attrs_view(node.attrs@)) == Ok::<ShapeV, ErrorView>(shape_view(s)),
                Err(e) => shape_spec(self.bindings(), opt_view(node.name), attrs_view(node.attrs@)) == Err::<ShapeV, ErrorView>(e@),
            },
    {
        let name = match &node.name {
            Some(n) => Some(copy_string(n)),
            None => None,
        };
        let mut s = ShapeData {
            name,
            shape_type: ShapeType::Rectangle,
            path: None,
            width: None,
            height: None,
            rotation: None,
            visual: VisualProps::empty(),
        };
        let ghost b = self.bindings();
        let ghost av = attrs_view(node.attrs@);
        let ghost init = shape_view(s);
        proof {
            assert(init == shape_init(opt_view(node.name)));
        }
        let mut i: usize = 0;
        while i < node.attrs.len()
            invariant
                i <= node.attrs.len(),
                b == self.bindings(),
                av == attrs_view(node.attrs@),
                init == shape_init(opt_view(node.name)),
                shape_fold(b, av, i as nat, init) == Ok::<ShapeV, ErrorView>(shape_view(s)),
            decreases node.attrs.len() - i,
        {
            match self.shape_step(&mut s, &node.attrs[i]) {
                Ok(_) => {},
                Err(e) => {
                    proof {
                        lemma_shape_fold_err(b, av, (i + 1) as nat, av.len(), init);
                    }
                    return Err(e);
                },
            }
            i = i + 1;
        }
        Ok(s)
    }
}

} // verus!
