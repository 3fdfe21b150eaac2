use vstd::prelude::*;

use crate::ir::extra::css_weight;
use crate::ir::node::{FrameData, IrNode, IrNodeData, ImageData, TextData};
use crate::ir::style::{
    color_hex, Align, Dimension, Fill, GradientStop, ImageFit, Justify, Layout, LayoutMode, TextAlign,
};
use crate::ir::IrDocument;
use crate::number::{decimal_chars, pow10, Decimal};
use crate::text::{chars_of, nat_digits, push_char, push_nat, push_str};
use super::tokens::{css_text, generate_css};

verus! {

// ---------------------------------------------------------------------------
// A standalone HTML page of a design
// ---------------------------------------------------------------------------

/// Parts joined by a separator.
pub open spec fn join(parts: Seq<Seq<char>>, sep: Seq<char>) -> Seq<char>
    decreases parts.len(),
{
    if parts.len() == 0 {
        Seq::empty()
    } else if parts.len() == 1 {
        parts[0]
    } else {
        join(parts.drop_last(), sep) + sep + parts.last()
    }
}

/// The part when there is one.
pub open spec fn opt_part(p: Option<Seq<char>>) -> Seq<Seq<char>> {
    match p {
        Some(x) => seq![x],
        None => Seq::empty(),
    }
}

pub open spec fn dim_val(d: Dimension) -> Seq<char> {
    match d {
        Dimension::Fixed(n) => decimal_chars(n) + "px"@,
        Dimension::Fill => "100%"@,
        Dimension::Hug => "fit-content"@,
    }
}

/// The CSS of an image's size; the height is written as a width too.
pub open spec fn dim_css(d: Option<Dimension>) -> Seq<char> {
    match d {
        Some(x) => "width:"@ + dim_val(x) + ";"@,
        None => Seq::empty(),
    }
}

pub open spec fn stop_css(s: GradientStop) -> Seq<char> {
    color_hex(s.color) + " "@ + decimal_chars(s.position) + "%"@
}

pub open spec fn stops_css(s: Seq<GradientStop>) -> Seq<char> {
    join(s.map_values(|x: GradientStop| stop_css(x)), ","@)
}

pub open spec fn fill_css(f: Fill) -> Seq<char> {
    match f {
        Fill::Solid { color } => "background:"@ + color_hex(color),
        Fill::LinearGradient { angle, stops } => "background:linear-gradient("@ + decimal_chars(angle) + "deg,"@
            + stops_css(stops@) + ")"@,
        Fill::RadialGradient { stops, .. } => "background:radial-gradient(circle,"@ + stops_css(stops@) + ")"@,
        Fill::Transparent => "background:transparent"@,
    }
}

pub open spec fn align_css(a: Align) -> Seq<char> {
    match a {
        Align::Start => "flex-start"@,
        Align::Center => "center"@,
        Align::End => "flex-end"@,
        Align::Stretch => "stretch"@,
    }
}

pub open spec fn justify_css(j: Justify) -> Seq<char> {
    match j {
        Justify::Start => "flex-start"@,
        Justify::Center => "center"@,
        Justify::End => "flex-end"@,
        Justify::SpaceBetween => "space-between"@,
        Justify::SpaceAround => "space-around"@,
    }
}

pub open spec fn fit_css(f: ImageFit) -> Seq<char> {
    match f {
        ImageFit::Cover => "cover"@,
        ImageFit::Contain => "contain"@,
        ImageFit::Fill => "fill"@,
        ImageFit::NoFit => "none"@,
    }
}

/// Four numbers as pixels: "Apx Bpx Cpx Dpx".
pub open spec fn four_px(v: Seq<Decimal>) -> Seq<char> {
    decimal_chars(v[0]) + "px "@ + decimal_chars(v[1]) + "px "@ + decimal_chars(v[2]) + "px "@ + decimal_chars(v[3]) + "px"@
}

/// Whether a number is below one.
pub open spec fn below_one(d: Decimal) -> bool {
    d.mant() < pow10(d.scl() as nat)
}

/// The declarations of a frame's layout.
pub open spec fn layout_parts(f: FrameData) -> Seq<Seq<char>> {
    match f.layout {
        Some(l) => {
            let mode: Seq<Seq<char>> = match l.mode {
                LayoutMode::Horizontal => seq!["display:flex"@],
                LayoutMode::Vertical => seq!["display:flex"@, "flex-direction:column"@],
                LayoutMode::Grid => seq!["display:grid"@] + opt_part(
                    match l.columns {
                        Some(c) => Some("grid-template-columns:repeat("@ + nat_digits(c as nat) + ",1fr)"@),
                        None => None,
                    },
                ),
            };
            mode + opt_part(
                match l.gap {
                    Some(g) => Some("gap:"@ + decimal_chars(g) + "px"@),
                    None => None,
                },
            ) + opt_part(
                match l.align {
                    Some(a) => Some("align-items:"@ + align_css(a)),
                    None => None,
                },
            ) + opt_part(
                match l.justify {
                    Some(j) => Some("justify-content:"@ + justify_css(j)),
                    None => None,
                },
            )
        },
        None => Seq::empty(),
    }
}

/// The declarations of a frame's look.
pub open spec fn visual_parts(f: FrameData) -> Seq<Seq<char>> {
    let v = f.visual;
    opt_part(
        match v.fill {
            Some(x) => Some(fill_css(x)),
            None => None,
        },
    ) + opt_part(
        match v.stroke {
            Some(s) => Some("border:"@ + decimal_chars(s.width) + "px solid "@ + color_hex(s.color)),
            None => None,
        },
    ) + opt_part(
        match v.corner_radius {
            Some(r) => Some("border-radius:"@ + four_px(r.0@)),
            None => None,
        },
    ) + opt_part(
        match v.shadow {
            Some(sh) => Some(
                "box-shadow:"@ + decimal_chars(sh.x) + "px "@ + decimal_chars(sh.y) + "px "@ + decimal_chars(sh.blur)
                    + "px "@ + color_hex(sh.color),
            ),
            None => None,
        },
    ) + opt_part(
        match v.opacity {
            Some(o) => if below_one(o) { Some("opacity:"@ + decimal_chars(o)) } else { None },
            None => None,
        },
    )
}

/// The inline style of a frame.
#[verifier::opaque]
pub open spec fn frame_style_spec(f: FrameData) -> Seq<char> {
    join(
        opt_part(
            match f.width {
                Some(w) => Some("width:"@ + dim_val(w)),
                None => None,
            },
        ) + opt_part(
            match f.height {
                Some(h) => Some("height:"@ + dim_val(h)),
                None => None,
            },
        ) + opt_part(
            match f.padding {
                Some(p) => Some("padding:"@ + four_px(p.0@)),
                None => None,
            },
        ) + layout_parts(f) + visual_parts(f),
        ";"@,
    )
}

pub open spec fn text_align_word(a: TextAlign) -> Seq<char> {
    match a {
        TextAlign::Left => "left"@,
        TextAlign::Center => "center"@,
        TextAlign::Right => "right"@,
    }
}

pub open spec fn size_part(t: TextData) -> Option<Seq<char>> {
    match t.font_size {
        Some(fs) => Some("font-size:"@ + decimal_chars(fs) + "px"@),
        None => None,
    }
}

pub open spec fn weight_part(t: TextData) -> Option<Seq<char>> {
    match t.font_weight {
        Some(w) => Some("font-weight:"@ + nat_digits(css_weight(w) as nat)),
        None => None,
    }
}

pub open spec fn family_part(t: TextData) -> Option<Seq<char>> {
    match t.font_family {
        Some(f) => Some("font-family:'"@ + f@ + "'"@),
        None => None,
    }
}

pub open spec fn color_part(t: TextData) -> Option<Seq<char>> {
    match t.color {
        Some(c) => Some("color:"@ + color_hex(c)),
        None => None,
    }
}

pub open spec fn align_part(t: TextData) -> Option<Seq<char>> {
    match t.text_align {
        Some(a) => Some("text-align:"@ + text_align_word(a)),
        None => None,
    }
}

pub open spec fn line_height_part(t: TextData) -> Option<Seq<char>> {
    match t.line_height {
        Some(lh) => Some("line-height:"@ + decimal_chars(lh) + "px"@),
        None => None,
    }
}

pub open spec fn spacing_part(t: TextData) -> Option<Seq<char>> {
    match t.letter_spacing {
        Some(ls) => Some("letter-spacing:"@ + decimal_chars(ls) + "px"@),
        None => None,
    }
}

/// The inline style of a text.
#[verifier::opaque]
pub open spec fn text_style_spec(t: TextData) -> Seq<char> {
    join(
        opt_part(size_part(t)) + opt_part(weight_part(t)) + opt_part(family_part(t)) + opt_part(color_part(t))
            + opt_part(align_part(t)) + opt_part(line_height_part(t)) + opt_part(spacing_part(t)),
        ";"@,
    )
}

/// A character with `&`, `<` and `>` written as entities.
pub open spec fn escape_char_html(c: char) -> Seq<char> {
    if c == '&' {
        "&amp;"@
    } else if c == '<' {
        "&lt;"@
    } else if c == '>' {
        "&gt;"@
    } else {
        seq![c]
    }
}

pub open spec fn escape_html_spec(s: Seq<char>) -> Seq<char>
    decreases s.len(),
{
    if s.len() == 0 {
        Seq::empty()
    } else {
        escape_html_spec(s.drop_last()) + escape_char_html(s.last())
    }
}

/// A node as HTML, each line indented by `pad`, its children by two spaces
/// more.
pub open spec fn render_spec(n: IrNode, pad: Seq<char>) -> Seq<char>
    decreases n, 1int,
{
    match n.data {
        IrNodeData::Frame(f) => {
            proof {
                assert(decreases_to!(n => n.children));
                assert(decreases_to!(n.children => n.children@));
            }
            pad + "<div style=\""@ + frame_style_spec(f) + "\">\n"@ + render_list(n.children@, pad + "  "@) + pad
                + "</div>\n"@
        },
        IrNodeData::Text(t) => {
            let tag: Seq<char> = if t.wrap == Some(true) { "p"@ } else { "span"@ };
            pad + "<"@ + tag + " style=\""@ + text_style_spec(t) + "\">"@ + escape_html_spec(t.content@) + "</"@ + tag
                + ">\n"@
        },
        IrNodeData::Image(img) => {
            let fit: Seq<char> = match img.fit {
                Some(f) => "object-fit:"@ + fit_css(f) + ";"@,
                None => Seq::empty(),
            };
            let alt: Seq<char> = match img.name {
                Some(x) => x@,
                None => "image"@,
            };
            pad + "<img src=\"\" alt=\""@ + alt + "\" style=\""@ + dim_css(img.width) + dim_css(img.height) + fit
                + "\" />\n"@
        },
        IrNodeData::Shape(_) => pad + "<div style=\"/* shape */\"></div>\n"@,
    }
}

pub open spec fn render_list(s: Seq<IrNode>, pad: Seq<char>) -> Seq<char>
    decreases s, 0int,
{
    if s.len() == 0 {
        Seq::empty()
    } else {
        proof {
            assert(decreases_to!(s => s[s.len() - 1]));
        }
        render_list(s.drop_last(), pad) + render_spec(s.last(), pad)
    }
}

/// The nodes shown: those of the first page when there are pages, else the
/// top-level ones.
pub open spec fn shown_nodes(ir: IrDocument) -> Seq<IrNode> {
    if ir.pages@.len() == 0 { ir.nodes@ } else { ir.pages@[0].nodes@ }
}

/// The page: the token CSS and the base styles in the head, the nodes in
/// the body.
pub open spec fn html_spec(ir: IrDocument) -> Seq<char> {
    let bg: Seq<char> = match ir.canvas.background {
        Some(c) => color_hex(c),
        None => "#FFFFFF"@,
    };
    "<!DOCTYPE html>\n<html lang=\"en\">\n<head>\n<meta charset=\"UTF-8\">\n<meta name=\"viewport\" content=\"width=device-width, initial-scale=1.0\">\n<title>"@
        + ir.canvas.name@ + "</title>\n<style>\n"@ + css_text(ir.tokens@)
        + "\n* { margin: 0; padding: 0; box-sizing: border-box; }\nbody { background: "@ + bg + "; width: "@
        + nat_digits(ir.canvas.width as nat) + "px; min-height: "@ + nat_digits(ir.canvas.height as nat)
        + "px; font-family: -apple-system, sans-serif; }\n</style>\n</head>\n<body>\n"@ + render_list(
        shown_nodes(ir),
        "    "@,
    ) + "</body>\n</html>\n"@
}

/// Appends parts joined by a separator.
fn push_join(s: &mut String, parts: &Vec<String>, sep: &str)
    ensures
        final(s)@ == old(s)@ + join(parts@.map_values(|p: String| p@), sep@),
{
    let ghost pv = parts@.map_values(|p: String| p@);
    let ghost start = s@;
    let mut i: usize = 0;
    while i < parts.len()
        invariant
            i <= parts.len(),
            pv == parts@.map_values(|p: String| p@),
            s@ == start + join(pv.subrange(0, i as int), sep@),
        decreases parts.len() - i,
    {
        if i > 0 {
            push_str(s, sep);
        }
        push_str(s, parts[i].as_str());
        proof {
            let sub = pv.subrange(0, i + 1);
            assert(sub.drop_last() =~= pv.subrange(0, i as int));
            assert(s@ =~= start + join(sub, sep@));
        }
        i = i + 1;
    }
    proof {
        assert(pv.subrange(0, parts.len() as int) =~= pv);
    }
}

/// The texts of parts.
pub open spec fn parts_view(v: Seq<String>) -> Seq<Seq<char>> {
    v.map_values(|p: String| p@)
}

/// Adds a part.
fn add_part(parts: &mut Vec<String>, p: String)
    ensures
        parts_view(final(parts)@) == parts_view(old(parts)@).push(p@),
{
    let ghost before = parts@;
    parts.push(p);
    proof {
        assert(parts_view(parts@) =~= parts_view(before).push(p@));
    }
}

fn dim_val_string(d: &Dimension) -> (r: String)
    ensures
        r@ == dim_val(*d),
{
    match d {
        Dimension::Fixed(n) => {
            let mut s = n.to_text();
            push_str(&mut s, "px");
            s
        },
        Dimension::Fill => crate::text::owned("100%"),
        Dimension::Hug => crate::text::owned("fit-content"),
    }
}

fn push_dim_css(s: &mut String, d: &Option<Dimension>)
    ensures
        final(s)@ == old(s)@ + dim_css(*d),
{
    match d {
        Some(x) => {
            push_str(s, "width:");
            let v = dim_val_string(x);
            push_str(s, v.as_str());
            push_str(s, ";");
        },
        None => {},
    }
    proof {
        assert(final(s)@ =~= old(s)@ + dim_css(*d));
    }
}

fn push_stops(s: &mut String, stops: &Vec<GradientStop>)
    ensures
        final(s)@ == old(s)@ + stops_css(stops@),
{
    let mut parts: Vec<String> = Vec::new();
    let mut i: usize = 0;
    while i < stops.len()
        invariant
            i <= stops.len(),
            parts.len() == i,
            forall|k: int| 0 <= k < i ==> #[trigger] parts@[k]@ == stop_css(stops@[k]),
        decreases stops.len() - i,
    {
        let st = stops[i];
        let mut p = st.color.to_hex();
        push_str(&mut p, " ");
        st.position.push_text(&mut p);
        push_str(&mut p, "%");
        proof {
            assert(p@ =~= stop_css(st));
        }
        parts.push(p);
        i = i + 1;
    }
    proof {
        assert(parts_view(parts@) =~= stops@.map_values(|x: GradientStop| stop_css(x)));
    }
    push_join(s, &parts, ",");
}

fn fill_string(f: &Fill) -> (r: String)
    ensures
        r@ == fill_css(*f),
{
    let mut s = String::new();
    match f {
        Fill::Solid { color } => {
            push_str(&mut s, "background:");
            let h = color.to_hex();
            push_str(&mut s, h.as_str());
        },
        Fill::LinearGradient { angle, stops } => {
            push_str(&mut s, "background:linear-gradient(");
            angle.push_text(&mut s);
            push_str(&mut s, "deg,");
            push_stops(&mut s, stops);
            push_str(&mut s, ")");
        },
        Fill::RadialGradient { stops, .. } => {
            push_str(&mut s, "background:radial-gradient(circle,");
            push_stops(&mut s, stops);
            push_str(&mut s, ")");
        },
        Fill::Transparent => {
            push_str(&mut s, "background:transparent");
        },
    }
    proof {
        assert(s@ =~= fill_css(*f));
    }
    s
}

fn four_px_string(v: &[Decimal; 4]) -> (r: String)
    ensures
        r@ == four_px(v@),
{
    let mut s = String::new();
    v[0].push_text(&mut s);
    push_str(&mut s, "px ");
    v[1].push_text(&mut s);
    push_str(&mut s, "px ");
    v[2].push_text(&mut s);
    push_str(&mut s, "px ");
    v[3].push_text(&mut s);
    push_str(&mut s, "px");
    proof {
        assert(s@ =~= four_px(v@));
    }
    s
}

/// A number followed by a unit.
fn with_unit(prefix: &str, d: &Decimal, unit: &str) -> (r: String)
    ensures
        r@ == prefix@ + decimal_chars(*d) + unit@,
{
    let mut s = crate::text::owned(prefix);
    d.push_text(&mut s);
    push_str(&mut s, unit);
    s
}

/// A prefix followed by a text.
fn with_text(prefix: &str, t: &str) -> (r: String)
    ensures
        r@ == prefix@ + t@,
{
    let mut s = crate::text::owned(prefix);
    push_str(&mut s, t);
    s
}

fn is_below_one(d: &Decimal) -> (b: bool)
    ensures
        b == below_one(*d),
{
    let scale = d.scale();
    let p = crate::number::pow10_u64(scale);
    let m = d.mantissa();
    m < 0 || (m as u64) < p
}

fn layout_strings(f: &FrameData, parts: &mut Vec<String>)
    ensures
        parts_view(final(parts)@) == parts_view(old(parts)@) + layout_parts(*f),
{
    let ghost start = parts_view(parts@);
    match &f.layout {
        Some(l) => {
            match l.mode {
                LayoutMode::Horizontal => add_part(parts, crate::text::owned("display:flex")),
                LayoutMode::Vertical => {
                    add_part(parts, crate::text::owned("display:flex"));
                    add_part(parts, crate::text::owned("flex-direction:column"));
                },
                LayoutMode::Grid => {
                    add_part(parts, crate::text::owned("display:grid"));
                    match l.columns {
                        Some(c) => {
                            let mut p = crate::text::owned("grid-template-columns:repeat(");
                            push_nat(&mut p, c as u64);
                            push_str(&mut p, ",1fr)");
                            add_part(parts, p);
                        },
                        None => {},
                    }
                },
            }
            match l.gap {
                Some(g) => add_part(parts, with_unit("gap:", &g, "px")),
                None => {},
            }
            match l.align {
                Some(a) => {
                    let w = match a {
                        Align::Start => "flex-start",
                        Align::Center => "center",
                        Align::End => "flex-end",
                        Align::Stretch => "stretch",
                    };
                    add_part(parts, with_text("align-items:", w));
                },
                None => {},
            }
            match l.justify {
                Some(j) => {
                    let w = match j {
                        Justify::Start => "flex-start",
                        Justify::Center => "center",
                        Justify::End => "flex-end",
                        Justify::SpaceBetween => "space-between",
                        Justify::SpaceAround => "space-around",
                    };
                    add_part(parts, with_text("justify-content:", w));
                },
                None => {},
            }
        },
        None => {},
    }
    proof {
        assert(parts_view(parts@) =~= start + layout_parts(*f));
    }
}

fn visual_strings(f: &FrameData, parts: &mut Vec<String>)
    ensures
        parts_view(final(parts)@) == parts_view(old(parts)@) + visual_parts(*f),
{
    let ghost start = parts_view(parts@);
    let v = &f.visual;
    match &v.fill {
        Some(x) => add_part(parts, fill_string(x)),
        None => {},
    }
    match &v.stroke {
        Some(st) => {
            let mut p = with_unit("border:", &st.width, "px solid ");
            let h = st.color.to_hex();
            push_str(&mut p, h.as_str());
            add_part(parts, p);
        },
        None => {},
    }
    match &v.corner_radius {
        Some(r) => {
            let q = four_px_string(&r.0);
            add_part(parts, with_text("border-radius:", q.as_str()));
        },
        None => {},
    }
    match &v.shadow {
        Some(sh) => {
            let mut p = with_unit("box-shadow:", &sh.x, "px ");
            sh.y.push_text(&mut p);
            push_str(&mut p, "px ");
            sh.blur.push_text(&mut p);
            push_str(&mut p, "px ");
            let h = sh.color.to_hex();
            push_str(&mut p, h.as_str());
            add_part(parts, p);
        },
        None => {},
    }
    match &v.opacity {
        Some(o) => {
            if is_below_one(o) {
                add_part(parts, with_unit("opacity:", o, ""));
            }
        },
        None => {},
    }
    proof {
        reveal_strlit("");
        assert(parts_view(parts@) =~= start + visual_parts(*f));
    }
}

fn frame_style(f: &FrameData) -> (r: String)
    ensures
        r@ == frame_style_spec(*f),
{
    let mut parts: Vec<String> = Vec::new();
    let ghost p0 = parts_view(parts@);
    match &f.width {
        Some(w) => {
            let d = dim_val_string(w);
            add_part(&mut parts, with_text("width:", d.as_str()));
        },
        None => {},
    }
    match &f.height {
        Some(h) => {
            let d = dim_val_string(h);
            add_part(&mut parts, with_text("height:", d.as_str()));
        },
        None => {},
    }
    match &f.padding {
        Some(p) => {
            let q = four_px_string(&p.0);
            add_part(&mut parts, with_text("padding:", q.as_str()));
        },
        None => {},
    }
    let ghost p3 = parts_view(parts@);
    layout_strings(f, &mut parts);
    visual_strings(f, &mut parts);
    proof {
        assert(p3 =~= opt_part(
            match f.width {
                Some(w) => Some("width:"@ + dim_val(w)),
                None => None,
            },
        ) + opt_part(
            match f.height {
                Some(h) => Some("height:"@ + dim_val(h)),
                None => None,
            },
        ) + opt_part(
            match f.padding {
                Some(p) => Some("padding:"@ + four_px(p.0@)),
                None => None,
            },
        ));
    }
    let mut s = String::new();
    push_join(&mut s, &parts, ";");
    proof {
        reveal(frame_style_spec);
        assert(parts@.map_values(|p: String| p@) == parts_view(parts@));
    }
    s
}

/// Adds a part when there is one.
fn add_opt(parts: &mut Vec<String>, p: Option<String>)
    ensures
        parts_view(final(parts)@) == parts_view(old(parts)@) + opt_part(
            match p {
                Some(x) => Some(x@),
                None => None,
            },
        ),
{
    let ghost before = parts_view(parts@);
    match p {
        Some(x) => add_part(parts, x),
        None => {},
    }
    proof {
        assert(parts_view(parts@) =~= before + opt_part(
            match p {
                Some(x) => Some(x@),
                None => None,
            },
        ));
    }
}

/// The text of a part when there is one.
pub open spec fn opt_text(p: Option<String>) -> Option<Seq<char>> {
    match p {
        Some(x) => Some(x@),
        None => None,
    }
}

fn size_string(t: &TextData) -> (r: Option<String>)
    ensures
        opt_text(r) == size_part(*t),
{
    match t.font_size {
        Some(fs) => Some(with_unit("font-size:", &fs, "px")),
        None => None,
    }
}

fn weight_string(t: &TextData) -> (r: Option<String>)
    ensures
        opt_text(r) == weight_part(*t),
{
    match t.font_weight {
        Some(w) => {
            let mut p = crate::text::owned("font-weight:");
            push_nat(&mut p, w.to_css_value() as u64);
            Some(p)
        },
        None => None,
    }
}

fn family_string(t: &TextData) -> (r: Option<String>)
    ensures
        opt_text(r) == family_part(*t),
{
    match &t.font_family {
        Some(f) => {
            let mut p = with_text("font-family:'", f.as_str());
            push_str(&mut p, "'");
            Some(p)
        },
        None => None,
    }
}

fn color_string(t: &TextData) -> (r: Option<String>)
    ensures
        opt_text(r) == color_part(*t),
{
    match t.color {
        Some(c) => {
            let h = c.to_hex();
            Some(with_text("color:", h.as_str()))
        },
        None => None,
    }
}

fn align_string(t: &TextData) -> (r: Option<String>)
    ensures
        opt_text(r) == align_part(*t),
{
    match t.text_align {
        Some(a) => {
            let w = match a {
                TextAlign::Left => "left",
                TextAlign::Center => "center",
                TextAlign::Right => "right",
            };
            Some(with_text("text-align:", w))
        },
        None => None,
    }
}

fn text_style(t: &TextData) -> (r: String)
    ensures
        r@ == text_style_spec(*t),
{
    let mut parts: Vec<String> = Vec::new();
    let ghost p0 = parts_view(parts@);
    add_opt(&mut parts, size_string(t));
    add_opt(&mut parts, weight_string(t));
    add_opt(&mut parts, family_string(t));
    add_opt(&mut parts, color_string(t));
    add_opt(&mut parts, align_string(t));
    let lh = match t.line_height {
        Some(lh) => Some(with_unit("line-height:", &lh, "px")),
        None => None,
    };
    add_opt(&mut parts, lh);
    let ls = match t.letter_spacing {
        Some(ls) => Some(with_unit("letter-spacing:", &ls, "px")),
        None => None,
    };
    add_opt(&mut parts, ls);
    proof {
        reveal(text_style_spec);
        assert(p0 =~= Seq::<Seq<char>>::empty());
        assert(parts_view(parts@) =~= opt_part(size_part(*t)) + opt_part(weight_part(*t)) + opt_part(family_part(*t))
            + opt_part(color_part(*t)) + opt_part(align_part(*t)) + opt_part(line_height_part(*t)) + opt_part(
            spacing_part(*t),
        ));
    }
    let mut s = String::new();
    push_join(&mut s, &parts, ";");
    s
}

/// Appends a text with `&`, `<` and `>` written as entities.
fn push_escaped(s: &mut String, t: &str)
    ensures
        final(s)@ == old(s)@ + escape_html_spec(t@),
{
    let cs = chars_of(t);
    let ghost start = s@;
    let mut i: usize = 0;
    while i < cs.len()
        invariant
            i <= cs.len(),
            cs@ == t@,
            s@ == start + escape_html_spec(cs@.subrange(0, i as int)),
        decreases cs.len() - i,
    {
        let c = cs[i];
        if c == '&' {
            push_str(s, "&amp;");
        } else if c == '<' {
            push_str(s, "&lt;");
        } else if c == '>' {
            push_str(s, "&gt;");
        } else {
            push_char(s, c);
        }
        proof {
            let sub = cs@.subrange(0, i + 1);
            assert(sub.drop_last() =~= cs@.subrange(0, i as int));
            assert(s@ =~= start + escape_html_spec(sub));
        }
        i = i + 1;
    }
    proof {
        assert(cs@.subrange(0, cs.len() as int) =~= t@);
    }
}

/// A text with `&`, `<` and `>` written as entities.
pub fn escape_html(t: &str) -> (r: String)
    ensures
        r@ == escape_html_spec(t@),
{
    let mut s = String::new();
    push_escaped(&mut s, t);
    s
}

fn render_text(t: &TextData, out: &mut String, pad: &str)
    ensures
        final(out)@ == old(out)@ + ({
            let tag: Seq<char> = if t.wrap == Some(true) { "p"@ } else { "span"@ };
            pad@ + "<"@ + tag + " style=\""@ + text_style_spec(*t) + "\">"@ + escape_html_spec(t.content@) + "</"@ + tag
                + ">\n"@
        }),
{
    let style = text_style(t);
    let tag = if t.wrap == Some(true) { "p" } else { "span" };
    push_str(out, pad);
    push_str(out, "<");
    push_str(out, tag);
    push_str(out, " style=\"");
    push_str(out, style.as_str());
    push_str(out, "\">");
    push_escaped(out, t.content.as_str());
    push_str(out, "</");
    push_str(out, tag);
    push_str(out, ">\n");
    proof {
        let tag: Seq<char> = if t.wrap == Some(true) { "p"@ } else { "span"@ };
        assert(final(out)@ =~= old(out)@ + (pad@ + "<"@ + tag + " style=\""@ + text_style_spec(*t) + "\">"@
            + escape_html_spec(t.content@) + "</"@ + tag + ">\n"@));
    }
}

fn push_fit(out: &mut String, fit: Option<ImageFit>)
    ensures
        final(out)@ == old(out)@ + match fit {
            Some(f) => "object-fit:"@ + fit_css(f) + ";"@,
            None => Seq::<char>::empty(),
        },
{
    match fit {
        Some(f) => {
            push_str(out, "object-fit:");
            let w = match f {
                ImageFit::Cover => "cover",
                ImageFit::Contain => "contain",
                ImageFit::Fill => "fill",
                ImageFit::NoFit => "none",
            };
            push_str(out, w);
            push_str(out, ";");
        },
        None => {
            assert(final(out)@ =~= old(out)@ + Seq::<char>::empty());
        },
    }
}

fn push_alt(out: &mut String, name: &Option<String>)
    ensures
        final(out)@ == old(out)@ + if name is Some { name->0@ } else { "image"@ },
{
    match name {
        Some(x) => push_str(out, x.as_str()),
        None => push_str(out, "image"),
    }
}

fn render_image(img: &ImageData, out: &mut String, pad: &str)
    ensures
        final(out)@ == old(out)@ + ({
            let fit: Seq<char> = match img.fit {
                Some(f) => "object-fit:"@ + fit_css(f) + ";"@,
                None => Seq::empty(),
            };
            let alt: Seq<char> = match img.name {
                Some(x) => x@,
                None => "image"@,
            };
            pad@ + "<img src=\"\" alt=\""@ + alt + "\" style=\""@ + dim_css(img.width) + dim_css(img.height) + fit
                + "\" />\n"@
        }),
{
    push_str(out, pad);
    push_str(out, "<img src=\"\" alt=\"");
    push_alt(out, &img.name);
    push_str(out, "\" style=\"");
    push_dim_css(out, &img.width);
    push_dim_css(out, &img.height);
    push_fit(out, img.fit);
    push_str(out, "\" />\n");
    proof {
        let fit: Seq<char> = match img.fit {
            Some(f) => "object-fit:"@ + fit_css(f) + ";"@,
            None => Seq::empty(),
        };
        let alt: Seq<char> = if img.name is Some { img.name->0@ } else { "image"@ };
        assert(final(out)@ =~= old(out)@ + (pad@ + "<img src=\"\" alt=\""@ + alt + "\" style=\""@ + dim_css(img.width)
            + dim_css(img.height) + fit + "\" />\n"@));
    }
}

fn render_node(node: &IrNode, out: &mut String, pad: &str)
    ensures
        final(out)@ == old(out)@ + render_spec(*node, pad@),
    decreases node, 1int,
{
    match &node.data {
        IrNodeData::Frame(f) => {
            let style = frame_style(f);
            push_str(out, pad);
            push_str(out, "<div style=\"");
            push_str(out, style.as_str());
            push_str(out, "\">\n");
            let mut inner = crate::text::owned(pad);
            push_str(&mut inner, "  ");
            render_nodes(&node.children, out, inner.as_str());
            push_str(out, pad);
            push_str(out, "</div>\n");
        },
        IrNodeData::Text(t) => {
            render_text(t, out, pad);
        },
        IrNodeData::Image(img) => {
            render_image(img, out, pad);
        },
        IrNodeData::Shape(_) => {
            push_str(out, pad);
            push_str(out, "<div style=\"/* shape */\"></div>\n");
        },
    }
    proof {
        assert(final(out)@ =~= old(out)@ + render_spec(*node, pad@));
    }
}

fn render_nodes(nodes: &Vec<IrNode>, out: &mut String, pad: &str)
    ensures
        final(out)@ == old(out)@ + render_list(nodes@, pad@),
    decreases nodes, 0int,
{
    let ghost start = out@;
    let mut i: usize = 0;
    while i < nodes.len()
        invariant
            i <= nodes.len(),
            out@ == start + render_list(nodes@.subrange(0, i as int), pad@),
        decreases nodes.len() - i,
    {
        proof {
            assert(decreases_to!(nodes => nodes@));
            assert(decreases_to!(nodes@ => nodes@[i as int]));
        }
        render_node(&nodes[i], out, pad);
        proof {
            let sub = nodes@.subrange(0, i + 1);
            assert(sub.drop_last() =~= nodes@.subrange(0, i as int));
        }
        i = i + 1;
    }
    proof {
        assert(nodes@.subrange(0, nodes.len() as int) =~= nodes@);
    }
}

/// Generate a standalone HTML page from an IR document.
pub fn generate_html(ir: &IrDocument) -> (r: String)
    ensures
        r@ == html_spec(*ir),
{
    let tokens_css = generate_css(ir.tokens.as_slice());
    let mut s = String::new();
    push_str(
        &mut s,
        "<!DOCTYPE html>\n<html lang=\"en\">\n<head>\n<meta charset=\"UTF-8\">\n<meta name=\"viewport\" content=\"width=device-width, initial-scale=1.0\">\n<title>",
    );
    push_str(&mut s, ir.canvas.name.as_str());
    push_str(&mut s, "</title>\n<style>\n");
    push_str(&mut s, tokens_css.as_str());
    push_str(&mut s, "\n* { margin: 0; padding: 0; box-sizing: border-box; }\nbody { background: ");
    match ir.canvas.background {
        Some(c) => {
            let h = c.to_hex();
            push_str(&mut s, h.as_str());
        },
        None => push_str(&mut s, "#FFFFFF"),
    }
    push_str(&mut s, "; width: ");
    push_nat(&mut s, ir.canvas.width as u64);
    push_str(&mut s, "px; min-height: ");
    push_nat(&mut s, ir.canvas.height as u64);
    push_str(&mut s, "px; font-family: -apple-system, sans-serif; }\n</style>\n</head>\n<body>\n");
    if ir.pages.len() == 0 {
        render_nodes(&ir.nodes, &mut s, "    ");
    } else {
        render_nodes(&ir.pages[0].nodes, &mut s, "    ");
    }
    push_str(&mut s, "</body>\n</html>\n");
    proof {
        assert(s@ =~= html_spec(*ir));
    }
    s
}

// ---------------------------------------------------------------------------
// The direction of a frame's layout
// ---------------------------------------------------------------------------

/// The text that stands before a part joined after `a`: nothing when `a`
/// is empty.
spec fn join_before(a: Seq<Seq<char>>, sep: Seq<char>) -> Seq<char> {
    if a.len() == 0 { Seq::empty() } else { join(a, sep) + sep }
}

/// The text that stands after a part joined before `b`.
spec fn join_after(b: Seq<Seq<char>>, sep: Seq<char>) -> Seq<char> {
    if b.len() == 0 { Seq::empty() } else { sep + join(b, sep) }
}

proof fn lemma_join_concat(p: Seq<Seq<char>>, q: Seq<Seq<char>>, sep: Seq<char>)
    requires
        p.len() > 0,
        q.len() > 0,
    ensures
        join(p + q, sep) == join(p, sep) + sep + join(q, sep),
    decreases q.len(),
{
    let pq = p + q;
    assert(pq.drop_last() =~= p + q.drop_last());
    assert(pq.last() == q.last());
    if q.len() == 1 {
        assert(p + q.drop_last() =~= p);
    } else {
        lemma_join_concat(p, q.drop_last(), sep);
        assert(join(pq, sep) =~= join(p, sep) + sep + join(q, sep));
    }
}

proof fn lemma_join_middle(a: Seq<Seq<char>>, m: Seq<Seq<char>>, b: Seq<Seq<char>>, sep: Seq<char>)
    requires
        m.len() > 0,
    ensures
        join(a + m + b, sep) == join_before(a, sep) + join(m, sep) + join_after(b, sep),
{
    assert(a + m + b =~= a + (m + b));
    if b.len() > 0 {
        lemma_join_concat(m, b, sep);
    } else {
        assert(m + b =~= m);
    }
    if a.len() > 0 {
        lemma_join_concat(a, m + b, sep);
        assert(join(a + m + b, sep) =~= join_before(a, sep) + join(m, sep) + join_after(b, sep));
    } else {
        assert(a + (m + b) =~= m + b);
        assert(join(a + m + b, sep) =~= join_before(a, sep) + join(m, sep) + join_after(b, sep));
    }
}

/// The declarations of a frame's size and padding.
spec fn box_parts(f: FrameData) -> Seq<Seq<char>> {
    opt_part(
        match f.width {
            Some(w) => Some("width:"@ + dim_val(w)),
            None => None,
        },
    ) + opt_part(
        match f.height {
            Some(h) => Some("height:"@ + dim_val(h)),
            None => None,
        },
    ) + opt_part(
        match f.padding {
            Some(p) => Some("padding:"@ + four_px(p.0@)),
            None => None,
        },
    )
}

/// The declarations of a layout after its mode.
spec fn spacing_parts(l: Layout) -> Seq<Seq<char>> {
    opt_part(
        match l.gap {
            Some(g) => Some("gap:"@ + decimal_chars(g) + "px"@),
            None => None,
        },
    ) + opt_part(
        match l.align {
            Some(a) => Some("align-items:"@ + align_css(a)),
            None => None,
        },
    ) + opt_part(
        match l.justify {
            Some(j) => Some("justify-content:"@ + justify_css(j)),
            None => None,
        },
    )
}

/// The declarations of a flex layout's mode.
spec fn flex_mode_parts(m: LayoutMode) -> Seq<Seq<char>> {
    if m is Vertical {
        seq!["display:flex"@, "flex-direction:column"@]
    } else {
        seq!["display:flex"@]
    }
}

proof fn lemma_flex_layout_parts(f: FrameData, l: Layout)
    requires
        f.layout == Some(l),
        l.mode !is Grid,
    ensures
        layout_parts(f) == flex_mode_parts(l.mode) + spacing_parts(l),
{
    assert(layout_parts(f) =~= flex_mode_parts(l.mode) + spacing_parts(l));
}

/// A flex frame's style: what its size and padding, its layout mode, and
/// the rest of its declarations write, joined by `;`.
proof fn lemma_flex_style(f: FrameData, l: Layout)
    requires
        f.layout == Some(l),
        l.mode !is Grid,
    ensures
        frame_style_spec(f) == join_before(box_parts(f), ";"@) + join(flex_mode_parts(l.mode), ";"@) + join_after(
            spacing_parts(l) + visual_parts(f),
            ";"@,
        ),
{
    let b = box_parts(f);
    let v = visual_parts(f);
    assert(frame_style_spec(f) == join(b + layout_parts(f) + v, ";"@)) by {
        reveal(frame_style_spec);
    }
    lemma_flex_layout_parts(f, l);
    lemma_regroup(b, flex_mode_parts(l.mode), spacing_parts(l), v);
    lemma_join_middle(b, flex_mode_parts(l.mode), spacing_parts(l) + v, ";"@);
}

proof fn lemma_regroup(a: Seq<Seq<char>>, m: Seq<Seq<char>>, r: Seq<Seq<char>>, v: Seq<Seq<char>>)
    ensures
        a + (m + r) + v == a + m + (r + v),
{
    assert(a + (m + r) + v =~= a + m + (r + v));
}

/// The text of the vertical mode's declarations.
proof fn lemma_vertical_join()
    ensures
        join(flex_mode_parts(LayoutMode::Vertical), ";"@) == "display:flex"@ + ";"@ + "flex-direction:column"@,
        join(flex_mode_parts(LayoutMode::Horizontal), ";"@) == "display:flex"@,
{
    let m = flex_mode_parts(LayoutMode::Vertical);
    assert(m.drop_last() =~= seq!["display:flex"@]);
    assert(join(m.drop_last(), ";"@) == "display:flex"@);
    assert(join(m, ";"@) == join(m.drop_last(), ";"@) + ";"@ + m.last());
}

/// A frame whose layout is vertical stacks its children: the inline style
/// of its `div` holds `display:flex;flex-direction:column`.
pub proof fn law_vertical_frame_stacks_children(f: FrameData, l: Layout)
    requires
        f.layout == Some(l),
        l.mode == LayoutMode::Vertical,
    ensures
        exists|pre: Seq<char>, post: Seq<char>|
            frame_style_spec(f) == pre + "display:flex;flex-direction:column"@ + post,
{
    reveal_strlit("display:flex");
    reveal_strlit("flex-direction:column");
    reveal_strlit(";");
    reveal_strlit("display:flex;flex-direction:column");
    lemma_flex_style(f, l);
    lemma_vertical_join();
    assert("display:flex"@ + ";"@ + "flex-direction:column"@ =~= "display:flex;flex-direction:column"@);
    let pre = join_before(box_parts(f), ";"@);
    let post = join_after(spacing_parts(l) + visual_parts(f), ";"@);
    assert(frame_style_spec(f) == pre + "display:flex;flex-direction:column"@ + post);
}

/// The layout mode shows in a frame's style: two frames that differ only in
/// being laid out vertically or horizontally get different styles, the
/// vertical one longer by `;flex-direction:column`.
pub proof fn law_layout_mode_shows_in_style(v: FrameData, lv: Layout, h: FrameData, lh: Layout)
    requires
        v.layout == Some(lv),
        h.layout == Some(lh),
        lv.mode == LayoutMode::Vertical,
        lh.mode == LayoutMode::Horizontal,
        lv.gap == lh.gap,
        lv.align == lh.align,
        lv.justify == lh.justify,
        v.width == h.width,
        v.height == h.height,
        v.padding == h.padding,
        v.visual == h.visual,
    ensures
        frame_style_spec(v) != frame_style_spec(h),
        frame_style_spec(v).len() == frame_style_spec(h).len() + 22,
{
    reveal_strlit("display:flex");
    reveal_strlit("flex-direction:column");
    reveal_strlit(";");
    lemma_flex_style(v, lv);
    lemma_flex_style(h, lh);
    lemma_vertical_join();
    assert(box_parts(v) == box_parts(h));
    assert(spacing_parts(lv) == spacing_parts(lh));
    assert(visual_parts(v) == visual_parts(h));
    assert(frame_style_spec(v).len() == frame_style_spec(h).len() + 22);
}

/// The declaration of a grid's column count, when it has one.
spec fn columns_parts(l: Layout) -> Seq<Seq<char>> {
    opt_part(
        match l.columns {
            Some(c) => Some("grid-template-columns:repeat("@ + nat_digits(c as nat) + ",1fr)"@),
            None => None,
        },
    )
}

proof fn lemma_grid_layout_parts(f: FrameData, l: Layout)
    requires
        f.layout == Some(l),
        l.mode == LayoutMode::Grid,
    ensures
        layout_parts(f) == seq!["display:grid"@] + (columns_parts(l) + spacing_parts(l)),
{
    assert(layout_parts(f) =~= seq!["display:grid"@] + (columns_parts(l) + spacing_parts(l)));
}

/// A frame laid out as a grid is displayed as one: the inline style of its
/// `div` holds `display:grid`.
pub proof fn law_grid_frame_is_a_grid(f: FrameData, l: Layout)
    requires
        f.layout == Some(l),
        l.mode == LayoutMode::Grid,
    ensures
        exists|pre: Seq<char>, post: Seq<char>| frame_style_spec(f) == pre + "display:grid"@ + post,
{
    let b = box_parts(f);
    let v = visual_parts(f);
    let m = seq!["display:grid"@];
    assert(frame_style_spec(f) == join(b + layout_parts(f) + v, ";"@)) by {
        reveal(frame_style_spec);
    }
    lemma_grid_layout_parts(f, l);
    lemma_regroup(b, m, columns_parts(l) + spacing_parts(l), v);
    lemma_join_middle(b, m, columns_parts(l) + spacing_parts(l) + v, ";"@);
    assert(join(m, ";"@) == "display:grid"@);
    let pre = join_before(b, ";"@);
    let post = join_after(columns_parts(l) + spacing_parts(l) + v, ";"@);
    assert(frame_style_spec(f) == pre + "display:grid"@ + post);
}

} // verus!
