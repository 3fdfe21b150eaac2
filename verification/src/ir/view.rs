use vstd::prelude::*;

use crate::ast::opt_view;
use crate::number::Decimal;
use super::{IrAsset, IrCanvas, IrDocument, IrPage, IrTokenEntry, IrTokenGroup, IrTokenValue};
use super::node::{FrameData, ImageData, IrNode, IrNodeData, ShapeData, ShapeType, TextData, VisualProps};
use super::style::{
    fill_view, BlendMode, Color, Dimension, FillV, FontWeight, ImageFit, Layout, Position, Shadow,
    Stroke, TextAlign, TextDecoration, TextTransform,
};

verus! {

// ---------------------------------------------------------------------------
// The mathematical content of the design tree
// ---------------------------------------------------------------------------

pub ghost struct StrokeV {
    pub width: Decimal,
    pub color: Color,
    pub dash: Option<Seq<Decimal>>,
}

pub open spec fn stroke_view(s: Stroke) -> StrokeV {
    StrokeV {
        width: s.width,
        color: s.color,
        dash: match s.dash {
            Some(d) => Some(d@),
            None => None,
        },
    }
}

pub ghost struct VisualV {
    pub fill: Option<FillV>,
    pub stroke: Option<StrokeV>,
    pub corner_radius: Option<Seq<Decimal>>,
    pub shadow: Option<Shadow>,
    pub inner_shadow: Option<Shadow>,
    pub opacity: Option<Decimal>,
    pub blur: Option<Decimal>,
    pub background_blur: Option<Decimal>,
    pub blend: Option<BlendMode>,
}

pub open spec fn visual_view(v: VisualProps) -> VisualV {
    VisualV {
        fill: match v.fill {
            Some(f) => Some(fill_view(f)),
            None => None,
        },
        stroke: match v.stroke {
            Some(s) => Some(stroke_view(s)),
            None => None,
        },
        corner_radius: match v.corner_radius {
            Some(c) => Some(c.0@),
            None => None,
        },
        shadow: v.shadow,
        inner_shadow: v.inner_shadow,
        opacity: v.opacity,
        blur: v.blur,
        background_blur: v.background_blur,
        blend: v.blend,
    }
}

/// No visual property set.
pub open spec fn no_visual() -> VisualV {
    VisualV {
        fill: None,
        stroke: None,
        corner_radius: None,
        shadow: None,
        inner_shadow: None,
        opacity: None,
        blur: None,
        background_blur: None,
        blend: None,
    }
}

pub ghost struct FrameV {
    pub name: Option<Seq<char>>,
    pub width: Option<Dimension>,
    pub height: Option<Dimension>,
    pub padding: Option<Seq<Decimal>>,
    pub layout: Option<Layout>,
    pub position: Option<Position>,
    pub rotation: Option<Decimal>,
    pub visual: VisualV,
}

pub open spec fn frame_view(f: FrameData) -> FrameV {
    FrameV {
        name: opt_view(f.name),
        width: f.width,
        height: f.height,
        padding: match f.padding {
            Some(p) => Some(p.0@),
            None => None,
        },
        layout: f.layout,
        position: f.position,
        rotation: f.rotation,
        visual: visual_view(f.visual),
    }
}

pub ghost struct TextV {
    pub content: Seq<char>,
    pub font_size: Option<Decimal>,
    pub font_weight: Option<FontWeight>,
    pub font_family: Option<Seq<char>>,
    pub color: Option<Color>,
    pub text_align: Option<TextAlign>,
    pub line_height: Option<Decimal>,
    pub width: Option<Dimension>,
    pub height: Option<Dimension>,
    pub wrap: Option<bool>,
    pub letter_spacing: Option<Decimal>,
    pub text_decoration: Option<TextDecoration>,
    pub text_transform: Option<TextTransform>,
}

pub open spec fn text_view(t: TextData) -> TextV {
    TextV {
        content: t.content@,
        font_size: t.font_size,
        font_weight: t.font_weight,
        font_family: opt_view(t.font_family),
        color: t.color,
        text_align: t.text_align,
        line_height: t.line_height,
        width: t.width,
        height: t.height,
        wrap: t.wrap,
        letter_spacing: t.letter_spacing,
        text_decoration: t.text_decoration,
        text_transform: t.text_transform,
    }
}

pub ghost struct ImageV {
    pub name: Option<Seq<char>>,
    pub asset: Seq<char>,
    pub width: Option<Dimension>,
    pub height: Option<Dimension>,
    pub corner_radius: Option<Seq<Decimal>>,
    pub shadow: Option<Shadow>,
    pub opacity: Option<Decimal>,
    pub fit: Option<ImageFit>,
}

pub open spec fn image_view(i: ImageData) -> ImageV {
    ImageV {
        name: opt_view(i.name),
        asset: i.asset@,
        width: i.width,
        height: i.height,
        corner_radius: match i.corner_radius {
            Some(c) => Some(c.0@),
            None => None,
        },
        shadow: i.shadow,
        opacity: i.opacity,
        fit: i.fit,
    }
}

pub ghost struct ShapeV {
    pub name: Option<Seq<char>>,
    pub shape_type: ShapeType,
    pub path: Option<Seq<char>>,
    pub width: Option<Dimension>,
    pub height: Option<Dimension>,
    pub rotation: Option<Decimal>,
    pub visual: VisualV,
}

pub open spec fn shape_view(s: ShapeData) -> ShapeV {
    ShapeV {
        name: opt_view(s.name),
        shape_type: s.shape_type,
        path: opt_view(s.path),
        width: s.width,
        height: s.height,
        rotation: s.rotation,
        visual: visual_view(s.visual),
    }
}

pub ghost enum DataV {
    Frame(FrameV),
    Text(TextV),
    Image(ImageV),
    Shape(ShapeV),
}

pub open spec fn data_view(d: IrNodeData) -> DataV {
    match d {
        IrNodeData::Frame(f) => DataV::Frame(frame_view(f)),
        IrNodeData::Text(t) => DataV::Text(text_view(t)),
        IrNodeData::Image(i) => DataV::Image(image_view(i)),
        IrNodeData::Shape(s) => DataV::Shape(shape_view(s)),
    }
}

pub ghost struct NodeIrV {
    pub id: Seq<char>,
    pub data: DataV,
    pub children: Seq<NodeIrV>,
}

pub open spec fn ir_node_view(n: IrNode) -> NodeIrV
    decreases n,
{
    proof {
        assert(decreases_to!(n => n.children));
        assert(decreases_to!(n.children => n.children@));
    }
    NodeIrV { id: n.id@, data: data_view(n.data), children: ir_nodes_view(n.children@) }
}

pub open spec fn ir_nodes_view(s: Seq<IrNode>) -> Seq<NodeIrV>
    decreases s,
{
    if s.len() == 0 {
        Seq::empty()
    } else {
        proof {
            assert(decreases_to!(s => s[s.len() - 1]));
        }
        ir_nodes_view(s.drop_last()).push(ir_node_view(s.last()))
    }
}

/// The mathematical content of a design token's value.
pub ghost enum TokenValV {
    Number(Decimal),
    Color(Seq<char>),
    Str(Seq<char>),
    Bool(bool),
    Array(Seq<TokenValV>),
    Object(Seq<(Seq<char>, TokenValV)>),
}

pub open spec fn tv_view(v: IrTokenValue) -> TokenValV
    decreases v, 1int,
{
    match v {
        IrTokenValue::Number(d) => TokenValV::Number(d),
        IrTokenValue::Color(c) => TokenValV::Color(c@),
        IrTokenValue::String(s) => TokenValV::Str(s@),
        IrTokenValue::Bool(b) => TokenValV::Bool(b),
        IrTokenValue::Array(items) => {
            proof {
                assert(decreases_to!(items => items@));
            }
            TokenValV::Array(tvs_view(items@))
        },
        IrTokenValue::Object(pairs) => {
            proof {
                assert(decreases_to!(pairs => pairs@));
            }
            TokenValV::Object(tv_pairs_view(pairs@))
        },
    }
}

pub open spec fn tvs_view(s: Seq<IrTokenValue>) -> Seq<TokenValV>
    decreases s, 0int,
{
    if s.len() == 0 {
        Seq::empty()
    } else {
        proof {
            assert(decreases_to!(s => s[s.len() - 1]));
        }
        tvs_view(s.drop_last()).push(tv_view(s.last()))
    }
}

pub open spec fn tv_pairs_view(s: Seq<(String, IrTokenValue)>) -> Seq<(Seq<char>, TokenValV)>
    decreases s, 0int,
{
    if s.len() == 0 {
        Seq::empty()
    } else {
        proof {
            assert(decreases_to!(s => s[s.len() - 1]));
            assert(decreases_to!(s[s.len() - 1] => s[s.len() - 1].1));
        }
        tv_pairs_view(s.drop_last()).push((s.last().0@, tv_view(s.last().1)))
    }
}

pub ghost struct GroupV {
    pub name: Seq<char>,
    pub entries: Seq<(Seq<char>, TokenValV)>,
}

pub open spec fn group_view(g: IrTokenGroup) -> GroupV {
    GroupV { name: g.name@, entries: g.entries@.map_values(|e: IrTokenEntry| (e.key@, tv_view(e.value))) }
}

pub ghost struct CanvasIrV {
    pub name: Seq<char>,
    pub width: u32,
    pub height: u32,
    pub background: Option<Color>,
}

pub open spec fn canvas_ir_view(c: IrCanvas) -> CanvasIrV {
    CanvasIrV { name: c.name@, width: c.width, height: c.height, background: c.background }
}

pub ghost struct AssetIrV {
    pub id: Seq<char>,
    pub kind: Seq<char>,
    pub path: Seq<char>,
}

pub open spec fn asset_ir_view(a: IrAsset) -> AssetIrV {
    AssetIrV { id: a.id@, kind: a.kind@, path: a.path@ }
}

pub ghost struct PageIrV {
    pub name: Seq<char>,
    pub nodes: Seq<NodeIrV>,
}

pub open spec fn page_ir_view(p: IrPage) -> PageIrV {
    PageIrV { name: p.name@, nodes: ir_nodes_view(p.nodes@) }
}

pub ghost struct DocV {
    pub version: u32,
    pub canvas: CanvasIrV,
    pub assets: Seq<AssetIrV>,
    pub tokens: Seq<GroupV>,
    pub nodes: Seq<NodeIrV>,
    pub pages: Seq<PageIrV>,
}

pub open spec fn doc_view(d: IrDocument) -> DocV {
    DocV {
        version: d.version,
        canvas: canvas_ir_view(d.canvas),
        assets: d.assets@.map_values(|a: IrAsset| asset_ir_view(a)),
        tokens: d.tokens@.map_values(|g: IrTokenGroup| group_view(g)),
        nodes: ir_nodes_view(d.nodes@),
        pages: d.pages@.map_values(|p: IrPage| page_ir_view(p)),
    }
}

} // verus!
