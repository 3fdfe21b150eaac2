use vstd::prelude::*;

use crate::number::Decimal;
use super::style::{
    BlendMode, Color, CornerRadius, Dimension, Fill, FontWeight, ImageFit, Layout, Padding, Position,
    Shadow, Stroke, TextAlign, TextDecoration, TextTransform,
};

verus! {

/// A fully resolved node in the design tree.
#[derive(Debug)]
pub struct IrNode {
    pub id: String,
    pub data: IrNodeData,
    pub children: Vec<IrNode>,
}

/// Type-safe per-node-kind data. Each variant carries only relevant properties.
#[derive(Debug)]
pub enum IrNodeData {
    Frame(FrameData),
    Text(TextData),
    Image(ImageData),
    Shape(ShapeData),
}

// -- Common visual properties shared by Frame/Shape --

#[derive(Debug)]
pub struct VisualProps {
    pub fill: Option<Fill>,
    pub stroke: Option<Stroke>,
    pub corner_radius: Option<CornerRadius>,
    pub shadow: Option<Shadow>,
    pub inner_shadow: Option<Shadow>,
    pub opacity: Option<Decimal>,
    pub blur: Option<Decimal>,
    pub background_blur: Option<Decimal>,
    pub blend: Option<BlendMode>,
}

impl VisualProps {
    /// No visual property set.
    pub fn empty() -> (v: VisualProps)
        ensures
            v.fill is None && v.stroke is None && v.corner_radius is None && v.shadow is None
                && v.inner_shadow is None && v.opacity is None && v.blur is None
                && v.background_blur is None && v.blend is None,
    {
        VisualProps {
            fill: None,
            stroke: None,
            corner_radius: None,
            shadow: None,
            inner_shadow: None,
            opacity: None,
            blur: None,
            background_blur: None,
            blend: None,
        }
    }
}

// -- Frame: container node with layout --

#[derive(Debug)]
pub struct FrameData {
    pub name: Option<String>,
    pub width: Option<Dimension>,
    pub height: Option<Dimension>,
    pub padding: Option<Padding>,
    pub layout: Option<Layout>,
    pub position: Option<Position>,
    pub rotation: Option<Decimal>,
    pub visual: VisualProps,
}

// -- Text: leaf node with text content --

#[derive(Debug)]
pub struct TextData {
    pub content: String,
    pub font_size: Option<Decimal>,
    pub font_weight: Option<FontWeight>,
    pub font_family: Option<String>,
    pub color: Option<Color>,
    pub text_align: Option<TextAlign>,
    pub line_height: Option<Decimal>,
    pub width: Option<Dimension>,
    pub height: Option<Dimension>,
    pub wrap: Option<bool>,
    pub letter_spacing: Option<Decimal>,
    pub text_decoration: Option<TextDecoration>,
    pub text_transform: Option<TextTransform>,
}

// -- Image: leaf node with asset reference --

#[derive(Debug)]
pub struct ImageData {
    pub name: Option<String>,
    pub asset: String,
    pub width: Option<Dimension>,
    pub height: Option<Dimension>,
    pub corner_radius: Option<CornerRadius>,
    pub shadow: Option<Shadow>,
    pub opacity: Option<Decimal>,
    pub fit: Option<ImageFit>,
}

// -- Shape: basic geometry --

#[derive(Debug)]
pub struct ShapeData {
    pub name: Option<String>,
    pub shape_type: ShapeType,
    pub path: Option<String>,
    pub width: Option<Dimension>,
    pub height: Option<Dimension>,
    pub rotation: Option<Decimal>,
    pub visual: VisualProps,
}

#[derive(Debug, Clone, Copy, PartialEq, Eq, Structural)]
pub enum ShapeType {
    Rectangle,
    Ellipse,
    Line,
    Path,
}

} // verus!
