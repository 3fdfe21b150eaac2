pub mod node;
pub mod style;
pub mod extra;
pub mod view;

use vstd::prelude::*;

use crate::number::Decimal;
use self::node::IrNode;
use self::style::Color;

verus! {

/// Fully resolved document, ready for rendering.
#[derive(Debug)]
pub struct IrDocument {
    pub version: u32,
    pub canvas: IrCanvas,
    pub assets: Vec<IrAsset>,
    pub tokens: Vec<IrTokenGroup>,
    pub nodes: Vec<IrNode>,
    pub pages: Vec<IrPage>,
}

/// A named page containing its own set of nodes.
#[derive(Debug)]
pub struct IrPage {
    pub name: String,
    pub nodes: Vec<IrNode>,
}

#[derive(Debug)]
pub struct IrCanvas {
    pub name: String,
    pub width: u32,
    pub height: u32,
    pub background: Option<Color>,
}

#[derive(Debug)]
pub struct IrAsset {
    pub id: String,
    pub kind: String,
    pub path: String,
}

/// A named group of design tokens (`token colors { ... }`).
#[derive(Debug)]
pub struct IrTokenGroup {
    pub name: String,
    pub entries: Vec<IrTokenEntry>,
}

/// One design token of a group.
#[derive(Debug)]
pub struct IrTokenEntry {
    pub key: String,
    pub value: IrTokenValue,
}

/// The value of a design token, for code generation and linting.
#[derive(Debug)]
pub enum IrTokenValue {
    Number(Decimal),
    Color(String),
    String(String),
    Bool(bool),
    Array(Vec<IrTokenValue>),
    Object(Vec<(String, IrTokenValue)>),
}

} // verus!
