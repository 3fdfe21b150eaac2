use vstd::prelude::*;

use crate::number::Decimal;
use crate::token::Span;

verus! {

/// Top-level program.
#[derive(Debug)]
pub struct Program {
    pub canvas: Option<CanvasDecl>,
    pub assets: Vec<AssetDecl>,
    pub variables: Vec<LetDecl>,
    pub includes: Vec<IncludeDecl>,
    pub components: Vec<ComponentDecl>,
    pub nodes: Vec<NodeDecl>,
    pub pages: Vec<PageDecl>,
    pub token_blocks: Vec<TokenBlock>,
}

#[derive(Debug)]
pub struct CanvasDecl {
    pub name: String,
    pub attrs: Vec<Attribute>,
    pub span: Span,
}

#[derive(Debug)]
pub struct AssetDecl {
    pub name: String,
    pub kind: String,
    pub path: String,
    pub span: Span,
}

#[derive(Debug)]
pub struct LetDecl {
    pub name: String,
    pub value: Expression,
    pub span: Span,
}

/// `include "path"`, or `include "path" as ns` for a namespaced include.
#[derive(Debug)]
pub struct IncludeDecl {
    pub path: String,
    pub namespace: Option<String>,
    pub span: Span,
}

/// `token name { key = value ... }`: a group of design tokens.
#[derive(Debug)]
pub struct TokenBlock {
    pub name: String,
    pub entries: Vec<TokenEntry>,
    pub span: Span,
}

#[derive(Debug)]
pub struct TokenEntry {
    pub key: String,
    pub value: Expression,
    pub span: Span,
}

/// Reusable component definition (compile-time macro).
#[derive(Debug)]
pub struct ComponentDecl {
    pub name: String,
    pub params: Vec<ComponentParam>,
    pub body: NodeDecl,
    pub span: Span,
}

#[derive(Debug)]
pub struct ComponentParam {
    pub name: String,
    pub default: Option<Expression>,
}

/// `page "name" { nodes }`.
#[derive(Debug)]
pub struct PageDecl {
    pub name: String,
    pub nodes: Vec<NodeDecl>,
    pub span: Span,
}

/// A design node (frame, text, image, shape, use).
#[derive(Debug)]
pub struct NodeDecl {
    pub kind: NodeKind,
    pub name: Option<String>,
    pub label: Option<String>,
    pub attrs: Vec<Attribute>,
    pub children: Vec<NodeDecl>,
    pub span: Span,
}

#[derive(Debug, Clone, Copy, PartialEq, Eq, Structural)]
pub enum NodeKind {
    Frame,
    Text,
    Image,
    Shape,
    Use,  // Component instantiation
}

/// For `use` nodes: stores the component call args.
#[derive(Debug)]
pub struct UseArgs {
    pub component_name: String,
    pub positional: Vec<Expression>,
    pub named: Vec<(String, Expression)>,
}

#[derive(Debug)]
pub struct Attribute {
    pub key: String,
    pub value: Expression,
    pub span: Span,
}

#[derive(Debug)]
pub enum Expression {
    Integer(i64),
    Float(Decimal),
    String(String),
    Color(String),
    Bool(bool),
    Ident(String),
    Array(Vec<Expression>),
    Object(Vec<(String, Expression)>),
    FunctionCall { name: String, args: Vec<Expression> },
}

} // verus!

verus! {

// ---------------------------------------------------------------------------
// The mathematical content of the syntax tree
// ---------------------------------------------------------------------------

/// An expression, with text as character sequences.
pub ghost enum Expr {
    Integer(int),
    Float(Decimal),
    Str(Seq<char>),
    Color(Seq<char>),
    Bool(bool),
    Ident(Seq<char>),
    Array(Seq<Expr>),
    Object(Seq<(Seq<char>, Expr)>),
    Call(Seq<char>, Seq<Expr>),
}

pub open spec fn expr_view(e: Expression) -> Expr
    decreases e,
{
    match e {
        Expression::Integer(n) => Expr::Integer(n as int),
        Expression::Float(d) => Expr::Float(d),
        Expression::String(s) => Expr::Str(s@),
        Expression::Color(s) => Expr::Color(s@),
        Expression::Bool(b) => Expr::Bool(b),
        Expression::Ident(s) => Expr::Ident(s@),
        Expression::Array(items) => {
            proof {
                assert(decreases_to!(items => items@));
            }
            Expr::Array(exprs_view(items@))
        },
        Expression::Object(pairs) => {
            proof {
                assert(decreases_to!(pairs => pairs@));
            }
            Expr::Object(pairs_view(pairs@))
        },
        Expression::FunctionCall { name, args } => {
            proof {
                assert(decreases_to!(args => args@));
            }
            Expr::Call(name@, exprs_view(args@))
        },
    }
}

pub open spec fn exprs_view(s: Seq<Expression>) -> Seq<Expr>
    decreases s,
{
    if s.len() == 0 {
        Seq::empty()
    } else {
        proof {
            assert(decreases_to!(s => s[s.len() - 1]));
        }
        exprs_view(s.drop_last()).push(expr_view(s.last()))
    }
}

pub open spec fn pairs_view(s: Seq<(String, Expression)>) -> Seq<(Seq<char>, Expr)>
    decreases s,
{
    if s.len() == 0 {
        Seq::empty()
    } else {
        proof {
            assert(decreases_to!(s => s[s.len() - 1]));
            assert(decreases_to!(s[s.len() - 1] => s[s.len() - 1].1));
        }
        pairs_view(s.drop_last()).push((s.last().0@, expr_view(s.last().1)))
    }
}

pub ghost struct AttrV {
    pub key: Seq<char>,
    pub value: Expr,
    pub span: Span,
}

pub open spec fn attr_view(a: Attribute) -> AttrV {
    AttrV { key: a.key@, value: expr_view(a.value), span: a.span }
}

pub open spec fn attrs_view(s: Seq<Attribute>) -> Seq<AttrV> {
    s.map_values(|a: Attribute| attr_view(a))
}

pub open spec fn opt_view(o: Option<String>) -> Option<Seq<char>> {
    match o {
        Some(s) => Some(s@),
        None => None,
    }
}

pub ghost struct NodeV {
    pub kind: NodeKind,
    pub name: Option<Seq<char>>,
    pub label: Option<Seq<char>>,
    pub attrs: Seq<AttrV>,
    pub children: Seq<NodeV>,
    pub span: Span,
}

pub open spec fn node_view(n: NodeDecl) -> NodeV
    decreases n,
{
    proof {
        assert(decreases_to!(n => n.children));
        assert(decreases_to!(n.children => n.children@));
    }
    NodeV {
        kind: n.kind,
        name: opt_view(n.name),
        label: opt_view(n.label),
        attrs: attrs_view(n.attrs@),
        children: nodes_view(n.children@),
        span: n.span,
    }
}

pub open spec fn nodes_view(s: Seq<NodeDecl>) -> Seq<NodeV>
    decreases s,
{
    if s.len() == 0 {
        Seq::empty()
    } else {
        proof {
            assert(decreases_to!(s => s[s.len() - 1]));
        }
        nodes_view(s.drop_last()).push(node_view(s.last()))
    }
}

pub ghost struct CanvasV {
    pub name: Seq<char>,
    pub attrs: Seq<AttrV>,
    pub span: Span,
}

pub ghost struct AssetV {
    pub name: Seq<char>,
    pub kind: Seq<char>,
    pub path: Seq<char>,
    pub span: Span,
}

pub ghost struct LetV {
    pub name: Seq<char>,
    pub value: Expr,
    pub span: Span,
}

pub ghost struct IncludeV {
    pub path: Seq<char>,
    pub namespace: Option<Seq<char>>,
    pub span: Span,
}

pub ghost struct TokenEntryV {
    pub key: Seq<char>,
    pub value: Expr,
    pub span: Span,
}

pub ghost struct TokenBlockV {
    pub name: Seq<char>,
    pub entries: Seq<TokenEntryV>,
    pub span: Span,
}

pub ghost struct ParamV {
    pub name: Seq<char>,
    pub default: Option<Expr>,
}

pub ghost struct ComponentV {
    pub name: Seq<char>,
    pub params: Seq<ParamV>,
    pub body: NodeV,
    pub span: Span,
}

pub ghost struct PageV {
    pub name: Seq<char>,
    pub nodes: Seq<NodeV>,
    pub span: Span,
}

#[verifier::ext_equal]
pub ghost struct ProgramV {
    pub canvas: Option<CanvasV>,
    pub assets: Seq<AssetV>,
    pub variables: Seq<LetV>,
    pub includes: Seq<IncludeV>,
    pub components: Seq<ComponentV>,
    pub nodes: Seq<NodeV>,
    pub pages: Seq<PageV>,
    pub token_blocks: Seq<TokenBlockV>,
}

pub open spec fn canvas_view(c: CanvasDecl) -> CanvasV {
    CanvasV { name: c.name@, attrs: attrs_view(c.attrs@), span: c.span }
}

pub open spec fn asset_view(a: AssetDecl) -> AssetV {
    AssetV { name: a.name@, kind: a.kind@, path: a.path@, span: a.span }
}

pub open spec fn let_view(l: LetDecl) -> LetV {
    LetV { name: l.name@, value: expr_view(l.value), span: l.span }
}

pub open spec fn include_view(i: IncludeDecl) -> IncludeV {
    IncludeV { path: i.path@, namespace: opt_view(i.namespace), span: i.span }
}

pub open spec fn entry_view(e: TokenEntry) -> TokenEntryV {
    TokenEntryV { key: e.key@, value: expr_view(e.value), span: e.span }
}

pub open spec fn block_view(b: TokenBlock) -> TokenBlockV {
    TokenBlockV { name: b.name@, entries: b.entries@.map_values(|e: TokenEntry| entry_view(e)), span: b.span }
}

pub open spec fn param_view(p: ComponentParam) -> ParamV {
    ParamV {
        name: p.name@,
        default: match p.default {
            Some(e) => Some(expr_view(e)),
            None => None,
        },
    }
}

pub open spec fn component_view(c: ComponentDecl) -> ComponentV {
    ComponentV {
        name: c.name@,
        params: c.params@.map_values(|p: ComponentParam| param_view(p)),
        body: node_view(c.body),
        span: c.span,
    }
}

pub open spec fn page_view(p: PageDecl) -> PageV {
    PageV { name: p.name@, nodes: nodes_view(p.nodes@), span: p.span }
}

pub open spec fn program_view(p: Program) -> ProgramV {
    ProgramV {
        canvas: match p.canvas {
            Some(c) => Some(canvas_view(c)),
            None => None,
        },
        assets: p.assets@.map_values(|a: AssetDecl| asset_view(a)),
        variables: p.variables@.map_values(|l: LetDecl| let_view(l)),
        includes: p.includes@.map_values(|i: IncludeDecl| include_view(i)),
        components: p.components@.map_values(|c: ComponentDecl| component_view(c)),
        nodes: nodes_view(p.nodes@),
        pages: p.pages@.map_values(|pg: PageDecl| page_view(pg)),
        token_blocks: p.token_blocks@.map_values(|b: TokenBlock| block_view(b)),
    }
}

} // verus!
