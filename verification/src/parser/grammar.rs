use vstd::prelude::*;

use crate::ast::{
    AssetV, AttrV, CanvasV, ComponentV, Expr, IncludeV, LetV, NodeKind, NodeV, PageV, ParamV,
    ProgramV, TokenBlockV, TokenEntryV,
};
use crate::error::{ErrorKind, ErrorView};
use crate::text::nat_digits;
use crate::token::{Kind, Span, TokenV, kind_debug};

verus! {

// ---------------------------------------------------------------------------
// The grammar, as a function of the token sequence and a position in it
// ---------------------------------------------------------------------------

/// The position at the end of input: past the tokens or on `Eof`.
pub open spec fn at_end(toks: Seq<TokenV>, p: int) -> bool {
    p >= toks.len() || toks[p].kind == Kind::Eof
}

/// The token at `p` has the given kind.
pub open spec fn is(toks: Seq<TokenV>, p: int, k: Kind) -> bool {
    0 <= p < toks.len() && toks[p].kind == k
}

/// Past an optional comma at `p`.
pub open spec fn skip_comma(toks: Seq<TokenV>, p: int) -> int {
    if is(toks, p, Kind::Comma) { p + 1 } else { p }
}

/// The error for a position that the parser never reaches.
pub open spec fn stuck() -> ErrorView {
    ErrorView { kind: ErrorKind::UnexpectedToken, message: Seq::empty(), span: None, hint: None }
}

pub open spec fn err_at(kind: ErrorKind, message: Seq<char>, t: TokenV) -> ErrorView {
    ErrorView { kind, message, span: Some(t.span), hint: None }
}

/// "expected K, found T" at the token `t`.
pub open spec fn expected(what: Seq<char>, t: TokenV) -> ErrorView {
    err_at(ErrorKind::ExpectedToken, "expected "@ + what + ", found "@ + kind_debug(t.kind), t)
}

/// A token of the payload-free kind `k` at `p`.
pub open spec fn expect_spec(toks: Seq<TokenV>, p: int, k: Kind) -> Result<(TokenV, int), ErrorView> {
    if 0 <= p < toks.len() {
        if toks[p].kind == k { Ok((toks[p], p + 1)) } else { Err(expected(kind_debug(k), toks[p])) }
    } else {
        Err(stuck())
    }
}

/// A string literal at `p`.
pub open spec fn string_spec(toks: Seq<TokenV>, p: int) -> Result<(Seq<char>, int), ErrorView> {
    if 0 <= p < toks.len() {
        match toks[p].kind {
            Kind::Str(s) => Ok((s, p + 1)),
            _ => Err(expected("string literal"@, toks[p])),
        }
    } else {
        Err(stuck())
    }
}

/// An identifier at `p`.
pub open spec fn ident_spec(toks: Seq<TokenV>, p: int) -> Result<(Seq<char>, int), ErrorView> {
    if 0 <= p < toks.len() {
        match toks[p].kind {
            Kind::Ident(s) => Ok((s, p + 1)),
            _ => Err(expected("identifier"@, toks[p])),
        }
    } else {
        Err(stuck())
    }
}

/// An identifier, or one of the keywords that name an asset kind.
pub open spec fn ident_or_keyword_spec(toks: Seq<TokenV>, p: int) -> Result<(Seq<char>, int), ErrorView> {
    if 0 <= p < toks.len() {
        match toks[p].kind {
            Kind::Ident(s) => Ok((s, p + 1)),
            Kind::Image => Ok(("image"@, p + 1)),
            Kind::Text => Ok(("text"@, p + 1)),
            Kind::Frame => Ok(("frame"@, p + 1)),
            Kind::Shape => Ok(("shape"@, p + 1)),
            Kind::Page => Ok(("page"@, p + 1)),
            _ => Err(expected("identifier"@, toks[p])),
        }
    } else {
        Err(stuck())
    }
}

// -- Expressions --

/// A value expression at `p`.
pub open spec fn expr_spec(toks: Seq<TokenV>, p: int) -> Result<(Expr, int), ErrorView>
    decreases toks.len() - p, 0int,
{
    if p < 0 || p >= toks.len() {
        Err(stuck())
    } else {
        match toks[p].kind {
            Kind::Integer(n) => Ok((Expr::Integer(n), p + 1)),
            Kind::Float(d) => Ok((Expr::Float(d), p + 1)),
            Kind::Str(s) => Ok((Expr::Str(s), p + 1)),
            Kind::Color(s) => Ok((Expr::Color(s), p + 1)),
            Kind::Bool(b) => Ok((Expr::Bool(b), p + 1)),
            Kind::Ident(s) => if is(toks, p + 1, Kind::LParen) {
                match list_spec(toks, p + 2, Seq::empty(), Kind::RParen) {
                    Ok((args, q)) => match expect_spec(toks, q, Kind::RParen) {
                        Ok((_, q2)) => Ok((Expr::Call(s, args), q2)),
                        Err(e) => Err(e),
                    },
                    Err(e) => Err(e),
                }
            } else {
                Ok((Expr::Ident(s), p + 1))
            },
            Kind::LBracket => match list_spec(toks, p + 1, Seq::empty(), Kind::RBracket) {
                Ok((items, q)) => match expect_spec(toks, q, Kind::RBracket) {
                    Ok((_, q2)) => Ok((Expr::Array(items), q2)),
                    Err(e) => Err(e),
                },
                Err(e) => Err(e),
            },
            Kind::LBrace => match object_spec(toks, p + 1, Seq::empty()) {
                Ok((entries, q)) => match expect_spec(toks, q, Kind::RBrace) {
                    Ok((_, q2)) => Ok((Expr::Object(entries), q2)),
                    Err(e) => Err(e),
                },
                Err(e) => Err(e),
            },
            _ => Err(err_at(ErrorKind::UnexpectedToken, "expected value expression, found "@ + kind_debug(toks[p].kind), toks[p])),
        }
    }
}

/// Expressions separated by optional commas from `q` up to `closer` (or the
/// end of input), appended to `acc`.
pub open spec fn list_spec(toks: Seq<TokenV>, q: int, acc: Seq<Expr>, closer: Kind) -> Result<(Seq<Expr>, int), ErrorView>
    decreases toks.len() - q, 1int,
{
    if q < 0 || q >= toks.len() {
        Err(stuck())
    } else if toks[q].kind == closer || toks[q].kind == Kind::Eof {
        Ok((acc, q))
    } else {
        match expr_spec(toks, q) {
            Err(e) => Err(e),
            Ok((e, r)) => {
                let r2 = skip_comma(toks, r);
                if q < r2 <= toks.len() {
                    list_spec(toks, r2, acc.push(e), closer)
                } else {
                    Err(stuck())
                }
            },
        }
    }
}

/// `key = value` entries separated by optional commas up to `}`.
pub open spec fn object_spec(toks: Seq<TokenV>, q: int, acc: Seq<(Seq<char>, Expr)>) -> Result<(Seq<(Seq<char>, Expr)>, int), ErrorView>
    decreases toks.len() - q, 1int,
{
    if q < 0 || q >= toks.len() {
        Err(stuck())
    } else if toks[q].kind == Kind::RBrace || toks[q].kind == Kind::Eof {
        Ok((acc, q))
    } else {
        match toks[q].kind {
            Kind::Ident(key) => if is(toks, q + 1, Kind::Equals) {
                match expr_spec(toks, q + 2) {
                    Err(e) => Err(e),
                    Ok((v, r)) => {
                        let r2 = skip_comma(toks, r);
                        if q < r2 <= toks.len() {
                            object_spec(toks, r2, acc.push((key, v)))
                        } else {
                            Err(stuck())
                        }
                    },
                }
            } else if q + 1 < toks.len() {
                Err(expected("Equals"@, toks[q + 1]))
            } else {
                Err(stuck())
            },
            _ => Err(expected("identifier"@, toks[q])),
        }
    }
}

// -- Attributes --

/// `key = value` at `p`.
pub open spec fn attr_spec(toks: Seq<TokenV>, p: int) -> Result<(AttrV, int), ErrorView> {
    match ident_spec(toks, p) {
        Err(e) => Err(e),
        Ok((key, q1)) => match expect_spec(toks, q1, Kind::Equals) {
            Err(e) => Err(e),
            Ok((_, q2)) => match expr_spec(toks, q2) {
                Err(e) => Err(e),
                Ok((value, q3)) => Ok((AttrV { key, value, span: toks[p].span }, q3)),
            },
        },
    }
}

/// Attributes separated by optional commas up to `}`.
pub open spec fn attrs_spec(toks: Seq<TokenV>, q: int, acc: Seq<AttrV>) -> Result<(Seq<AttrV>, int), ErrorView>
    decreases toks.len() - q,
{
    if q < 0 || q >= toks.len() {
        Err(stuck())
    } else if toks[q].kind == Kind::RBrace || toks[q].kind == Kind::Eof {
        Ok((acc, q))
    } else {
        match attr_spec(toks, q) {
            Err(e) => Err(e),
            Ok((a, r)) => {
                let r2 = skip_comma(toks, r);
                if q < r2 <= toks.len() {
                    attrs_spec(toks, r2, acc.push(a))
                } else {
                    Err(stuck())
                }
            },
        }
    }
}

/// `key = value` in a token block: the key may also be one of the words that
/// name a node kind (`text = #111827`).
pub open spec fn entry_spec(toks: Seq<TokenV>, p: int) -> Result<(AttrV, int), ErrorView> {
    match ident_or_keyword_spec(toks, p) {
        Err(e) => Err(e),
        Ok((key, q1)) => match expect_spec(toks, q1, Kind::Equals) {
            Err(e) => Err(e),
            Ok((_, q2)) => match expr_spec(toks, q2) {
                Err(e) => Err(e),
                Ok((value, q3)) => Ok((AttrV { key, value, span: toks[p].span }, q3)),
            },
        },
    }
}

/// Token entries separated by optional commas up to `}`.
pub open spec fn entries_spec(toks: Seq<TokenV>, q: int, acc: Seq<AttrV>) -> Result<(Seq<AttrV>, int), ErrorView>
    decreases toks.len() - q,
{
    if q < 0 || q >= toks.len() {
        Err(stuck())
    } else if toks[q].kind == Kind::RBrace || toks[q].kind == Kind::Eof {
        Ok((acc, q))
    } else {
        match entry_spec(toks, q) {
            Err(e) => Err(e),
            Ok((a, r)) => {
                let r2 = skip_comma(toks, r);
                if q < r2 <= toks.len() {
                    entries_spec(toks, r2, acc.push(a))
                } else {
                    Err(stuck())
                }
            },
        }
    }
}

// -- Nodes --

pub open spec fn is_node_start(k: Kind) -> bool {
    k == Kind::Frame || k == Kind::Text || k == Kind::Image || k == Kind::Shape || k == Kind::Use
}

pub open spec fn node_kind_of(k: Kind) -> NodeKind {
    if k == Kind::Frame {
        NodeKind::Frame
    } else if k == Kind::Text {
        NodeKind::Text
    } else if k == Kind::Image {
        NodeKind::Image
    } else if k == Kind::Shape {
        NodeKind::Shape
    } else {
        NodeKind::Use
    }
}

/// The key of the `i`th positional argument of a `use`.
pub open spec fn arg_key(i: nat) -> Seq<char> {
    "__arg_"@ + nat_digits(i)
}

/// The arguments of `use name(...)` from `q` up to `)`: named ones keep their
/// name, positional ones are numbered; the first positional string is the
/// label.
pub open spec fn use_args_spec(toks: Seq<TokenV>, q: int, attrs: Seq<AttrV>, label: Option<Seq<char>>, idx: nat, span: Span) -> Result<(Seq<AttrV>, Option<Seq<char>>, int), ErrorView>
    decreases toks.len() - q,
{
    if q < 0 || q >= toks.len() {
        Err(stuck())
    } else if toks[q].kind == Kind::RParen || toks[q].kind == Kind::Eof {
        Ok((attrs, label, q))
    } else {
        let named = toks[q].kind is Ident && is(toks, q + 1, Kind::Equals);
        let start = if named { q + 2 } else { q };
        match expr_spec(toks, start) {
            Err(e) => Err(e),
            Ok((v, r)) => {
                let r2 = skip_comma(toks, r);
                if q < r2 <= toks.len() {
                    if named {
                        use_args_spec(toks, r2, attrs.push(AttrV { key: toks[q].kind->Ident_0, value: v, span }), label, idx, span)
                    } else {
                        let label2 = if !(toks[q].kind is Ident) && label is None && v is Str {
                            Some(v->Str_0)
                        } else {
                            label
                        };
                        use_args_spec(toks, r2, attrs.push(AttrV { key: arg_key(idx), value: v, span }), label2, idx + 1, span)
                    }
                } else {
                    Err(stuck())
                }
            },
        }
    }
}

/// `use name(args)`, after the `use` keyword at `p - 1`.
pub open spec fn use_spec(toks: Seq<TokenV>, p: int, span: Span) -> Result<(NodeV, int), ErrorView> {
    match ident_spec(toks, p) {
        Err(e) => Err(e),
        Ok((name, q1)) => match expect_spec(toks, q1, Kind::LParen) {
            Err(e) => Err(e),
            Ok((_, q2)) => match use_args_spec(toks, q2, Seq::empty(), None, 0, span) {
                Err(e) => Err(e),
                Ok((attrs, label, q3)) => match expect_spec(toks, q3, Kind::RParen) {
                    Err(e) => Err(e),
                    Ok((_, q4)) => Ok(
                        (
                            NodeV { kind: NodeKind::Use, name: Some(name), label, attrs, children: Seq::empty(), span },
                            q4,
                        ),
                    ),
                },
            },
        },
    }
}

/// A node at `p`: `frame`, `text`, `image`, `shape` or `use`.
pub open spec fn node_spec(toks: Seq<TokenV>, p: int) -> Result<(NodeV, int), ErrorView>
    decreases toks.len() - p, 0int,
{
    if p < 0 || p >= toks.len() {
        Err(stuck())
    } else if !is_node_start(toks[p].kind) {
        Err(err_at(ErrorKind::UnexpectedToken, "expected node, found "@ + kind_debug(toks[p].kind), toks[p]))
    } else if p + 1 >= toks.len() {
        Err(stuck())
    } else if toks[p].kind == Kind::Use {
        use_spec(toks, p + 1, toks[p].span)
    } else {
        let kind = node_kind_of(toks[p].kind);
        let has_label = kind == NodeKind::Text && toks[p + 1].kind is Str;
        let label: Option<Seq<char>> = if has_label { Some(toks[p + 1].kind->Str_0) } else { None };
        let q1 = if has_label { p + 2 } else { p + 1 };
        let has_name = 0 <= q1 < toks.len() && toks[q1].kind is Ident;
        let name: Option<Seq<char>> = if has_name { Some(toks[q1].kind->Ident_0) } else { None };
        let q2 = if has_name { q1 + 1 } else { q1 };
        if q2 >= toks.len() {
            Err(stuck())
        } else if toks[q2].kind != Kind::LBrace {
            Err(expected("LBrace"@, toks[q2]))
        } else {
            match body_spec(toks, q2 + 1, Seq::empty(), Seq::empty()) {
                Err(e) => Err(e),
                Ok((attrs, children, q3)) => match expect_spec(toks, q3, Kind::RBrace) {
                    Err(e) => Err(e),
                    Ok((_, q4)) => Ok((NodeV { kind, name, label, attrs, children, span: toks[p].span }, q4)),
                },
            }
        }
    }
}

/// The body of a node from `q` up to `}`: attributes (each with an optional
/// comma after it) and child nodes, in any order.
pub open spec fn body_spec(toks: Seq<TokenV>, q: int, attrs: Seq<AttrV>, children: Seq<NodeV>) -> Result<(Seq<AttrV>, Seq<NodeV>, int), ErrorView>
    decreases toks.len() - q, 1int,
{
    if q < 0 || q >= toks.len() {
        Err(stuck())
    } else if toks[q].kind == Kind::RBrace || toks[q].kind == Kind::Eof {
        Ok((attrs, children, q))
    } else if is_node_start(toks[q].kind) {
        match node_spec(toks, q) {
            Err(e) => Err(e),
            Ok((n, r)) => if q < r <= toks.len() {
                body_spec(toks, r, attrs, children.push(n))
            } else {
                Err(stuck())
            },
        }
    } else if toks[q].kind is Ident {
        match attr_spec(toks, q) {
            Err(e) => Err(e),
            Ok((a, r)) => {
                let r2 = skip_comma(toks, r);
                if q < r2 <= toks.len() {
                    body_spec(toks, r2, attrs.push(a), children)
                } else {
                    Err(stuck())
                }
            },
        }
    } else {
        Err(err_at(ErrorKind::UnexpectedToken, "unexpected token "@ + kind_debug(toks[q].kind) + " in node body"@, toks[q]))
    }
}

// -- Declarations --

/// `canvas "name" { attributes }`.
#[verifier::opaque]
pub open spec fn canvas_spec(toks: Seq<TokenV>, p: int) -> Result<(CanvasV, int), ErrorView> {
    match expect_spec(toks, p, Kind::Canvas) {
        Err(e) => Err(e),
        Ok((t, q1)) => match string_spec(toks, q1) {
            Err(e) => Err(e),
            Ok((name, q2)) => match expect_spec(toks, q2, Kind::LBrace) {
                Err(e) => Err(e),
                Ok((_, q3)) => match attrs_spec(toks, q3, Seq::empty()) {
                    Err(e) => Err(e),
                    Ok((attrs, q4)) => match expect_spec(toks, q4, Kind::RBrace) {
                        Err(e) => Err(e),
                        Ok((_, q5)) => Ok((CanvasV { name, attrs, span: t.span }, q5)),
                    },
                },
            },
        },
    }
}

/// `asset name = kind("path")`.
#[verifier::opaque]
pub open spec fn asset_spec(toks: Seq<TokenV>, p: int) -> Result<(AssetV, int), ErrorView> {
    match expect_spec(toks, p, Kind::Asset) {
        Err(e) => Err(e),
        Ok((t, q1)) => match ident_spec(toks, q1) {
            Err(e) => Err(e),
            Ok((name, q2)) => match expect_spec(toks, q2, Kind::Equals) {
                Err(e) => Err(e),
                Ok((_, q3)) => match ident_or_keyword_spec(toks, q3) {
                    Err(e) => Err(e),
                    Ok((kind, q4)) => match expect_spec(toks, q4, Kind::LParen) {
                        Err(e) => Err(e),
                        Ok((_, q5)) => match string_spec(toks, q5) {
                            Err(e) => Err(e),
                            Ok((path, q6)) => match expect_spec(toks, q6, Kind::RParen) {
                                Err(e) => Err(e),
                                Ok((_, q7)) => Ok((AssetV { name, kind, path, span: t.span }, q7)),
                            },
                        },
                    },
                },
            },
        },
    }
}

/// `let name = value`.
#[verifier::opaque]
pub open spec fn let_spec(toks: Seq<TokenV>, p: int) -> Result<(LetV, int), ErrorView> {
    match expect_spec(toks, p, Kind::Let) {
        Err(e) => Err(e),
        Ok((t, q1)) => match ident_spec(toks, q1) {
            Err(e) => Err(e),
            Ok((name, q2)) => match expect_spec(toks, q2, Kind::Equals) {
                Err(e) => Err(e),
                Ok((_, q3)) => match expr_spec(toks, q3) {
                    Err(e) => Err(e),
                    Ok((value, q4)) => Ok((LetV { name, value, span: t.span }, q4)),
                },
            },
        },
    }
}

/// `include "path"`, optionally followed by `as namespace`.
#[verifier::opaque]
pub open spec fn include_spec(toks: Seq<TokenV>, p: int) -> Result<(IncludeV, int), ErrorView> {
    match expect_spec(toks, p, Kind::Include) {
        Err(e) => Err(e),
        Ok((t, q1)) => match string_spec(toks, q1) {
            Err(e) => Err(e),
            Ok((path, q2)) => if is(toks, q2, Kind::Ident("as"@)) {
                match ident_spec(toks, q2 + 1) {
                    Err(e) => Err(e),
                    Ok((ns, q3)) => Ok((IncludeV { path, namespace: Some(ns), span: t.span }, q3)),
                }
            } else {
                Ok((IncludeV { path, namespace: None, span: t.span }, q2))
            },
        },
    }
}

/// Component parameters up to `)`: a name, an optional `= default`, an
/// optional comma.
pub open spec fn params_spec(toks: Seq<TokenV>, q: int, acc: Seq<ParamV>) -> Result<(Seq<ParamV>, int), ErrorView>
    decreases toks.len() - q,
{
    if q < 0 || q >= toks.len() {
        Err(stuck())
    } else if toks[q].kind == Kind::RParen || toks[q].kind == Kind::Eof {
        Ok((acc, q))
    } else {
        match ident_spec(toks, q) {
            Err(e) => Err(e),
            Ok((name, q1)) => if is(toks, q1, Kind::Equals) {
                match expr_spec(toks, q1 + 1) {
                    Err(e) => Err(e),
                    Ok((d, r)) => {
                        let r2 = skip_comma(toks, r);
                        if q < r2 <= toks.len() {
                            params_spec(toks, r2, acc.push(ParamV { name, default: Some(d) }))
                        } else {
                            Err(stuck())
                        }
                    },
                }
            } else {
                let r2 = skip_comma(toks, q1);
                if q < r2 <= toks.len() {
                    params_spec(toks, r2, acc.push(ParamV { name, default: None }))
                } else {
                    Err(stuck())
                }
            },
        }
    }
}

/// `component name(params) { node }`.
#[verifier::opaque]
pub open spec fn component_spec(toks: Seq<TokenV>, p: int) -> Result<(ComponentV, int), ErrorView> {
    match expect_spec(toks, p, Kind::Component) {
        Err(e) => Err(e),
        Ok((t, q1)) => match ident_spec(toks, q1) {
            Err(e) => Err(e),
            Ok((name, q2)) => match expect_spec(toks, q2, Kind::LParen) {
                Err(e) => Err(e),
                Ok((_, q3)) => match params_spec(toks, q3, Seq::empty()) {
                    Err(e) => Err(e),
                    Ok((params, q4)) => match expect_spec(toks, q4, Kind::RParen) {
                        Err(e) => Err(e),
                        Ok((_, q5)) => match expect_spec(toks, q5, Kind::LBrace) {
                            Err(e) => Err(e),
                            Ok((_, q6)) => match node_spec(toks, q6) {
                                Err(e) => Err(e),
                                Ok((body, q7)) => match expect_spec(toks, q7, Kind::RBrace) {
                                    Err(e) => Err(e),
                                    Ok((_, q8)) => Ok((ComponentV { name, params, body, span: t.span }, q8)),
                                },
                            },
                        },
                    },
                },
            },
        },
    }
}

/// The nodes of a page up to `}`.
pub open spec fn page_nodes_spec(toks: Seq<TokenV>, q: int, acc: Seq<NodeV>) -> Result<(Seq<NodeV>, int), ErrorView>
    decreases toks.len() - q,
{
    if q < 0 || q >= toks.len() {
        Err(stuck())
    } else if toks[q].kind == Kind::RBrace || toks[q].kind == Kind::Eof {
        Ok((acc, q))
    } else if is_node_start(toks[q].kind) {
        match node_spec(toks, q) {
            Err(e) => Err(e),
            Ok((n, r)) => if q < r <= toks.len() {
                page_nodes_spec(toks, r, acc.push(n))
            } else {
                Err(stuck())
            },
        }
    } else {
        Err(
            ErrorView {
                kind: ErrorKind::UnexpectedToken,
                message: "unexpected token "@ + kind_debug(toks[q].kind) + " in page body"@,
                span: Some(toks[q].span),
                hint: Some("pages can only contain node declarations"@),
            },
        )
    }
}

/// `page "name" { nodes }`.
#[verifier::opaque]
pub open spec fn page_spec(toks: Seq<TokenV>, p: int) -> Result<(PageV, int), ErrorView> {
    match expect_spec(toks, p, Kind::Page) {
        Err(e) => Err(e),
        Ok((t, q1)) => match string_spec(toks, q1) {
            Err(e) => Err(e),
            Ok((name, q2)) => match expect_spec(toks, q2, Kind::LBrace) {
                Err(e) => Err(e),
                Ok((_, q3)) => match page_nodes_spec(toks, q3, Seq::empty()) {
                    Err(e) => Err(e),
                    Ok((nodes, q4)) => match expect_spec(toks, q4, Kind::RBrace) {
                        Err(e) => Err(e),
                        Ok((_, q5)) => Ok((PageV { name, nodes, span: t.span }, q5)),
                    },
                },
            },
        },
    }
}

/// `token name { key = value ... }`, with the word `token` at `p`.
#[verifier::opaque]
pub open spec fn token_block_spec(toks: Seq<TokenV>, p: int) -> Result<(TokenBlockV, int), ErrorView> {
    match ident_spec(toks, p + 1) {
        Err(e) => Err(e),
        Ok((name, q1)) => match expect_spec(toks, q1, Kind::LBrace) {
            Err(e) => Err(e),
            Ok((_, q2)) => match entries_spec(toks, q2, Seq::empty()) {
                Err(e) => Err(e),
                Ok((attrs, q3)) => match expect_spec(toks, q3, Kind::RBrace) {
                    Err(e) => Err(e),
                    Ok((_, q4)) => Ok(
                        (
                            TokenBlockV {
                                name,
                                entries: attrs.map_values(|a: AttrV| TokenEntryV { key: a.key, value: a.value, span: a.span }),
                                span: toks[p].span,
                            },
                            q4,
                        ),
                    ),
                },
            },
        },
    }
}

pub open spec fn decl_hint() -> Seq<char> {
    "expected: canvas, asset, let, include, component, page, frame, text, image, shape, use"@
}

/// Continues a program with one more declaration parsed to `r`.
pub open spec fn step<T>(toks: Seq<TokenV>, p: int, r: Result<(T, int), ErrorView>, f: spec_fn(ProgramV, T) -> ProgramV, prog: ProgramV) -> Result<(ProgramV, int), ErrorView> {
    match r {
        Err(e) => Err(e),
        Ok((x, q)) => Ok((f(prog, x), q)),
    }
}

/// The declaration at `p` added to the program so far, and the position after
/// it.
#[verifier::opaque]
pub open spec fn decl_spec(toks: Seq<TokenV>, p: int, prog: ProgramV) -> Result<(ProgramV, int), ErrorView> {
    let k = toks[p].kind;
    if k == Kind::Canvas {
        step(toks, p, canvas_spec(toks, p), |g: ProgramV, c: CanvasV| ProgramV { canvas: Some(c), ..g }, prog)
    } else if k == Kind::Asset {
        step(toks, p, asset_spec(toks, p), |g: ProgramV, a: AssetV| ProgramV { assets: g.assets.push(a), ..g }, prog)
    } else if k == Kind::Let {
        step(toks, p, let_spec(toks, p), |g: ProgramV, l: LetV| ProgramV { variables: g.variables.push(l), ..g }, prog)
    } else if k == Kind::Include {
        step(toks, p, include_spec(toks, p), |g: ProgramV, i: IncludeV| ProgramV { includes: g.includes.push(i), ..g }, prog)
    } else if k == Kind::Component {
        step(toks, p, component_spec(toks, p), |g: ProgramV, c: ComponentV| ProgramV { components: g.components.push(c), ..g }, prog)
    } else if k == Kind::Page {
        step(toks, p, page_spec(toks, p), |g: ProgramV, pg: PageV| ProgramV { pages: g.pages.push(pg), ..g }, prog)
    } else if is_node_start(k) {
        step(toks, p, node_spec(toks, p), |g: ProgramV, n: NodeV| ProgramV { nodes: g.nodes.push(n), ..g }, prog)
    } else if k == Kind::Ident("token"@) {
        step(toks, p, token_block_spec(toks, p), |g: ProgramV, b: TokenBlockV| ProgramV { token_blocks: g.token_blocks.push(b), ..g }, prog)
    } else {
        Err(
            ErrorView {
                kind: ErrorKind::ExpectedDeclaration,
                message: "expected top-level declaration, found "@ + kind_debug(k),
                span: Some(toks[p].span),
                hint: Some(decl_hint()),
            },
        )
    }
}

/// The declarations from `p` to the end of input, added to `prog`.
pub open spec fn program_spec(toks: Seq<TokenV>, p: int, prog: ProgramV) -> Result<ProgramV, ErrorView>
    decreases toks.len() - p,
{
    if p < 0 || at_end(toks, p) {
        Ok(prog)
    } else {
        match decl_spec(toks, p, prog) {
            Err(e) => Err(e),
            Ok((g, q)) => if p < q <= toks.len() {
                program_spec(toks, q, g)
            } else {
                Err(stuck())
            },
        }
    }
}

pub open spec fn empty_program() -> ProgramV {
    ProgramV {
        canvas: None,
        assets: Seq::empty(),
        variables: Seq::empty(),
        includes: Seq::empty(),
        components: Seq::empty(),
        nodes: Seq::empty(),
        pages: Seq::empty(),
        token_blocks: Seq::empty(),
    }
}

/// The program that a token sequence spells, or the first syntax error.
pub open spec fn parse_spec(toks: Seq<TokenV>) -> Result<ProgramV, ErrorView> {
    program_spec(toks, 0, empty_program())
}

} // verus!
