use vstd::prelude::*;

use crate::ast::{
    attr_view, attrs_view, block_view, canvas_view, component_view, expr_view, exprs_view,
    include_view, let_view, node_view, nodes_view, page_view, pairs_view, param_view, program_view,
    asset_view, AssetDecl, AssetV, AttrV, Attribute, CanvasDecl, CanvasV, ComponentDecl,
    ComponentParam, ComponentV, Expr, Expression, IncludeDecl, IncludeV, LetDecl, LetV, NodeDecl,
    NodeKind, NodeV, PageDecl, PageV, ParamV, Program, ProgramV, TokenBlock, TokenBlockV,
    TokenEntryV,
};
use crate::expr::{lemma_exprs_view_len, lemma_pairs_view_len};
use crate::number::{decimal_chars, Decimal};
use crate::text::{chars_of, int_chars, push_char, push_int, push_str};
use crate::semantic::expand::lemma_nodes_view_len;

verus! {

// ---------------------------------------------------------------------------
// Source text of a syntax tree
// ---------------------------------------------------------------------------

/// A number as source text: a whole number below 10^15 in size keeps a
/// ".0"; any other number is written as it is.
pub open spec fn float_text(d: Decimal) -> Seq<char> {
    if d.scl() == 0 {
        if -1000000000000000 < d.mant() < 1000000000000000 {
            int_chars(d.mant()) + ".0"@
        } else {
            int_chars(d.mant())
        }
    } else {
        decimal_chars(d)
    }
}

/// An expression as source text.
pub open spec fn fmt_expr_spec(e: Expr) -> Seq<char>
    decreases e, 1int,
{
    match e {
        Expr::Integer(n) => int_chars(n),
        Expr::Float(d) => float_text(d),
        Expr::Str(s) => "\""@ + s + "\""@,
        Expr::Color(c) => "#"@ + c,
        Expr::Bool(b) => if b { "true"@ } else { "false"@ },
        Expr::Ident(s) => s,
        Expr::Array(items) => "["@ + fmt_list(items) + "]"@,
        Expr::Object(pairs) => if pairs.len() == 0 {
            "{}"@
        } else {
            "{ "@ + fmt_pairs(pairs) + " }"@
        },
        Expr::Call(name, args) => name + "("@ + fmt_list(args) + ")"@,
    }
}

/// Expressions separated by ", ".
pub open spec fn fmt_list(s: Seq<Expr>) -> Seq<char>
    decreases s, 0int,
{
    if s.len() == 0 {
        Seq::empty()
    } else {
        proof {
            assert(decreases_to!(s => s[s.len() - 1]));
        }
        let sep: Seq<char> = if s.len() > 1 { ", "@ } else { Seq::empty() };
        fmt_list(s.drop_last()) + sep + fmt_expr_spec(s.last())
    }
}

/// `key = value` entries separated by ", ".
pub open spec fn fmt_pairs(s: Seq<(Seq<char>, Expr)>) -> Seq<char>
    decreases s, 0int,
{
    if s.len() == 0 {
        Seq::empty()
    } else {
        proof {
            assert(decreases_to!(s => s[s.len() - 1]));
            assert(decreases_to!(s[s.len() - 1] => s[s.len() - 1].1));
        }
        let sep: Seq<char> = if s.len() > 1 { ", "@ } else { Seq::empty() };
        fmt_pairs(s.drop_last()) + sep + s.last().0 + " = "@ + fmt_expr_spec(s.last().1)
    }
}

/// Appends an expression as source text.
pub fn push_expr(s: &mut String, e: &Expression)
    ensures
        final(s)@ == old(s)@ + fmt_expr_spec(expr_view(*e)),
    decreases e,
{
    match e {
        Expression::Integer(n) => push_int(s, *n),
        Expression::Float(d) => {
            if d.scale() == 0 {
                push_int(s, d.mantissa());
                if -1000000000000000 < d.mantissa() && d.mantissa() < 1000000000000000 {
                    push_str(s, ".0");
                }
            } else {
                d.push_text(s);
            }
        },
        Expression::String(t) => {
            push_str(s, "\"");
            push_str(s, t.as_str());
            push_str(s, "\"");
        },
        Expression::Color(c) => {
            push_str(s, "#");
            push_str(s, c.as_str());
        },
        Expression::Bool(b) => {
            if *b {
                push_str(s, "true");
            } else {
                push_str(s, "false");
            }
        },
        Expression::Ident(t) => push_str(s, t.as_str()),
        Expression::Array(items) => {
            push_str(s, "[");
            push_list(s, items);
            push_str(s, "]");
        },
        Expression::Object(pairs) => {
            if pairs.len() == 0 {
                push_str(s, "{}");
            } else {
                push_str(s, "{ ");
                push_pairs(s, pairs);
                push_str(s, " }");
            }
        },
        Expression::FunctionCall { name, args } => {
            push_str(s, name.as_str());
            push_str(s, "(");
            push_list(s, args);
            push_str(s, ")");
        },
    }
    proof {
        assert(final(s)@ =~= old(s)@ + fmt_expr_spec(expr_view(*e)));
    }
}

fn push_list(s: &mut String, items: &Vec<Expression>)
    ensures
        final(s)@ == old(s)@ + fmt_list(exprs_view(items@)),
    decreases items,
{
    proof {
        lemma_exprs_view_len(items@);
    }
    let ghost start = s@;
    let mut i: usize = 0;
    while i < items.len()
        invariant
            i <= items.len(),
            exprs_view(items@).len() == items.len(),
            forall|k: int| 0 <= k < items.len() ==> #[trigger] exprs_view(items@)[k] == expr_view(items@[k]),
            s@ == start + fmt_list(exprs_view(items@).subrange(0, i as int)),
        decreases items.len() - i,
    {
        if i > 0 {
            push_str(s, ", ");
        }
        proof {
            assert(decreases_to!(items => items@));
            assert(decreases_to!(items@ => items@[i as int]));
        }
        push_expr(s, &items[i]);
        proof {
            let sub = exprs_view(items@).subrange(0, i + 1);
            assert(sub.drop_last() =~= exprs_view(items@).subrange(0, i as int));
            assert(s@ =~= start + fmt_list(sub));
        }
        i = i + 1;
    }
    proof {
        assert(exprs_view(items@).subrange(0, items.len() as int) =~= exprs_view(items@));
    }
}

fn push_pairs(s: &mut String, pairs: &Vec<(String, Expression)>)
    ensures
        final(s)@ == old(s)@ + fmt_pairs(pairs_view(pairs@)),
    decreases pairs,
{
    proof {
        lemma_pairs_view_len(pairs@);
    }
    let ghost start = s@;
    let mut i: usize = 0;
    while i < pairs.len()
        invariant
            i <= pairs.len(),
            pairs_view(pairs@).len() == pairs.len(),
            forall|k: int| 0 <= k < pairs.len() ==> #[trigger] pairs_view(pairs@)[k] == (pairs@[k].0@, expr_view(pairs@[k].1)),
            s@ == start + fmt_pairs(pairs_view(pairs@).subrange(0, i as int)),
        decreases pairs.len() - i,
    {
        if i > 0 {
            push_str(s, ", ");
        }
        push_str(s, pairs[i].0.as_str());
        push_str(s, " = ");
        proof {
            assert(decreases_to!(pairs => pairs@));
            assert(decreases_to!(pairs@ => pairs@[i as int]));
            assert(decreases_to!(pairs@[i as int] => pairs@[i as int].1));
        }
        push_expr(s, &pairs[i].1);
        proof {
            let sub = pairs_view(pairs@).subrange(0, i + 1);
            assert(sub.drop_last() =~= pairs_view(pairs@).subrange(0, i as int));
            assert(s@ =~= start + fmt_pairs(sub));
        }
        i = i + 1;
    }
    proof {
        assert(pairs_view(pairs@).subrange(0, pairs.len() as int) =~= pairs_view(pairs@));
    }
}

/// An expression as source text.
pub fn fmt_expr(e: &Expression) -> (r: String)
    ensures
        r@ == fmt_expr_spec(expr_view(*e)),
{
    let mut s = String::new();
    push_expr(&mut s, e);
    s
}

// -- Nodes --

pub open spec fn kind_word(k: NodeKind) -> Seq<char> {
    match k {
        NodeKind::Frame => "frame"@,
        NodeKind::Text => "text"@,
        NodeKind::Image => "image"@,
        NodeKind::Shape => "shape"@,
        NodeKind::Use => "use"@,
    }
}

/// The number of bytes a character takes in UTF-8.
pub open spec fn utf8_width(c: char) -> int {
    let u = c as u32;
    if u < 0x80 {
        1
    } else if u < 0x800 {
        2
    } else if u < 0x10000 {
        3
    } else {
        4
    }
}

/// The number of bytes a text takes in UTF-8.
pub open spec fn utf8_len(s: Seq<char>) -> int
    decreases s.len(),
{
    if s.len() == 0 {
        0
    } else {
        utf8_len(s.drop_last()) + utf8_width(s.last())
    }
}

/// The width of attributes written inline, in bytes: each key and value,
/// plus room for " = " and ", ".
pub open spec fn inline_len(attrs: Seq<AttrV>) -> int
    decreases attrs.len(),
{
    if attrs.len() == 0 {
        0
    } else {
        inline_len(attrs.drop_last()) + utf8_len(attrs.last().key) + utf8_len(fmt_expr_spec(attrs.last().value)) + 5
    }
}

/// The key of a positional argument of a `use`: one that starts with
/// `__arg_`.
pub open spec fn is_positional(key: Seq<char>) -> bool {
    key.len() >= 6 && key.subrange(0, 6) == "__arg_"@
}

/// One argument of a `use`: a positional one as its value, a named one as
/// `key = value`.
pub open spec fn use_arg_text(a: AttrV) -> Seq<char> {
    if is_positional(a.key) {
        fmt_expr_spec(a.value)
    } else {
        a.key + " = "@ + fmt_expr_spec(a.value)
    }
}

/// The arguments of a `use`, separated by ", ".
pub open spec fn use_args_text(attrs: Seq<AttrV>) -> Seq<char>
    decreases attrs.len(),
{
    if attrs.len() == 0 {
        Seq::empty()
    } else {
        let sep: Seq<char> = if attrs.len() > 1 { ", "@ } else { Seq::empty() };
        use_args_text(attrs.drop_last()) + sep + use_arg_text(attrs.last())
    }
}

/// `key = value` pairs separated by ", ".
pub open spec fn inline_attrs(attrs: Seq<AttrV>) -> Seq<char>
    decreases attrs.len(),
{
    if attrs.len() == 0 {
        Seq::empty()
    } else {
        let sep: Seq<char> = if attrs.len() > 1 { ", "@ } else { Seq::empty() };
        inline_attrs(attrs.drop_last()) + sep + attrs.last().key + " = "@ + fmt_expr_spec(attrs.last().value)
    }
}

/// One line per attribute, each after the indentation.
pub open spec fn attr_lines(attrs: Seq<AttrV>, ind: Seq<char>) -> Seq<char>
    decreases attrs.len(),
{
    if attrs.len() == 0 {
        Seq::empty()
    } else {
        attr_lines(attrs.drop_last(), ind) + ind + attrs.last().key + " = "@ + fmt_expr_spec(attrs.last().value) + "\n"@
    }
}

/// Whether a text node is written on one line: it has a label, no children,
/// one to three attributes, and they are short.
pub open spec fn is_inline(n: NodeV) -> bool {
    &&& n.kind == NodeKind::Text
    &&& n.label is Some
    &&& n.children.len() == 0
    &&& 0 < n.attrs.len() <= 3
    &&& inline_len(n.attrs) < 60
}

/// The opening of a node: its kind, then the label of a text node, then
/// the name of the node.
pub open spec fn node_head(n: NodeV, ind: Seq<char>) -> Seq<char> {
    ind + kind_word(n.kind) + (if n.kind == NodeKind::Text {
        match n.label {
            Some(l) => " \""@ + l + "\""@,
            None => Seq::empty(),
        }
    } else {
        Seq::empty()
    }) + match n.name {
        Some(x) => " "@ + x,
        None => Seq::empty(),
    }
}

/// A node as source text, indented by `ind`; its attributes and children
/// are indented four spaces more.
pub open spec fn fmt_node_spec(n: NodeV, ind: Seq<char>) -> Seq<char>
    decreases n, 1int,
{
    if n.kind == NodeKind::Use {
        node_head(n, ind) + "("@ + use_args_text(n.attrs) + ")\n"@
    } else if is_inline(n) {
        node_head(n, ind) + " { "@ + inline_attrs(n.attrs) + " }\n"@
    } else {
        let head = node_head(n, ind);
        if n.attrs.len() == 0 && n.children.len() == 0 {
            head + " {}\n"@
        } else {
            let inner = ind + "    "@;
            head + " {\n"@ + attr_lines(n.attrs, inner) + fmt_nodes_spec(n.children, inner) + ind + "}\n"@
        }
    }
}

pub open spec fn fmt_nodes_spec(s: Seq<NodeV>, ind: Seq<char>) -> Seq<char>
    decreases s, 0int,
{
    if s.len() == 0 {
        Seq::empty()
    } else {
        proof {
            assert(decreases_to!(s => s[s.len() - 1]));
        }
        fmt_nodes_spec(s.drop_last(), ind) + fmt_node_spec(s.last(), ind)
    }
}

fn push_attr_lines(s: &mut String, attrs: &Vec<Attribute>, ind: &str)
    ensures
        final(s)@ == old(s)@ + attr_lines(attrs_view(attrs@), ind@),
{
    let ghost start = s@;
    let ghost av = attrs_view(attrs@);
    let mut i: usize = 0;
    while i < attrs.len()
        invariant
            i <= attrs.len(),
            av == attrs_view(attrs@),
            s@ == start + attr_lines(av.subrange(0, i as int), ind@),
        decreases attrs.len() - i,
    {
        push_str(s, ind);
        push_str(s, attrs[i].key.as_str());
        push_str(s, " = ");
        push_expr(s, &attrs[i].value);
        push_str(s, "\n");
        proof {
            let sub = av.subrange(0, i + 1);
            assert(sub.drop_last() =~= av.subrange(0, i as int));
            assert(s@ =~= start + attr_lines(sub, ind@));
        }
        i = i + 1;
    }
    proof {
        assert(av.subrange(0, attrs.len() as int) =~= av);
    }
}

/// The number of bytes a text takes in UTF-8, or `usize::MAX` where that
/// does not fit.
pub(crate) fn utf8_count(s: &str) -> (r: usize)
    ensures
        r == utf8_len(s@) || (r == usize::MAX && utf8_len(s@) >= usize::MAX),
{
    let cs = chars_of(s);
    let mut n: usize = 0;
    let mut i: usize = 0;
    while i < cs.len()
        invariant
            i <= cs.len(),
            cs@ == s@,
            n == utf8_len(cs@.subrange(0, i as int)) || (n == usize::MAX && utf8_len(cs@.subrange(0, i as int))
                >= usize::MAX),
        decreases cs.len() - i,
    {
        let c = cs[i];
        let u = c as u32;
        let w: usize = if u < 0x80 {
            1
        } else if u < 0x800 {
            2
        } else if u < 0x10000 {
            3
        } else {
            4
        };
        proof {
            let sub = cs@.subrange(0, i + 1);
            assert(sub.drop_last() =~= cs@.subrange(0, i as int));
            assert(sub.last() == c);
        }
        if n == usize::MAX || w > usize::MAX - n {
            n = usize::MAX;
        } else {
            n = n + w;
        }
        i = i + 1;
    }
    proof {
        assert(cs@.subrange(0, cs.len() as int) =~= cs@);
    }
    n
}

/// Whether a key is that of a positional argument of a `use`.
fn is_positional_key(key: &str) -> (b: bool)
    ensures
        b == is_positional(key@),
{
    proof {
        reveal_strlit("__arg_");
    }
    let cs = chars_of(key);
    if cs.len() < 6 {
        return false;
    }
    let b = cs[0] == '_' && cs[1] == '_' && cs[2] == 'a' && cs[3] == 'r' && cs[4] == 'g' && cs[5] == '_';
    proof {
        if b {
            assert(key@.subrange(0, 6) =~= "__arg_"@);
        } else {
            assert(key@.subrange(0, 6) != "__arg_"@) by {
                if key@.subrange(0, 6) == "__arg_"@ {
                    assert(key@.subrange(0, 6)[0] == '_');
                    assert(key@.subrange(0, 6)[1] == '_');
                    assert(key@.subrange(0, 6)[2] == 'a');
                    assert(key@.subrange(0, 6)[3] == 'r');
                    assert(key@.subrange(0, 6)[4] == 'g');
                    assert(key@.subrange(0, 6)[5] == '_');
                }
            }
        }
    }
    b
}

/// Appends the arguments of a `use`.
fn push_use_args(s: &mut String, attrs: &Vec<Attribute>)
    ensures
        final(s)@ == old(s)@ + use_args_text(attrs_view(attrs@)),
{
    let ghost start = s@;
    let ghost av = attrs_view(attrs@);
    let mut i: usize = 0;
    while i < attrs.len()
        invariant
            i <= attrs.len(),
            av == attrs_view(attrs@),
            s@ == start + use_args_text(av.subrange(0, i as int)),
        decreases attrs.len() - i,
    {
        let ghost before = s@;
        if i > 0 {
            push_str(s, ", ");
        }
        if !is_positional_key(attrs[i].key.as_str()) {
            push_str(s, attrs[i].key.as_str());
            push_str(s, " = ");
        }
        push_expr(s, &attrs[i].value);
        proof {
            let sub = av.subrange(0, i + 1);
            assert(sub.drop_last() =~= av.subrange(0, i as int));
            assert(sub.last() == av[i as int]);
            assert(s@ =~= start + use_args_text(sub));
        }
        i = i + 1;
    }
    proof {
        assert(av.subrange(0, attrs.len() as int) =~= av);
    }
}

/// The width and text of attributes written inline.
fn inline_parts(attrs: &Vec<Attribute>) -> (r: (usize, String))
    requires
        attrs.len() <= 3,
    ensures
        r.0 == inline_len(attrs_view(attrs@)) || (r.0 == usize::MAX && inline_len(attrs_view(attrs@)) >= usize::MAX),
        r.1@ == inline_attrs(attrs_view(attrs@)),
{
    let ghost av = attrs_view(attrs@);
    let mut total: usize = 0;
    let mut text = String::new();
    let mut i: usize = 0;
    while i < attrs.len()
        invariant
            i <= attrs.len() <= 3,
            av == attrs_view(attrs@),
            total == inline_len(av.subrange(0, i as int)) || (total == usize::MAX && inline_len(av.subrange(0, i as int)) >= usize::MAX),
            inline_len(av.subrange(0, i as int)) >= 0,
            text@ == inline_attrs(av.subrange(0, i as int)),
        decreases attrs.len() - i,
    {
        let v = fmt_expr(&attrs[i].value);
        if i > 0 {
            push_str(&mut text, ", ");
        }
        push_str(&mut text, attrs[i].key.as_str());
        push_str(&mut text, " = ");
        push_str(&mut text, v.as_str());
        let klen = utf8_count(attrs[i].key.as_str());
        let vlen = utf8_count(v.as_str());
        let ghost sub = av.subrange(0, i + 1);
        proof {
            assert(sub.drop_last() =~= av.subrange(0, i as int));
            assert(text@ =~= inline_attrs(sub));
        }
        if total == usize::MAX || klen > usize::MAX - total || vlen > usize::MAX - total - klen
            || 5 > usize::MAX - total - klen - vlen {
            total = usize::MAX;
        } else {
            total = total + klen + vlen + 5;
        }
        i = i + 1;
    }
    proof {
        assert(av.subrange(0, attrs.len() as int) =~= av);
    }
    (total, text)
}

/// Appends a `use` as source text.
fn push_use_node(s: &mut String, node: &NodeDecl, ind: &str)
    requires
        node.kind == NodeKind::Use,
    ensures
        final(s)@ == old(s)@ + fmt_node_spec(node_view(*node), ind@),
{
    push_node_head(s, node, ind);
    push_str(s, "(");
    push_use_args(s, &node.attrs);
    push_str(s, ")\n");
    proof {
        assert(final(s)@ =~= old(s)@ + fmt_node_spec(node_view(*node), ind@));
    }
}

/// Appends a node as source text.
#[verifier::rlimit(60)]
#[verifier::spinoff_prover]
pub fn push_node(s: &mut String, node: &NodeDecl, ind: &str)
    ensures
        final(s)@ == old(s)@ + fmt_node_spec(node_view(*node), ind@),
    decreases node,
{
    let ghost nv = node_view(*node);
    // A use is written with its arguments in brackets
    if node.kind == NodeKind::Use {
        push_use_node(s, node, ind);
        return;
    }
    // Text nodes with a label and short attrs can be inline
    if node.kind == NodeKind::Text && node.children.len() == 0 && node.attrs.len() <= 3 && node.attrs.len() > 0
        && node.label.is_some() {
        let (total, pairs) = inline_parts(&node.attrs);
        if total < 60 {
            push_node_head(s, node, ind);
            push_str(s, " { ");
            push_str(s, pairs.as_str());
            push_str(s, " }\n");
            proof {
                assert(final(s)@ =~= old(s)@ + fmt_node_spec(nv, ind@));
            }
            return;
        }
    }
    push_node_head(s, node, ind);
    let ghost head = s@;
    if node.attrs.len() == 0 && node.children.len() == 0 {
        push_str(s, " {}\n");
        proof {
            assert(final(s)@ =~= old(s)@ + fmt_node_spec(nv, ind@));
        }
        return;
    }
    push_str(s, " {\n");
    let mut inner = String::new();
    push_str(&mut inner, ind);
    push_str(&mut inner, "    ");
    let ghost before_attrs = s@;
    push_attr_lines(s, &node.attrs, inner.as_str());
    push_children(s, &node.children, inner.as_str());
    push_str(s, ind);
    push_str(s, "}\n");
    proof {
        assert(final(s)@ =~= old(s)@ + fmt_node_spec(nv, ind@));
    }
}

fn push_node_head(s: &mut String, node: &NodeDecl, ind: &str)
    ensures
        final(s)@ == old(s)@ + node_head(node_view(*node), ind@),
{
    push_str(s, ind);
    match node.kind {
        NodeKind::Frame => push_str(s, "frame"),
        NodeKind::Text => push_str(s, "text"),
        NodeKind::Image => push_str(s, "image"),
        NodeKind::Shape => push_str(s, "shape"),
        NodeKind::Use => push_str(s, "use"),
    }
    if node.kind == NodeKind::Text {
        match &node.label {
            Some(l) => {
                push_str(s, " \"");
                push_str(s, l.as_str());
                push_str(s, "\"");
            },
            None => {},
        }
    }
    match &node.name {
        Some(x) => {
            push_str(s, " ");
            push_str(s, x.as_str());
        },
        None => {},
    }
    proof {
        assert(final(s)@ =~= old(s)@ + node_head(node_view(*node), ind@));
    }
}

/// Appends nodes as source text.
fn push_children(s: &mut String, children: &Vec<NodeDecl>, ind: &str)
    ensures
        final(s)@ == old(s)@ + fmt_nodes_spec(nodes_view(children@), ind@),
    decreases children,
{
    proof {
        lemma_nodes_view_len(children@);
    }
    let ghost start = s@;
    let mut i: usize = 0;
    while i < children.len()
        invariant
            i <= children.len(),
            nodes_view(children@).len() == children.len(),
            forall|k: int| 0 <= k < children.len() ==> #[trigger] nodes_view(children@)[k] == node_view(children@[k]),
            s@ == start + fmt_nodes_spec(nodes_view(children@).subrange(0, i as int), ind@),
        decreases children.len() - i,
    {
        proof {
            assert(decreases_to!(children => children@));
            assert(decreases_to!(children@ => children@[i as int]));
        }
        push_node(s, &children[i], ind);
        proof {
            let sub = nodes_view(children@).subrange(0, i + 1);
            assert(sub.drop_last() =~= nodes_view(children@).subrange(0, i as int));
            assert(s@ =~= start + fmt_nodes_spec(sub, ind@));
        }
        i = i + 1;
    }
    proof {
        assert(nodes_view(children@).subrange(0, children.len() as int) =~= nodes_view(children@));
    }
}

// -- Declarations --

pub open spec fn include_text(i: IncludeV) -> Seq<char> {
    "include \""@ + i.path + "\""@ + match i.namespace {
        Some(ns) => " as "@ + ns,
        None => Seq::empty(),
    } + "\n"@
}

pub open spec fn asset_text(a: AssetV) -> Seq<char> {
    "asset "@ + a.name + " = "@ + a.kind + "(\""@ + a.path + "\")\n"@
}

pub open spec fn let_text(l: LetV) -> Seq<char> {
    "let "@ + l.name + " = "@ + fmt_expr_spec(l.value) + "\n"@
}

pub open spec fn canvas_text(c: CanvasV) -> Seq<char> {
    "canvas \""@ + c.name + "\" {\n"@ + attr_lines(c.attrs, "    "@) + "}\n"@
}

pub open spec fn token_text(b: TokenBlockV) -> Seq<char> {
    "token "@ + b.name + " {\n"@ + attr_lines(
        b.entries.map_values(|e: TokenEntryV| AttrV { key: e.key, value: e.value, span: e.span }),
        "    "@,
    ) + "}\n"@
}

/// Parameters separated by ", ", each with " = default" when it has one.
pub open spec fn params_text(ps: Seq<ParamV>) -> Seq<char>
    decreases ps.len(),
{
    if ps.len() == 0 {
        Seq::empty()
    } else {
        let sep: Seq<char> = if ps.len() > 1 { ", "@ } else { Seq::empty() };
        let p = ps.last();
        params_text(ps.drop_last()) + sep + p.name + match p.default {
            Some(d) => " = "@ + fmt_expr_spec(d),
            None => Seq::empty(),
        }
    }
}

pub open spec fn component_text(c: ComponentV) -> Seq<char> {
    "component "@ + c.name + "("@ + params_text(c.params) + ") {\n"@ + fmt_node_spec(c.body, "    "@) + "}\n"@
}

pub open spec fn page_text(p: PageV) -> Seq<char> {
    "page \""@ + p.name + "\" {\n"@ + fmt_nodes_spec(p.nodes, "    "@) + "}\n"@
}

/// The text of each declaration, in the order they are written: includes,
/// assets, variables, token blocks, the canvas, components, nodes, pages.
pub open spec fn decl_texts(p: ProgramV) -> Seq<Seq<char>> {
    p.includes.map_values(|i: IncludeV| include_text(i)) + p.assets.map_values(|a: AssetV| asset_text(a))
        + p.variables.map_values(|l: LetV| let_text(l)) + p.token_blocks.map_values(|b: TokenBlockV| token_text(b))
        + match p.canvas {
        Some(c) => seq![canvas_text(c)],
        None => Seq::empty(),
    } + p.components.map_values(|c: ComponentV| component_text(c)) + p.nodes.map_values(
        |n: NodeV| fmt_node_spec(n, Seq::empty()),
    ) + p.pages.map_values(|pg: PageV| page_text(pg))
}

/// Texts with a blank line between each two.
pub open spec fn join_decls(ts: Seq<Seq<char>>) -> Seq<char>
    decreases ts.len(),
{
    if ts.len() == 0 {
        Seq::empty()
    } else {
        let sep: Seq<char> = if ts.len() > 1 { "\n"@ } else { Seq::empty() };
        join_decls(ts.drop_last()) + sep + ts.last()
    }
}

/// The formatted source of a program, ending with a line break when it is
/// not empty.
pub open spec fn format_spec(p: ProgramV) -> Seq<char> {
    let body = join_decls(decl_texts(p));
    if body.len() > 0 && body.last() != '\n' { body.push('\n') } else { body }
}

/// AST round-trip formatter for .pastel source files.
pub struct Formatter {
    buf: String,
}

/// The texts of the declarations so far.
pub open spec fn texts_view(v: Seq<String>) -> Seq<Seq<char>> {
    v.map_values(|t: String| t@)
}

proof fn lemma_texts_push(v: Seq<String>, t: String)
    ensures
        texts_view(v.push(t)) == texts_view(v).push(t@),
{
    assert(texts_view(v.push(t)) =~= texts_view(v).push(t@));
}

impl Formatter {
    /// The text written so far and not yet handed out.
    pub closed spec fn written(&self) -> Seq<char> {
        self.buf@
    }

    /// A formatter with nothing written yet.
    pub fn new() -> (f: Formatter)
        ensures
            f.written() == Seq::<char>::empty(),
    {
        Formatter { buf: String::new() }
    }

    pub fn format(self, program: &Program) -> (r: String)
        ensures
            r@ == format_spec(program_view(*program)),
    {
        let ghost pv = program_view(*program);
        let mut texts: Vec<String> = Vec::new();
        let ghost t0 = texts_view(texts@);
        proof {
            assert(t0 =~= Seq::<Seq<char>>::empty());
        }
        let mut i: usize = 0;
        while i < program.includes.len()
            invariant
                i <= program.includes.len(),
                pv == program_view(*program),
                texts_view(texts@) == pv.includes.subrange(0, i as int).map_values(|x: IncludeV| include_text(x)),
            decreases program.includes.len() - i,
        {
            let t = include_string(&program.includes[i]);
            proof {
                lemma_texts_push(texts@, t);
                assert(pv.includes.subrange(0, i + 1).map_values(|x: IncludeV| include_text(x)) =~= pv.includes.subrange(
                    0,
                    i as int,
                ).map_values(|x: IncludeV| include_text(x)).push(t@));
            }
            texts.push(t);
            i = i + 1;
        }
        let ghost t1 = texts_view(texts@);
        proof {
            assert(pv.includes.subrange(0, program.includes.len() as int) =~= pv.includes);
        }
        let mut i: usize = 0;
        while i < program.assets.len()
            invariant
                i <= program.assets.len(),
                pv == program_view(*program),
                texts_view(texts@) == t1 + pv.assets.subrange(0, i as int).map_values(|x: AssetV| asset_text(x)),
            decreases program.assets.len() - i,
        {
            let t = asset_string(&program.assets[i]);
            proof {
                lemma_texts_push(texts@, t);
                assert(t1 + pv.assets.subrange(0, i + 1).map_values(|x: AssetV| asset_text(x)) =~= (t1 + pv.assets.subrange(
                    0,
                    i as int,
                ).map_values(|x: AssetV| asset_text(x))).push(t@));
            }
            texts.push(t);
            i = i + 1;
        }
        let ghost t2 = texts_view(texts@);
        proof {
            assert(pv.assets.subrange(0, program.assets.len() as int) =~= pv.assets);
        }
        let mut i: usize = 0;
        while i < program.variables.len()
            invariant
                i <= program.variables.len(),
                pv == program_view(*program),
                texts_view(texts@) == t2 + pv.variables.subrange(0, i as int).map_values(|x: LetV| let_text(x)),
            decreases program.variables.len() - i,
        {
            let t = let_string(&program.variables[i]);
            proof {
                lemma_texts_push(texts@, t);
                assert(t2 + pv.variables.subrange(0, i + 1).map_values(|x: LetV| let_text(x)) =~= (t2 + pv.variables.subrange(
                    0,
                    i as int,
                ).map_values(|x: LetV| let_text(x))).push(t@));
            }
            texts.push(t);
            i = i + 1;
        }
        let ghost t3 = texts_view(texts@);
        proof {
            assert(pv.variables.subrange(0, program.variables.len() as int) =~= pv.variables);
        }
        let mut i: usize = 0;
        while i < program.token_blocks.len()
            invariant
                i <= program.token_blocks.len(),
                pv == program_view(*program),
                texts_view(texts@) == t3 + pv.token_blocks.subrange(0, i as int).map_values(|x: TokenBlockV| token_text(x)),
            decreases program.token_blocks.len() - i,
        {
            let t = token_string(&program.token_blocks[i]);
            proof {
                lemma_texts_push(texts@, t);
                assert(t3 + pv.token_blocks.subrange(0, i + 1).map_values(|x: TokenBlockV| token_text(x)) =~= (t3
                    + pv.token_blocks.subrange(0, i as int).map_values(|x: TokenBlockV| token_text(x))).push(t@));
            }
            texts.push(t);
            i = i + 1;
        }
        let ghost t4 = texts_view(texts@);
        proof {
            assert(pv.token_blocks.subrange(0, program.token_blocks.len() as int) =~= pv.token_blocks);
        }
        match &program.canvas {
            Some(c) => {
                let t = canvas_string(c);
                proof {
                    lemma_texts_push(texts@, t);
                }
                texts.push(t);
            },
            None => {},
        }
        let ghost t5 = texts_view(texts@);
        proof {
            assert(t5 =~= t4 + match pv.canvas {
                Some(c) => seq![canvas_text(c)],
                None => Seq::<Seq<char>>::empty(),
            });
        }
        let mut i: usize = 0;
        while i < program.components.len()
            invariant
                i <= program.components.len(),
                pv == program_view(*program),
                texts_view(texts@) == t5 + pv.components.subrange(0, i as int).map_values(|x: ComponentV| component_text(x)),
            decreases program.components.len() - i,
        {
            let t = component_string(&program.components[i]);
            proof {
                lemma_texts_push(texts@, t);
                assert(t5 + pv.components.subrange(0, i + 1).map_values(|x: ComponentV| component_text(x)) =~= (t5
                    + pv.components.subrange(0, i as int).map_values(|x: ComponentV| component_text(x))).push(t@));
            }
            texts.push(t);
            i = i + 1;
        }
        let ghost t6 = texts_view(texts@);
        proof {
            assert(pv.components.subrange(0, program.components.len() as int) =~= pv.components);
            lemma_nodes_view_len(program.nodes@);
        }
        let mut i: usize = 0;
        while i < program.nodes.len()
            invariant
                i <= program.nodes.len(),
                pv == program_view(*program),
                pv.nodes.len() == program.nodes.len(),
                forall|k: int| 0 <= k < program.nodes.len() ==> #[trigger] pv.nodes[k] == node_view(program.nodes@[k]),
                texts_view(texts@) == t6 + pv.nodes.subrange(0, i as int).map_values(|n: NodeV| fmt_node_spec(n, Seq::empty())),
            decreases program.nodes.len() - i,
        {
            let mut t = String::new();
            push_node(&mut t, &program.nodes[i], "");
            proof {
                reveal_strlit("");
                lemma_texts_push(texts@, t);
                assert(t6 + pv.nodes.subrange(0, i + 1).map_values(|n: NodeV| fmt_node_spec(n, Seq::empty())) =~= (t6
                    + pv.nodes.subrange(0, i as int).map_values(|n: NodeV| fmt_node_spec(n, Seq::empty()))).push(t@));
            }
            texts.push(t);
            i = i + 1;
        }
        let ghost t7 = texts_view(texts@);
        proof {
            assert(pv.nodes.subrange(0, program.nodes.len() as int) =~= pv.nodes);
        }
        let mut i: usize = 0;
        while i < program.pages.len()
            invariant
                i <= program.pages.len(),
                pv == program_view(*program),
                texts_view(texts@) == t7 + pv.pages.subrange(0, i as int).map_values(|x: PageV| page_text(x)),
            decreases program.pages.len() - i,
        {
            let t = page_string(&program.pages[i]);
            proof {
                lemma_texts_push(texts@, t);
                assert(t7 + pv.pages.subrange(0, i + 1).map_values(|x: PageV| page_text(x)) =~= (t7 + pv.pages.subrange(
                    0,
                    i as int,
                ).map_values(|x: PageV| page_text(x))).push(t@));
            }
            texts.push(t);
            i = i + 1;
        }
        proof {
            assert(pv.pages.subrange(0, program.pages.len() as int) =~= pv.pages);
            assert(texts_view(texts@) =~= decl_texts(pv));
        }
        let mut buf = String::new();
        let ghost b0 = buf@;
        let mut first = true;
        let mut j: usize = 0;
        while j < texts.len()
            invariant
                j <= texts.len(),
                first == (j == 0),
                buf@ == b0 + join_decls(texts_view(texts@).subrange(0, j as int)),
            decreases texts.len() - j,
        {
            if !first {
                push_char(&mut buf, '\n');
            }
            push_str(&mut buf, texts[j].as_str());
            first = false;
            proof {
                reveal_strlit("\n");
                let sub = texts_view(texts@).subrange(0, j + 1);
                assert(sub.drop_last() =~= texts_view(texts@).subrange(0, j as int));
                assert(buf@ =~= b0 + join_decls(sub));
            }
            j = j + 1;
        }
        proof {
            assert(texts_view(texts@).subrange(0, texts.len() as int) =~= texts_view(texts@));
        }
        let n = buf.as_str().unicode_len();
        if n > 0 && buf.as_str().get_char(n - 1) != '\n' {
            push_char(&mut buf, '\n');
        }
        buf
    }
}

fn include_string(i: &IncludeDecl) -> (t: String)
    ensures
        t@ == include_text(include_view(*i)),
{
    let mut t = String::new();
    push_str(&mut t, "include \"");
    push_str(&mut t, i.path.as_str());
    push_str(&mut t, "\"");
    match &i.namespace {
        Some(ns) => {
            push_str(&mut t, " as ");
            push_str(&mut t, ns.as_str());
        },
        None => {},
    }
    push_str(&mut t, "\n");
    proof {
        assert(t@ =~= include_text(include_view(*i)));
    }
    t
}

fn asset_string(a: &AssetDecl) -> (t: String)
    ensures
        t@ == asset_text(asset_view(*a)),
{
    let mut t = String::new();
    push_str(&mut t, "asset ");
    push_str(&mut t, a.name.as_str());
    push_str(&mut t, " = ");
    push_str(&mut t, a.kind.as_str());
    push_str(&mut t, "(\"");
    push_str(&mut t, a.path.as_str());
    push_str(&mut t, "\")\n");
    proof {
        assert(t@ =~= asset_text(asset_view(*a)));
    }
    t
}

fn let_string(l: &LetDecl) -> (t: String)
    ensures
        t@ == let_text(let_view(*l)),
{
    let mut t = String::new();
    push_str(&mut t, "let ");
    push_str(&mut t, l.name.as_str());
    push_str(&mut t, " = ");
    push_expr(&mut t, &l.value);
    push_str(&mut t, "\n");
    proof {
        assert(t@ =~= let_text(let_view(*l)));
    }
    t
}

fn canvas_string(c: &CanvasDecl) -> (t: String)
    ensures
        t@ == canvas_text(canvas_view(*c)),
{
    let mut t = String::new();
    push_str(&mut t, "canvas \"");
    push_str(&mut t, c.name.as_str());
    push_str(&mut t, "\" {\n");
    push_attr_lines(&mut t, &c.attrs, "    ");
    push_str(&mut t, "}\n");
    proof {
        assert(t@ =~= canvas_text(canvas_view(*c)));
    }
    t
}

fn token_string(b: &TokenBlock) -> (t: String)
    ensures
        t@ == token_text(block_view(*b)),
{
    let mut t = String::new();
    push_str(&mut t, "token ");
    push_str(&mut t, b.name.as_str());
    push_str(&mut t, " {\n");
    let ghost start = t@;
    let ghost ev = block_view(*b).entries.map_values(|e: TokenEntryV| AttrV { key: e.key, value: e.value, span: e.span });
    let mut i: usize = 0;
    while i < b.entries.len()
        invariant
            i <= b.entries.len(),
            ev == block_view(*b).entries.map_values(|e: TokenEntryV| AttrV { key: e.key, value: e.value, span: e.span }),
            t@ == start + attr_lines(ev.subrange(0, i as int), "    "@),
        decreases b.entries.len() - i,
    {
        push_str(&mut t, "    ");
        push_str(&mut t, b.entries[i].key.as_str());
        push_str(&mut t, " = ");
        push_expr(&mut t, &b.entries[i].value);
        push_str(&mut t, "\n");
        proof {
            let sub = ev.subrange(0, i + 1);
            assert(sub.drop_last() =~= ev.subrange(0, i as int));
            assert(t@ =~= start + attr_lines(sub, "    "@));
        }
        i = i + 1;
    }
    push_str(&mut t, "}\n");
    proof {
        assert(ev.subrange(0, b.entries.len() as int) =~= ev);
        assert(t@ =~= token_text(block_view(*b)));
    }
    t
}

fn component_string(c: &ComponentDecl) -> (t: String)
    ensures
        t@ == component_text(component_view(*c)),
{
    let mut t = String::new();
    push_str(&mut t, "component ");
    push_str(&mut t, c.name.as_str());
    push_str(&mut t, "(");
    let ghost start = t@;
    let ghost ps = c.params@.map_values(|p: ComponentParam| param_view(p));
    let mut i: usize = 0;
    while i < c.params.len()
        invariant
            i <= c.params.len(),
            ps == c.params@.map_values(|p: ComponentParam| param_view(p)),
            t@ == start + params_text(ps.subrange(0, i as int)),
        decreases c.params.len() - i,
    {
        if i > 0 {
            push_str(&mut t, ", ");
        }
        push_str(&mut t, c.params[i].name.as_str());
        match &c.params[i].default {
            Some(d) => {
                push_str(&mut t, " = ");
                push_expr(&mut t, d);
            },
            None => {},
        }
        proof {
            let sub = ps.subrange(0, i + 1);
            assert(sub.drop_last() =~= ps.subrange(0, i as int));
            assert(t@ =~= start + params_text(sub));
        }
        i = i + 1;
    }
    push_str(&mut t, ") {\n");
    push_node(&mut t, &c.body, "    ");
    push_str(&mut t, "}\n");
    proof {
        assert(ps.subrange(0, c.params.len() as int) =~= ps);
        assert(t@ =~= component_text(component_view(*c)));
    }
    t
}

fn page_string(p: &PageDecl) -> (t: String)
    ensures
        t@ == page_text(page_view(*p)),
{
    let mut t = String::new();
    push_str(&mut t, "page \"");
    push_str(&mut t, p.name.as_str());
    push_str(&mut t, "\" {\n");
    push_children(&mut t, &p.nodes, "    ");
    push_str(&mut t, "}\n");
    proof {
        assert(t@ =~= page_text(page_view(*p)));
    }
    t
}

} // verus!
