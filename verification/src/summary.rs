use vstd::prelude::*;

use crate::ir::extra::weight_name;
use crate::ir::node::{IrNode, IrNodeData, ShapeType};
use crate::ir::style::{color_hex, Dimension, Justify, LayoutMode};
use crate::ir::{IrAsset, IrDocument, IrPage};
use crate::number::{decimal_chars, Decimal};
use crate::formatter::{utf8_count, utf8_len, utf8_width};
use crate::text::{chars_of, nat_digits, owned, push_char, push_nat, push_str, string_of};

verus! {

// ---------------------------------------------------------------------------
// Text summaries of a design: the node tree and its counts
// ---------------------------------------------------------------------------

/// The number of nodes in a forest, children included.
pub open spec fn count_spec(s: Seq<IrNode>) -> nat
    decreases s, 0int,
{
    if s.len() == 0 {
        0
    } else {
        proof {
            assert(decreases_to!(s => s[s.len() - 1]));
            assert(decreases_to!(s[s.len() - 1] => s[s.len() - 1].children));
            assert(decreases_to!(s[s.len() - 1].children => s[s.len() - 1].children@));
        }
        count_spec(s.drop_last()) + 1 + count_spec(s.last().children@)
    }
}

/// A count capped at the largest machine integer.
pub open spec fn capped(n: nat) -> usize {
    if n > usize::MAX { usize::MAX } else { n as usize }
}

/// The number of nodes in a forest, children included (at most
/// `usize::MAX`).
pub fn count_nodes(nodes: &Vec<IrNode>) -> (n: usize)
    ensures
        n == capped(count_spec(nodes@)),
    decreases nodes,
{
    let mut total: usize = 0;
    let mut i: usize = 0;
    while i < nodes.len()
        invariant
            i <= nodes.len(),
            total == capped(count_spec(nodes@.subrange(0, i as int))),
        decreases nodes.len() - i,
    {
        proof {
            assert(decreases_to!(nodes => nodes@));
            assert(decreases_to!(nodes@ => nodes@[i as int]));
            assert(decreases_to!(nodes@[i as int] => nodes@[i as int].children));
            assert(nodes@.subrange(0, i + 1).drop_last() =~= nodes@.subrange(0, i as int));
        }
        let c = count_nodes(&nodes[i].children);
        if total == usize::MAX || c >= usize::MAX - total {
            total = usize::MAX;
        } else {
            total = total + 1 + c;
        }
        i = i + 1;
    }
    proof {
        assert(nodes@.subrange(0, nodes.len() as int) =~= nodes@);
    }
    total
}

/// A size as the plan shows it.
pub open spec fn dim_str_spec(d: Dimension) -> Seq<char> {
    match d {
        Dimension::Fixed(n) => decimal_chars(n),
        Dimension::Fill => "fill"@,
        Dimension::Hug => "hug"@,
    }
}

pub fn dim_str(d: &Dimension) -> (r: String)
    ensures
        r@ == dim_str_spec(*d),
{
    match d {
        Dimension::Fixed(n) => n.to_text(),
        Dimension::Fill => owned("fill"),
        Dimension::Hug => owned("hug"),
    }
}

pub open spec fn opt_dim(d: Option<Dimension>) -> Seq<char> {
    match d {
        Some(x) => dim_str_spec(x),
        None => Seq::empty(),
    }
}

/// "WxH" when both sizes are set, else the one that is.
pub open spec fn dims_spec(w: Option<Dimension>, h: Option<Dimension>) -> Seq<char> {
    let ws = opt_dim(w);
    let hs = opt_dim(h);
    if ws.len() > 0 && hs.len() > 0 {
        ws + "x"@ + hs
    } else if ws.len() > 0 {
        ws
    } else {
        hs
    }
}

pub fn format_dims(w: &Option<Dimension>, h: &Option<Dimension>) -> (r: String)
    ensures
        r@ == dims_spec(*w, *h),
{
    let ws = match w {
        Some(x) => dim_str(x),
        None => String::new(),
    };
    let hs = match h {
        Some(x) => dim_str(x),
        None => String::new(),
    };
    let wn = ws.as_str().unicode_len();
    let hn = hs.as_str().unicode_len();
    if wn > 0 && hn > 0 {
        let mut r = ws;
        push_str(&mut r, "x");
        push_str(&mut r, hs.as_str());
        r
    } else if wn > 0 {
        ws
    } else {
        hs
    }
}

pub open spec fn mode_word(m: LayoutMode) -> Seq<char> {
    match m {
        LayoutMode::Horizontal => "horizontal"@,
        LayoutMode::Vertical => "vertical"@,
        LayoutMode::Grid => "grid"@,
    }
}

pub open spec fn justify_word(j: Justify) -> Seq<char> {
    match j {
        Justify::Start => "start"@,
        Justify::Center => "center"@,
        Justify::End => "end"@,
        Justify::SpaceBetween => "spacebetween"@,
        Justify::SpaceAround => "spacearound"@,
    }
}

pub open spec fn shape_word(t: ShapeType) -> Seq<char> {
    match t {
        ShapeType::Rectangle => "rectangle"@,
        ShapeType::Ellipse => "ellipse"@,
        ShapeType::Line => "line"@,
        ShapeType::Path => "path"@,
    }
}

/// " (DIMS)" when there are sizes.
pub open spec fn dims_suffix(w: Option<Dimension>, h: Option<Dimension>) -> Seq<char> {
    let d = dims_spec(w, h);
    if d.len() > 0 { " ("@ + d + ")"@ } else { Seq::empty() }
}

/// " NAME" when there is a name.
pub open spec fn name_suffix(n: Option<String>) -> Seq<char> {
    match n {
        Some(x) => " "@ + x@,
        None => Seq::empty(),
    }
}

/// How many characters from `i` on still fit, with `acc` bytes taken,
/// into `n` bytes of UTF-8.
pub open spec fn fit_from(c: Seq<char>, i: int, acc: int, n: int) -> int
    decreases c.len() - i,
{
    if 0 <= i < c.len() && acc + utf8_width(c[i]) <= n {
        fit_from(c, i + 1, acc + utf8_width(c[i]), n)
    } else {
        i
    }
}

/// The number of first characters of a text that fit into `n` bytes of
/// UTF-8.
pub open spec fn chars_within(c: Seq<char>, n: int) -> int {
    fit_from(c, 0, 0, n)
}

/// A text's content in quotes, cut to its first 27 bytes and "..." when it
/// takes more than 30 bytes in UTF-8.
pub open spec fn content_spec(c: Seq<char>) -> Seq<char> {
    if utf8_len(c) > 30 {
        "\""@ + c.subrange(0, chars_within(c, 27)) + "...\""@
    } else {
        "\""@ + c + "\""@
    }
}

/// Whether a content can be cut as the plan cuts it: it takes at most 30
/// bytes, or its first 27 bytes end between two characters.
pub open spec fn content_ok(c: Seq<char>) -> bool {
    utf8_len(c) <= 30 || utf8_len(c.subrange(0, chars_within(c, 27))) == 27
}

/// Whether a node can be described: a text's content can be cut.
pub open spec fn desc_ok(n: IrNode) -> bool {
    match n.data {
        IrNodeData::Text(t) => content_ok(t.content@),
        _ => true,
    }
}

/// Whether a node and all its children can be described.
pub open spec fn tree_ok(n: IrNode) -> bool
    decreases n, 1int,
{
    desc_ok(n) && {
        proof {
            assert(decreases_to!(n => n.children));
            assert(decreases_to!(n.children => n.children@));
        }
        forest_ok(n.children@)
    }
}

pub open spec fn forest_ok(s: Seq<IrNode>) -> bool
    decreases s, 0int,
{
    if s.len() == 0 {
        true
    } else {
        proof {
            assert(decreases_to!(s => s[s.len() - 1]));
        }
        forest_ok(s.drop_last()) && tree_ok(s.last())
    }
}

/// Whether every node of a document, top-level and on every page, can be
/// described.
pub open spec fn plan_ok(ir: IrDocument) -> bool {
    forest_ok(ir.nodes@) && forall|i: int| 0 <= i < ir.pages@.len() ==> forest_ok(#[trigger] ir.pages@[i].nodes@)
}

proof fn lemma_forest_ok(s: Seq<IrNode>, i: int)
    requires
        forest_ok(s),
        0 <= i <= s.len(),
    ensures
        forest_ok(s.subrange(0, i)),
        i < s.len() ==> tree_ok(s[i]),
    decreases s.len(),
{
    if s.len() > 0 {
        if i == s.len() {
            assert(s.subrange(0, i) =~= s);
        } else {
            assert(s.drop_last().subrange(0, i) =~= s.subrange(0, i));
            if i < s.len() - 1 {
                assert(s.drop_last()[i] == s[i]);
            }
            lemma_forest_ok(s.drop_last(), i);
        }
    }
}

pub open spec fn layout_desc(l: Option<crate::ir::style::Layout>) -> Seq<char> {
    match l {
        Some(l) => " ["@ + mode_word(l.mode) + match l.gap {
            Some(g) => ", gap="@ + decimal_chars(g),
            None => Seq::empty(),
        } + match l.justify {
            Some(j) => ", "@ + justify_word(j),
            None => Seq::empty(),
        } + "]"@,
        None => Seq::empty(),
    }
}

pub open spec fn frame_desc(f: crate::ir::node::FrameData) -> Seq<char> {
    "frame"@ + name_suffix(f.name) + dims_suffix(f.width, f.height) + layout_desc(f.layout)
}

pub open spec fn text_desc(t: crate::ir::node::TextData) -> Seq<char> {
    "text "@ + content_spec(t.content@) + match t.font_size {
        Some(size) => " ("@ + decimal_chars(size) + "px"@ + match t.font_weight {
            Some(w) => ", "@ + weight_name(w),
            None => Seq::empty(),
        } + ")"@,
        None => Seq::empty(),
    }
}

/// One line of the plan: what a node is.
pub open spec fn describe_spec(n: IrNode) -> Seq<char> {
    match n.data {
        IrNodeData::Frame(f) => frame_desc(f),
        IrNodeData::Text(t) => text_desc(t),
        IrNodeData::Image(img) => "image"@ + name_suffix(img.name) + dims_suffix(img.width, img.height),
        IrNodeData::Shape(s) => "shape "@ + shape_word(s.shape_type) + name_suffix(s.name),
    }
}

fn push_dims_suffix(s: &mut String, w: &Option<Dimension>, h: &Option<Dimension>)
    ensures
        final(s)@ == old(s)@ + dims_suffix(*w, *h),
{
    let d = format_dims(w, h);
    if d.as_str().unicode_len() > 0 {
        push_str(s, " (");
        push_str(s, d.as_str());
        push_str(s, ")");
    }
    proof {
        assert(final(s)@ =~= old(s)@ + dims_suffix(*w, *h));
    }
}

fn push_name_suffix(s: &mut String, n: &Option<String>)
    ensures
        final(s)@ == old(s)@ + name_suffix(*n),
{
    match n {
        Some(x) => {
            push_str(s, " ");
            push_str(s, x.as_str());
        },
        None => {},
    }
    proof {
        assert(final(s)@ =~= old(s)@ + name_suffix(*n));
    }
}

fn push_content(s: &mut String, content: &str)
    requires
        content_ok(content@),
    ensures
        final(s)@ == old(s)@ + content_spec(content@),
{
    let cs = chars_of(content);
    push_str(s, "\"");
    let total = utf8_count(content);
    if total > 30 {
        let mut head: Vec<char> = Vec::new();
        let mut acc: usize = 0;
        let mut i: usize = 0;
        loop
            invariant
                i <= cs.len(),
                cs@ == content@,
                acc <= 27,
                acc == utf8_len(cs@.subrange(0, i as int)),
                head@ == cs@.subrange(0, i as int),
                fit_from(cs@, i as int, acc as int, 27) == chars_within(cs@, 27),
            ensures
                i == chars_within(cs@, 27),
                head@ == cs@.subrange(0, i as int),
            decreases cs.len() - i,
        {
            if i >= cs.len() {
                break;
            }
            let c = cs[i];
            let u = c as u32;
            let w: usize = if u < 0x80 {
                1
            } else if u < 0x800 {
                2
            } else if u < 0x10000 {
                3
            } else {
                4
            };
            assert(w == utf8_width(c));
            if acc + w > 27 {
                break;
            }
            proof {
                let sub = cs@.subrange(0, i + 1);
                assert(sub.drop_last() =~= cs@.subrange(0, i as int));
                assert(sub.last() == c);
            }
            acc = acc + w;
            head.push(c);
            proof {
                assert(head@ =~= cs@.subrange(0, i + 1));
            }
            i = i + 1;
        }
        let h = string_of(&head);
        push_str(s, h.as_str());
        push_str(s, "...\"");
    } else {
        push_str(s, content);
        push_str(s, "\"");
    }
    proof {
        assert(final(s)@ =~= old(s)@ + content_spec(content@));
    }
}

fn mode_str(m: LayoutMode) -> (r: &'static str)
    ensures
        r@ == mode_word(m),
{
    match m {
        LayoutMode::Horizontal => "horizontal",
        LayoutMode::Vertical => "vertical",
        LayoutMode::Grid => "grid",
    }
}

fn justify_str(j: Justify) -> (r: &'static str)
    ensures
        r@ == justify_word(j),
{
    match j {
        Justify::Start => "start",
        Justify::Center => "center",
        Justify::End => "end",
        Justify::SpaceBetween => "spacebetween",
        Justify::SpaceAround => "spacearound",
    }
}

fn push_layout_desc(s: &mut String, l: &Option<crate::ir::style::Layout>)
    ensures
        final(s)@ == old(s)@ + layout_desc(*l),
{
    match l {
        Some(l) => {
            push_str(s, " [");
            push_str(s, mode_str(l.mode));
            match l.gap {
                Some(g) => {
                    push_str(s, ", gap=");
                    g.push_text(s);
                },
                None => {},
            }
            match l.justify {
                Some(j) => {
                    push_str(s, ", ");
                    push_str(s, justify_str(j));
                },
                None => {},
            }
            push_str(s, "]");
        },
        None => {},
    }
    proof {
        assert(final(s)@ =~= old(s)@ + layout_desc(*l));
    }
}

fn push_text_desc(s: &mut String, t: &crate::ir::node::TextData)
    requires
        content_ok(t.content@),
    ensures
        final(s)@ == old(s)@ + text_desc(*t),
{
    push_str(s, "text ");
    push_content(s, t.content.as_str());
    match t.font_size {
        Some(size) => {
            push_str(s, " (");
            size.push_text(s);
            push_str(s, "px");
            match t.font_weight {
                Some(w) => {
                    push_str(s, ", ");
                    push_str(s, w.name());
                },
                None => {},
            }
            push_str(s, ")");
        },
        None => {},
    }
    proof {
        assert(final(s)@ =~= old(s)@ + text_desc(*t));
    }
}

/// What a node is, in one line.
pub fn describe_node(node: &IrNode) -> (r: String)
    requires
        desc_ok(*node),
    ensures
        r@ == describe_spec(*node),
{
    let mut s = String::new();
    match &node.data {
        IrNodeData::Frame(f) => {
            push_str(&mut s, "frame");
            push_name_suffix(&mut s, &f.name);
            push_dims_suffix(&mut s, &f.width, &f.height);
            push_layout_desc(&mut s, &f.layout);
        },
        IrNodeData::Text(t) => {
            push_text_desc(&mut s, t);
        },
        IrNodeData::Image(img) => {
            push_str(&mut s, "image");
            push_name_suffix(&mut s, &img.name);
            push_dims_suffix(&mut s, &img.width, &img.height);
        },
        IrNodeData::Shape(sh) => {
            push_str(&mut s, "shape ");
            match sh.shape_type {
                ShapeType::Rectangle => push_str(&mut s, "rectangle"),
                ShapeType::Ellipse => push_str(&mut s, "ellipse"),
                ShapeType::Line => push_str(&mut s, "line"),
                ShapeType::Path => push_str(&mut s, "path"),
            }
            push_name_suffix(&mut s, &sh.name);
        },
    }
    proof {
        assert(s@ =~= describe_spec(*node));
    }
    s
}

// -- The plan: a tree of the nodes --

/// A node and its children as tree lines under `prefix`; the last child of
/// a node gets the closing connector.
pub open spec fn tree_spec(n: IrNode, prefix: Seq<char>, is_last: bool) -> Seq<char>
    decreases n, 0int,
{
    proof {
        assert(decreases_to!(n => n.children));
        assert(decreases_to!(n.children => n.children@));
    }
    let connector: Seq<char> = if is_last { "\u{2514}\u{2500}\u{2500} "@ } else { "\u{251c}\u{2500}\u{2500} "@ };
    let next: Seq<char> = if is_last { "    "@ } else { "\u{2502}   "@ };
    prefix + connector + describe_spec(n) + "\n"@ + children_tree(n.children@, prefix + next, n.children@.len())
}

/// The first `k` children as trees.
pub open spec fn children_tree(s: Seq<IrNode>, prefix: Seq<char>, k: nat) -> Seq<char>
    decreases s, k,
{
    if k == 0 || k > s.len() {
        Seq::empty()
    } else {
        proof {
            assert(decreases_to!(s => s[k - 1]));
        }
        children_tree(s, prefix, (k - 1) as nat) + tree_spec(s[k - 1], prefix, k == s.len())
    }
}

/// Top-level nodes as trees, each closed as a last node.
pub open spec fn forest_spec(s: Seq<IrNode>, prefix: Seq<char>) -> Seq<char>
    decreases s.len(),
{
    if s.len() == 0 {
        Seq::empty()
    } else {
        forest_spec(s.drop_last(), prefix) + tree_spec(s.last(), prefix, true)
    }
}

fn push_tree(out: &mut String, node: &IrNode, prefix: &str, is_last: bool)
    requires
        tree_ok(*node),
    ensures
        final(out)@ == old(out)@ + tree_spec(*node, prefix@, is_last),
    decreases node,
{
    if is_last {
        push_str(out, prefix);
        push_str(out, "\u{2514}\u{2500}\u{2500} ");
    } else {
        push_str(out, prefix);
        push_str(out, "\u{251c}\u{2500}\u{2500} ");
    }
    let d = describe_node(node);
    push_str(out, d.as_str());
    push_str(out, "\n");
    let mut next = owned(prefix);
    if is_last {
        push_str(&mut next, "    ");
    } else {
        push_str(&mut next, "\u{2502}   ");
    }
    let ghost start = out@;
    let n = node.children.len();
    let mut i: usize = 0;
    while i < n
        invariant
            i <= n == node.children.len(),
            forest_ok(node.children@),
            out@ == start + children_tree(node.children@, next@, i as nat),
        decreases n - i,
    {
        proof {
            assert(decreases_to!(node => node.children));
            assert(decreases_to!(node.children => node.children@));
            assert(decreases_to!(node.children@ => node.children@[i as int]));
            lemma_forest_ok(node.children@, i as int);
        }
        push_tree(out, &node.children[i], next.as_str(), i + 1 == n);
        i = i + 1;
    }
    proof {
        assert(final(out)@ =~= old(out)@ + tree_spec(*node, prefix@, is_last));
    }
}

fn push_forest(out: &mut String, nodes: &Vec<IrNode>, prefix: &str)
    requires
        forest_ok(nodes@),
    ensures
        final(out)@ == old(out)@ + forest_spec(nodes@, prefix@),
{
    let ghost start = out@;
    let mut i: usize = 0;
    while i < nodes.len()
        invariant
            i <= nodes.len(),
            out@ == start + forest_spec(nodes@.subrange(0, i as int), prefix@),
            forest_ok(nodes@),
        decreases nodes.len() - i,
    {
        proof {
            lemma_forest_ok(nodes@, i as int);
        }
        push_tree(out, &nodes[i], prefix, true);
        proof {
            let sub = nodes@.subrange(0, i + 1);
            assert(sub.drop_last() =~= nodes@.subrange(0, i as int));
            assert(out@ =~= start + forest_spec(sub, prefix@));
        }
        i = i + 1;
    }
    proof {
        assert(nodes@.subrange(0, nodes.len() as int) =~= nodes@);
    }
}

/// The number of nodes on all pages.
pub open spec fn pages_count(ps: Seq<IrPage>) -> nat
    decreases ps.len(),
{
    if ps.len() == 0 { 0 } else { pages_count(ps.drop_last()) + count_spec(ps.last().nodes@) }
}

/// All the nodes of a document, top-level and on pages.
pub open spec fn total_spec(ir: IrDocument) -> usize {
    capped(count_spec(ir.nodes@) + pages_count(ir.pages@))
}

/// The number of nodes of a document, top-level and on pages (at most
/// `usize::MAX`).
pub fn total_nodes(ir: &IrDocument) -> (n: usize)
    ensures
        n == total_spec(*ir),
{
    let mut total = count_nodes(&ir.nodes);
    let mut i: usize = 0;
    while i < ir.pages.len()
        invariant
            i <= ir.pages.len(),
            total == capped(count_spec(ir.nodes@) + pages_count(ir.pages@.subrange(0, i as int))),
        decreases ir.pages.len() - i,
    {
        let c = count_nodes(&ir.pages[i].nodes);
        proof {
            assert(ir.pages@.subrange(0, i + 1).drop_last() =~= ir.pages@.subrange(0, i as int));
        }
        if c > usize::MAX - total {
            total = usize::MAX;
        } else {
            total = total + c;
        }
        i = i + 1;
    }
    proof {
        assert(ir.pages@.subrange(0, ir.pages.len() as int) =~= ir.pages@);
    }
    total
}

/// Each page: its name, then its nodes as trees.
pub open spec fn pages_tree(ps: Seq<IrPage>) -> Seq<char>
    decreases ps.len(),
{
    if ps.len() == 0 {
        Seq::empty()
    } else {
        pages_tree(ps.drop_last()) + "\nPage: \""@ + ps.last().name@ + "\"\n"@ + forest_spec(ps.last().nodes@, "  "@)
    }
}

pub open spec fn plan_head(ir: IrDocument) -> Seq<char> {
    "Document: "@ + ir.canvas.name@ + " ("@ + nat_digits(ir.canvas.width as nat) + "x"@ + nat_digits(
        ir.canvas.height as nat,
    ) + ")\n"@
}

pub open spec fn plan_body(ir: IrDocument) -> Seq<char> {
    if ir.pages@.len() == 0 {
        forest_spec(ir.nodes@, Seq::empty())
    } else {
        pages_tree(ir.pages@) + if ir.nodes@.len() > 0 {
            "\n(top-level)\n"@ + forest_spec(ir.nodes@, Seq::empty())
        } else {
            Seq::empty()
        }
    }
}

pub open spec fn plan_tail(ir: IrDocument) -> Seq<char> {
    let pages: nat = if ir.pages@.len() == 0 { 1 } else { ir.pages@.len() };
    "\nAssets: "@ + nat_digits(ir.assets@.len()) + "  Nodes: "@ + nat_digits(total_spec(ir) as nat) + "  Pages: "@
        + nat_digits(pages) + "\n"@
}

/// What the plan of a document shows: its name and size, its node trees
/// (by page when there are pages, then the top-level ones), and its counts.
pub open spec fn plan_spec(ir: IrDocument) -> Seq<char> {
    plan_head(ir) + plan_body(ir) + plan_tail(ir)
}

/// Whether a content can be cut as the plan cuts it.
fn content_can(content: &str) -> (b: bool)
    ensures
        b == content_ok(content@),
{
    let total = utf8_count(content);
    if total <= 30 {
        return true;
    }
    let cs = chars_of(content);
    let mut acc: usize = 0;
    let mut i: usize = 0;
    loop
        invariant
            i <= cs.len(),
            cs@ == content@,
            acc <= 27,
            acc == utf8_len(cs@.subrange(0, i as int)),
            fit_from(cs@, i as int, acc as int, 27) == chars_within(cs@, 27),
        ensures
            i == chars_within(cs@, 27),
            acc == utf8_len(cs@.subrange(0, i as int)),
        decreases cs.len() - i,
    {
        if i >= cs.len() {
            break;
        }
        let c = cs[i];
        let u = c as u32;
        let w: usize = if u < 0x80 {
            1
        } else if u < 0x800 {
            2
        } else if u < 0x10000 {
            3
        } else {
            4
        };
        assert(w == utf8_width(c));
        if acc + w > 27 {
            break;
        }
        proof {
            let sub = cs@.subrange(0, i + 1);
            assert(sub.drop_last() =~= cs@.subrange(0, i as int));
            assert(sub.last() == c);
        }
        acc = acc + w;
        i = i + 1;
    }
    acc == 27
}

/// Whether a node and its children can be described.
fn tree_can(node: &IrNode) -> (b: bool)
    ensures
        b == tree_ok(*node),
    decreases node,
{
    let d = match &node.data {
        IrNodeData::Text(t) => content_can(t.content.as_str()),
        _ => true,
    };
    if !d {
        return false;
    }
    let n = node.children.len();
    let mut i: usize = 0;
    while i < n
        invariant
            i <= n == node.children.len(),
            forest_ok(node.children@.subrange(0, i as int)),
        decreases n - i,
    {
        proof {
            assert(decreases_to!(node => node.children));
            assert(decreases_to!(node.children => node.children@));
            assert(decreases_to!(node.children@ => node.children@[i as int]));
        }
        let ok = tree_can(&node.children[i]);
        let ghost sub = node.children@.subrange(0, i + 1);
        proof {
            assert(sub.drop_last() =~= node.children@.subrange(0, i as int));
            assert(sub.last() == node.children@[i as int]);
        }
        if !ok {
            proof {
                if forest_ok(node.children@) {
                    lemma_forest_ok(node.children@, i as int);
                }
            }
            return false;
        }
        i = i + 1;
    }
    proof {
        assert(node.children@.subrange(0, n as int) =~= node.children@);
    }
    true
}

/// Whether nodes and their children can be described.
fn forest_can(nodes: &Vec<IrNode>) -> (b: bool)
    ensures
        b == forest_ok(nodes@),
{
    let mut i: usize = 0;
    while i < nodes.len()
        invariant
            i <= nodes.len(),
            forest_ok(nodes@.subrange(0, i as int)),
        decreases nodes.len() - i,
    {
        let ok = tree_can(&nodes[i]);
        let ghost sub = nodes@.subrange(0, i + 1);
        proof {
            assert(sub.drop_last() =~= nodes@.subrange(0, i as int));
            assert(sub.last() == nodes@[i as int]);
        }
        if !ok {
            proof {
                if forest_ok(nodes@) {
                    lemma_forest_ok(nodes@, i as int);
                }
            }
            return false;
        }
        i = i + 1;
    }
    proof {
        assert(nodes@.subrange(0, nodes.len() as int) =~= nodes@);
    }
    true
}

/// Whether the plan of a document can be made: every text of it can be cut
/// as the plan cuts it.
pub fn can_plan(ir: &IrDocument) -> (b: bool)
    ensures
        b == plan_ok(*ir),
{
    if !forest_can(&ir.nodes) {
        return false;
    }
    let mut i: usize = 0;
    while i < ir.pages.len()
        invariant
            i <= ir.pages.len(),
            forest_ok(ir.nodes@),
            forall|k: int| 0 <= k < i ==> forest_ok(#[trigger] ir.pages@[k].nodes@),
        decreases ir.pages.len() - i,
    {
        if !forest_can(&ir.pages[i].nodes) {
            return false;
        }
        i = i + 1;
    }
    true
}

/// The plan of a document: its node tree and counts.
pub fn plan_text(ir: &IrDocument) -> (r: String)
    requires
        plan_ok(*ir),
    ensures
        r@ == plan_spec(*ir),
{
    let mut s = String::new();
    push_str(&mut s, "Document: ");
    push_str(&mut s, ir.canvas.name.as_str());
    push_str(&mut s, " (");
    push_nat(&mut s, ir.canvas.width as u64);
    push_str(&mut s, "x");
    push_nat(&mut s, ir.canvas.height as u64);
    push_str(&mut s, ")\n");
    let ghost head = s@;
    proof {
        assert(head =~= plan_head(*ir));
        reveal_strlit("");
        assert(""@ =~= Seq::<char>::empty());
    }
    if ir.pages.len() == 0 {
        push_forest(&mut s, &ir.nodes, "");
        proof {
            assert(s@ =~= head + plan_body(*ir));
        }
    } else {
        let mut i: usize = 0;
        while i < ir.pages.len()
            invariant
                i <= ir.pages.len(),
                s@ == head + pages_tree(ir.pages@.subrange(0, i as int)),
                plan_ok(*ir),
            decreases ir.pages.len() - i,
        {
            push_str(&mut s, "\nPage: \"");
            push_str(&mut s, ir.pages[i].name.as_str());
            push_str(&mut s, "\"\n");
            proof {
                assert(forest_ok(ir.pages@[i as int].nodes@));
            }
            push_forest(&mut s, &ir.pages[i].nodes, "  ");
            proof {
                let sub = ir.pages@.subrange(0, i + 1);
                assert(sub.drop_last() =~= ir.pages@.subrange(0, i as int));
                assert(s@ =~= head + pages_tree(sub));
            }
            i = i + 1;
        }
        proof {
            assert(ir.pages@.subrange(0, ir.pages.len() as int) =~= ir.pages@);
        }
        let ghost pt = s@;
        if ir.nodes.len() > 0 {
            push_str(&mut s, "\n(top-level)\n");
            push_forest(&mut s, &ir.nodes, "");
            proof {
                assert(s@ =~= pt + "\n(top-level)\n"@ + forest_spec(ir.nodes@, Seq::empty()));
            }
        }
        proof {
            assert(s@ =~= head + plan_body(*ir));
        }
    }
    proof {
        assert(s@ =~= head + plan_body(*ir));
    }
    let ghost mid = s@;
    let total = total_nodes(ir);
    push_str(&mut s, "\nAssets: ");
    push_nat(&mut s, ir.assets.len() as u64);
    push_str(&mut s, "  Nodes: ");
    push_nat(&mut s, total as u64);
    push_str(&mut s, "  Pages: ");
    let pages: usize = if ir.pages.len() == 0 { 1 } else { ir.pages.len() };
    push_nat(&mut s, pages as u64);
    push_str(&mut s, "\n");
    proof {
        assert(s@ =~= mid + plan_tail(*ir));
        assert(s@ =~= plan_spec(*ir));
    }
    s
}

// -- The summary of `inspect` --

pub open spec fn asset_lines(s: Seq<IrAsset>) -> Seq<char>
    decreases s.len(),
{
    if s.len() == 0 {
        Seq::empty()
    } else {
        let a = s.last();
        asset_lines(s.drop_last()) + "  "@ + a.id@ + " ("@ + a.kind@ + ") -> "@ + a.path@ + "\n"@
    }
}

pub open spec fn page_lines(s: Seq<IrPage>) -> Seq<char>
    decreases s.len(),
{
    if s.len() == 0 {
        Seq::empty()
    } else {
        let p = s.last();
        page_lines(s.drop_last()) + "  \""@ + p.name@ + "\" ("@ + nat_digits(capped(count_spec(p.nodes@)) as nat)
            + " nodes)\n"@
    }
}

/// What `inspect` shows of a document: name, version, size, background,
/// assets, node count, pages.
pub open spec fn inspect_spec(ir: IrDocument) -> Seq<char> {
    "Document: "@ + ir.canvas.name@ + " v"@ + nat_digits(ir.version as nat) + "\nCanvas: "@ + nat_digits(
        ir.canvas.width as nat,
    ) + "x"@ + nat_digits(ir.canvas.height as nat) + "\n"@ + match ir.canvas.background {
        Some(c) => "Background: "@ + color_hex(c) + "\n"@,
        None => Seq::empty(),
    } + "Assets: "@ + nat_digits(ir.assets@.len()) + "\n"@ + asset_lines(ir.assets@) + "Nodes: "@ + nat_digits(
        total_spec(ir) as nat,
    ) + "\n"@ + if ir.pages@.len() > 0 {
        "Pages: "@ + nat_digits(ir.pages@.len()) + "\n"@ + page_lines(ir.pages@)
    } else {
        Seq::empty()
    }
}

pub fn inspect_text(ir: &IrDocument) -> (r: String)
    ensures
        r@ == inspect_spec(*ir),
{
    let mut s = String::new();
    push_str(&mut s, "Document: ");
    push_str(&mut s, ir.canvas.name.as_str());
    push_str(&mut s, " v");
    push_nat(&mut s, ir.version as u64);
    push_str(&mut s, "\nCanvas: ");
    push_nat(&mut s, ir.canvas.width as u64);
    push_str(&mut s, "x");
    push_nat(&mut s, ir.canvas.height as u64);
    push_str(&mut s, "\n");
    match ir.canvas.background {
        Some(c) => {
            push_str(&mut s, "Background: ");
            let h = c.to_hex();
            push_str(&mut s, h.as_str());
            push_str(&mut s, "\n");
        },
        None => {},
    }
    push_str(&mut s, "Assets: ");
    push_nat(&mut s, ir.assets.len() as u64);
    push_str(&mut s, "\n");
    let ghost a0 = s@;
    let mut i: usize = 0;
    while i < ir.assets.len()
        invariant
            i <= ir.assets.len(),
            s@ == a0 + asset_lines(ir.assets@.subrange(0, i as int)),
        decreases ir.assets.len() - i,
    {
        let a = &ir.assets[i];
        push_str(&mut s, "  ");
        push_str(&mut s, a.id.as_str());
        push_str(&mut s, " (");
        push_str(&mut s, a.kind.as_str());
        push_str(&mut s, ") -> ");
        push_str(&mut s, a.path.as_str());
        push_str(&mut s, "\n");
        proof {
            let sub = ir.assets@.subrange(0, i + 1);
            assert(sub.drop_last() =~= ir.assets@.subrange(0, i as int));
            assert(s@ =~= a0 + asset_lines(sub));
        }
        i = i + 1;
    }
    proof {
        assert(ir.assets@.subrange(0, ir.assets.len() as int) =~= ir.assets@);
    }
    let total = total_nodes(ir);
    push_str(&mut s, "Nodes: ");
    push_nat(&mut s, total as u64);
    push_str(&mut s, "\n");
    let ghost p0 = s@;
    if ir.pages.len() > 0 {
        push_str(&mut s, "Pages: ");
        push_nat(&mut s, ir.pages.len() as u64);
        push_str(&mut s, "\n");
        let ghost p1 = s@;
        let mut i: usize = 0;
        while i < ir.pages.len()
            invariant
                i <= ir.pages.len(),
                s@ == p1 + page_lines(ir.pages@.subrange(0, i as int)),
            decreases ir.pages.len() - i,
        {
            let p = &ir.pages[i];
            push_str(&mut s, "  \"");
            push_str(&mut s, p.name.as_str());
            push_str(&mut s, "\" (");
            let c = count_nodes(&p.nodes);
            push_nat(&mut s, c as u64);
            push_str(&mut s, " nodes)\n");
            proof {
                let sub = ir.pages@.subrange(0, i + 1);
                assert(sub.drop_last() =~= ir.pages@.subrange(0, i as int));
                assert(s@ =~= p1 + page_lines(sub));
            }
            i = i + 1;
        }
        proof {
            assert(ir.pages@.subrange(0, ir.pages.len() as int) =~= ir.pages@);
        }
    }
    proof {
        assert(s@ =~= inspect_spec(*ir));
    }
    s
}

/// The plan names a frame's layout mode by the keyword that sets it: the
/// word it writes reads back, as a `layout` value, as that same mode, and
/// no other word does; so different modes get different words.
pub proof fn law_plan_names_modes_as_written(m: LayoutMode, n: LayoutMode, s: Seq<char>)
    ensures
        crate::semantic::resolve::layout_mode_of(mode_word(m)) == Some(m),
        crate::semantic::resolve::layout_mode_of(s) == Some(m) ==> s == mode_word(m),
        mode_word(m) == mode_word(n) ==> m == n,
{
    reveal_strlit("horizontal");
    reveal_strlit("vertical");
    reveal_strlit("grid");
    assert("horizontal"@.len() == 10 && "vertical"@.len() == 8 && "grid"@.len() == 4);
}

} // verus!
