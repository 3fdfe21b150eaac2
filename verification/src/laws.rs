use vstd::prelude::*;

use crate::ast::{AttrV, Expr, IncludeV, LetV, ParamV, ProgramV, TokenBlockV, TokenEntryV};
use crate::semantic::expand::{
    key_index, lemma_key_index_bounds, lemma_key_index_prefix, map_get, map_insert, param_fold, param_values_spec,
    positional_prefix, with_defaults,
};
use crate::codegen::html::escape_html_spec;
use crate::codegen::react::{is_sep, pascal_fold};
use crate::error::ErrorKind;
use crate::text::uppercase_of;
use crate::ir::node::{IrNode, IrNodeData};
use crate::ir::style::{color_hex, Color, CornerRadius, Fill, Padding};
use crate::lint::rules::{
    closest, color_check, first_off_scale, forest_violations, lint_spec, nearest, own_violations, pages_violations,
    scales_of, single_off, Scales,
};
use crate::ir::{IrDocument, IrPage};
use crate::number::{decimal_of, dist, lemma_decimal_of, normal_parts, parts_wf, pow10, scaled, Decimal};
use crate::semantic::analyze::{block_bindings, token_bindings};
use crate::semantic::imports::{
    asset_names, block_names, component_names, first_conflict, let_names, merge_include_spec, merge_spec, strings_view,
};
use crate::semantic::resolve_fill::even_position;
use crate::semantic::vars::{lookup, resolve_spec, resolved};

verus! {

// ---------------------------------------------------------------------------
// Laws of the library
// ---------------------------------------------------------------------------

/// A variable reads back the value of its last binding.
pub proof fn law_lookup_last_binding(b: Seq<(Seq<char>, Expr)>, name: Seq<char>, value: Expr)
    ensures
        lookup(b.push((name, value)), name) == Some(value),
{
    assert(b.push((name, value)).drop_last() =~= b);
}

/// Binding one name leaves every other name as it was.
pub proof fn law_lookup_other_binding(b: Seq<(Seq<char>, Expr)>, name: Seq<char>, other: Seq<char>, value: Expr)
    requires
        other != name,
    ensures
        lookup(b.push((name, value)), other) == lookup(b, other),
{
    assert(b.push((name, value)).drop_last() =~= b);
}

/// A variable bound last to a plain value (not a name and not a call)
/// resolves to that value.
pub proof fn law_variable_resolves_to_value(b: Seq<(Seq<char>, Expr)>, name: Seq<char>, value: Expr)
    requires
        !(value is Ident),
        !(value is Call),
    ensures
        resolved(b.push((name, value)), Expr::Ident(name)) == value,
{
    law_lookup_last_binding(b, name, value);
    let b2 = b.push((name, value));
    assert(b2.len() >= 1);
    assert(resolve_spec(b2, value, (b2.len() - 1) as nat) == value);
}

/// The tokens of a block are variables named `block.key`; a token reads
/// back its value when no later token or block binds the same name.
pub proof fn law_token_dot_name(blocks: Seq<TokenBlockV>, blk: TokenBlockV, i: int)
    requires
        0 <= i < blk.entries.len(),
        forall|j: int| i < j < blk.entries.len() ==> blk.entries[j].key != blk.entries[i].key,
    ensures
        lookup(token_bindings(blocks.push(blk)), blk.name + "."@ + blk.entries[i].key) == Some(blk.entries[i].value),
{
    let name = blk.name + "."@ + blk.entries[i].key;
    let bb = block_bindings(blk);
    assert(blocks.push(blk).drop_last() =~= blocks);
    assert(token_bindings(blocks.push(blk)) == token_bindings(blocks) + bb);
    let p = blk.name + "."@;
    assert forall|j: int| i < j < bb.len() implies bb[j].0 != name by {
        let kj = blk.entries[j].key;
        let ki = blk.entries[i].key;
        if bb[j].0 == name {
            assert((p + kj).subrange(p.len() as int, (p + kj).len() as int) =~= kj);
            assert((p + ki).subrange(p.len() as int, (p + ki).len() as int) =~= ki);
        }
    }
    lemma_lookup_suffix(token_bindings(blocks), bb, name, i);
}

/// The last binding of a name in `a + b`, when `b` binds it at `i` and not
/// after, is `b[i]`.
proof fn lemma_lookup_suffix(a: Seq<(Seq<char>, Expr)>, bb: Seq<(Seq<char>, Expr)>, name: Seq<char>, i: int)
    requires
        0 <= i < bb.len(),
        bb[i].0 == name,
        forall|j: int| i < j < bb.len() ==> bb[j].0 != name,
    ensures
        lookup(a + bb, name) == Some(bb[i].1),
    decreases bb.len(),
{
    if i == bb.len() - 1 {
        assert((a + bb).last() == bb[i]);
    } else {
        assert((a + bb).drop_last() =~= a + bb.drop_last());
        lemma_lookup_suffix(a, bb.drop_last(), name, i);
    }
}

/// A bare include that defines a variable, a component, a token block or an
/// asset under a name the program already uses for one of its own of that
/// kind is refused as a duplicate, at the include, with the hint to give it
/// a namespace.
pub proof fn law_bare_include_refuses_duplicate(t: ProgramV, s: ProgramV, inc: IncludeV, k: int)
    requires
        inc.namespace is None,
        ({
            ||| 0 <= k < s.variables.len() && let_names(t.variables).contains(s.variables[k].name)
            ||| 0 <= k < s.components.len() && component_names(t.components).contains(s.components[k].name)
            ||| 0 <= k < s.token_blocks.len() && block_names(t.token_blocks).contains(s.token_blocks[k].name)
            ||| 0 <= k < s.assets.len() && asset_names(t.assets).contains(s.assets[k].name)
        }),
    ensures
        merge_include_spec(t, s, inc) is Err,
        merge_include_spec(t, s, inc)->Err_0.kind == ErrorKind::DuplicateId,
        merge_include_spec(t, s, inc)->Err_0.span == Some(inc.span),
        merge_include_spec(t, s, inc)->Err_0.hint == Some("use: include \""@ + inc.path + "\" as <namespace>"@),
{
    if 0 <= k < s.variables.len() && let_names(t.variables).contains(s.variables[k].name) {
        lemma_conflict_found(let_names(t.variables), let_names(s.variables), k);
    } else if 0 <= k < s.components.len() && component_names(t.components).contains(s.components[k].name) {
        lemma_conflict_found(component_names(t.components), component_names(s.components), k);
    } else if 0 <= k < s.token_blocks.len() && block_names(t.token_blocks).contains(s.token_blocks[k].name) {
        lemma_conflict_found(block_names(t.token_blocks), block_names(s.token_blocks), k);
    } else {
        lemma_conflict_found(asset_names(t.assets), asset_names(s.assets), k);
    }
}

/// When some name of `incoming` is in `existing`, a first conflict exists.
proof fn lemma_conflict_found(existing: Seq<Seq<char>>, incoming: Seq<Seq<char>>, k: int)
    requires
        0 <= k < incoming.len(),
        existing.contains(incoming[k]),
    ensures
        first_conflict(existing, incoming) is Some,
    decreases incoming.len(),
{
    if k < incoming.len() - 1 {
        lemma_conflict_found(existing, incoming.drop_last(), k);
    }
}

/// An include under a namespace is never refused.
pub proof fn law_namespaced_include_merges(t: ProgramV, s: ProgramV, inc: IncludeV)
    requires
        inc.namespace is Some,
    ensures
        merge_include_spec(t, s, inc) is Ok,
{
}

/// A bare include without conflicts keeps the program's own variables
/// first, then adds the included ones in order.
pub proof fn law_bare_include_appends(t: ProgramV, s: ProgramV, inc: IncludeV)
    requires
        merge_spec(t, s, inc) is Ok,
    ensures
        merge_spec(t, s, inc)->Ok_0.variables == t.variables + s.variables,
        merge_spec(t, s, inc)->Ok_0.nodes == t.nodes,
{
}

/// Escaped text never holds `<` or `>`.
pub proof fn law_escaped_html_has_no_tags(s: Seq<char>)
    ensures
        forall|i: int| 0 <= i < escape_html_spec(s).len() ==> escape_html_spec(s)[i] != '<' && escape_html_spec(s)[i] != '>',
    decreases s.len(),
{
    if s.len() > 0 {
        law_escaped_html_has_no_tags(s.drop_last());
        reveal_strlit("&amp;");
        reveal_strlit("&lt;");
        reveal_strlit("&gt;");
        let pre = escape_html_spec(s.drop_last());
        let c = s.last();
        let tail = crate::codegen::html::escape_char_html(c);
        assert(escape_html_spec(s) == pre + tail);
        assert forall|k: int| 0 <= k < tail.len() implies tail[k] != '<' && tail[k] != '>' by {
            if c == '&' {
                assert(tail =~= seq!['&', 'a', 'm', 'p', ';']);
            } else if c == '<' {
                assert(tail =~= seq!['&', 'l', 't', ';']);
            } else if c == '>' {
                assert(tail =~= seq!['&', 'g', 't', ';']);
            }
        }
        assert forall|i: int| 0 <= i < escape_html_spec(s).len() implies escape_html_spec(s)[i] != '<'
            && escape_html_spec(s)[i] != '>' by {
            if i < pre.len() {
                assert(escape_html_spec(s)[i] == pre[i]);
            } else {
                assert(escape_html_spec(s)[i] == tail[i - pre.len()]);
            }
        }
    }
}

/// A component name of ASCII characters in PascalCase holds no separator
/// (`pascal_case` gives `pascal_fold` for such a name).
pub proof fn law_pascal_has_no_separator(s: Seq<char>)
    ensures
        forall|i: int| 0 <= i < pascal_fold(s).0.len() ==> !is_sep(#[trigger] pascal_fold(s).0[i]),
    decreases s.len(),
{
    if s.len() > 0 {
        law_pascal_has_no_separator(s.drop_last());
        let (out, start) = pascal_fold(s.drop_last());
        let c = s.last();
        assert forall|i: int| 0 <= i < pascal_fold(s).0.len() implies !is_sep(#[trigger] pascal_fold(s).0[i]) by {
            if i < out.len() {
                assert(pascal_fold(s.drop_last()).0[i] == out[i]);
            }
        }
    }
}

/// Evenly spread gradient stops start at 0% and end at 100%.
pub proof fn law_even_stops_span(count: nat)
    requires
        count >= 2,
    ensures
        even_position(0, count) == decimal_of(0, 0),
        even_position((count - 1) as nat, count) == decimal_of(100, 0),
{
    lemma_pow10_17();
    assert(((count - 1) as nat * pow10(17)) / ((count - 1) as int) == pow10(17)) by (nonlinear_arith)
        requires count >= 2, pow10(17) == 100000000000000000;
    assert((0 * pow10(17)) / ((count - 1) as int) == 0) by (nonlinear_arith)
        requires count >= 2;
    lemma_strip_zero(15);
    lemma_strip_hundred();
}

proof fn lemma_pow10_17()
    ensures
        pow10(17) == 100000000000000000,
{
    reveal_with_fuel(pow10, 18);
}

/// Zero in normal form has no fraction digits.
proof fn lemma_strip_zero(s: nat)
    ensures
        normal_parts(0, s) == (0int, 0nat),
    decreases s,
{
    if s > 0 {
        lemma_strip_zero((s - 1) as nat);
    }
}

/// 10^17 with 15 fraction digits is 100.
proof fn lemma_strip_hundred()
    ensures
        normal_parts(100000000000000000, 15) == (100int, 0nat),
{
    reveal_with_fuel(normal_parts, 16);
}


// ---------------------------------------------------------------------------
// Lint
// ---------------------------------------------------------------------------

/// The value that the lint suggests is on the scale, and no value of the
/// scale is nearer to the one it replaces.
pub proof fn law_suggestion_is_nearest(val: Decimal, scale: Seq<Decimal>)
    requires
        scale.len() > 0,
    ensures
        scale.contains(closest(val, scale)),
        forall|i: int| 0 <= i < scale.len() ==> dist(closest(val, scale), val) <= dist(#[trigger] scale[i], val),
    decreases scale.len(),
{
    if scale.len() > 1 {
        let rest = scale.drop_last();
        law_suggestion_is_nearest(val, rest);
        let b = nearest(val, rest);
        assert(rest.contains(b));
        let k = choose|k: int| 0 <= k < rest.len() && rest[k] == b;
        assert(scale[k] == b);
        assert(scale[scale.len() - 1] == scale.last());
        assert forall|i: int| 0 <= i < scale.len() implies dist(closest(val, scale), val) <= dist(#[trigger] scale[i], val) by {
            if i < scale.len() - 1 {
                assert(rest[i] == scale[i]);
            }
        }
    } else {
        assert(scale[0] == closest(val, scale));
    }
}

/// A color listed among the token colors draws no color violation.
pub proof fn law_token_color_passes(
    c: Color,
    what: Seq<char>,
    suggest: bool,
    file: Seq<char>,
    node: Seq<char>,
    colors: Seq<Seq<char>>,
)
    requires
        colors.contains(uppercase_of(color_hex(c))),
    ensures
        color_check(c, what, suggest, file, node, colors).len() == 0,
{
}

/// Values that all lie on the scale (or are not positive) leave nothing
/// off the scale.
pub proof fn law_values_on_scale_pass(vals: Seq<Decimal>, scale: Seq<Decimal>)
    requires
        forall|i: int| 0 <= i < vals.len() ==> on_scale(#[trigger] vals[i], scale),
    ensures
        first_off_scale(vals, scale) is None,
    decreases vals.len(),
{
    if vals.len() > 0 {
        assert(on_scale(vals[0], scale));
        assert forall|i: int| 0 <= i < vals.drop_first().len() implies on_scale(#[trigger] vals.drop_first()[i], scale) by {
            assert(vals.drop_first()[i] == vals[i + 1]);
        }
        law_values_on_scale_pass(vals.drop_first(), scale);
    }
}

/// A number that the lint accepts against a scale: not positive, or on it.
pub open spec fn on_scale(v: Decimal, scale: Seq<Decimal>) -> bool {
    v.mant() <= 0 || scale.contains(v)
}

pub open spec fn color_on_tokens(c: Color, colors: Seq<Seq<char>>) -> bool {
    colors.len() == 0 || colors.contains(uppercase_of(color_hex(c)))
}

pub open spec fn fill_on_tokens(f: Option<Fill>, colors: Seq<Seq<char>>) -> bool {
    match f {
        Some(Fill::Solid { color }) => color_on_tokens(color, colors),
        _ => true,
    }
}

pub open spec fn all_on_scale(vals: Seq<Decimal>, scale: Seq<Decimal>) -> bool {
    forall|i: int| 0 <= i < vals.len() ==> on_scale(#[trigger] vals[i], scale)
}

pub open spec fn opt_on_scale(v: Option<Decimal>, scale: Seq<Decimal>) -> bool {
    match v {
        Some(n) => on_scale(n, scale),
        None => true,
    }
}

pub open spec fn corners_on_scale(r: Option<CornerRadius>, scale: Seq<Decimal>) -> bool {
    match r {
        Some(CornerRadius(vals)) => all_on_scale(vals@, scale),
        None => true,
    }
}

pub open spec fn padding_on_scale(p: Option<Padding>, scale: Seq<Decimal>) -> bool {
    match p {
        Some(Padding(vals)) => all_on_scale(vals@, scale),
        None => true,
    }
}

/// Every value of a node that the lint checks comes from the tokens:
/// colors from the token colors, paddings and gaps from the spacing
/// scale, radii from the radius tokens, font sizes from the typography
/// tokens.
pub open spec fn node_on_tokens(n: IrNode, s: Scales) -> bool {
    match n.data {
        IrNodeData::Frame(f) => {
            &&& fill_on_tokens(f.visual.fill, s.colors)
            &&& match f.visual.stroke {
                Some(st) => color_on_tokens(st.color, s.colors),
                None => true,
            }
            &&& padding_on_scale(f.padding, s.spacings)
            &&& corners_on_scale(f.visual.corner_radius, s.radii)
            &&& match f.layout {
                Some(l) => opt_on_scale(l.gap, s.spacings),
                None => true,
            }
        },
        IrNodeData::Text(t) => {
            &&& match t.color {
                Some(c) => color_on_tokens(c, s.colors),
                None => true,
            }
            &&& opt_on_scale(t.font_size, s.font_sizes)
        },
        IrNodeData::Image(img) => corners_on_scale(img.corner_radius, s.radii),
        IrNodeData::Shape(sh) => fill_on_tokens(sh.visual.fill, s.colors) && corners_on_scale(sh.visual.corner_radius, s.radii),
    }
}

/// Every node of a forest, children included, takes its values from the
/// tokens.
pub open spec fn forest_on_tokens(nodes: Seq<IrNode>, s: Scales) -> bool
    decreases nodes,
{
    if nodes.len() == 0 {
        true
    } else {
        let n = nodes.last();
        proof {
            assert(decreases_to!(nodes => nodes[nodes.len() - 1]));
            assert(decreases_to!(n => n.children));
            assert(decreases_to!(n.children => n.children@));
        }
        forest_on_tokens(nodes.drop_last(), s) && node_on_tokens(n, s) && forest_on_tokens(n.children@, s)
    }
}

proof fn lemma_opt_on_scale(v: Option<Decimal>, scale: Seq<Decimal>)
    requires
        opt_on_scale(v, scale),
    ensures
        single_off(v, scale) is None,
{
}

/// A node whose checked values all come from the tokens draws no violation.
pub proof fn law_node_on_tokens_passes(n: IrNode, file: Seq<char>, s: Scales)
    requires
        node_on_tokens(n, s),
    ensures
        own_violations(n, file, s).len() == 0,
{
    match n.data {
        IrNodeData::Frame(f) => {
            match f.padding {
                Some(Padding(vals)) => law_values_on_scale_pass(vals@, s.spacings),
                None => {},
            }
            match f.visual.corner_radius {
                Some(CornerRadius(vals)) => law_values_on_scale_pass(vals@, s.radii),
                None => {},
            }
            match f.layout {
                Some(l) => lemma_opt_on_scale(l.gap, s.spacings),
                None => {},
            }
        },
        IrNodeData::Text(t) => {
            lemma_opt_on_scale(t.font_size, s.font_sizes);
        },
        IrNodeData::Image(img) => {
            match img.corner_radius {
                Some(CornerRadius(vals)) => law_values_on_scale_pass(vals@, s.radii),
                None => {},
            }
        },
        IrNodeData::Shape(sh) => {
            match sh.visual.corner_radius {
                Some(CornerRadius(vals)) => law_values_on_scale_pass(vals@, s.radii),
                None => {},
            }
        },
    }
}

/// A design whose checked values all come from its tokens passes the lint:
/// no node of the forest, children included, draws a violation.
pub proof fn law_design_on_tokens_passes(nodes: Seq<IrNode>, file: Seq<char>, s: Scales)
    requires
        forest_on_tokens(nodes, s),
    ensures
        forest_violations(nodes, file, s).len() == 0,
    decreases nodes,
{
    if nodes.len() > 0 {
        let n = nodes.last();
        assert(decreases_to!(nodes => nodes[nodes.len() - 1]));
        assert(decreases_to!(n => n.children));
        assert(decreases_to!(n.children => n.children@));
        law_design_on_tokens_passes(nodes.drop_last(), file, s);
        law_node_on_tokens_passes(n, file, s);
        law_design_on_tokens_passes(n.children@, file, s);
    }
}


proof fn lemma_pages_on_tokens_pass(pages: Seq<IrPage>, file: Seq<char>, s: Scales)
    requires
        forall|i: int| 0 <= i < pages.len() ==> forest_on_tokens(#[trigger] pages[i].nodes@, s),
    ensures
        pages_violations(pages, file, s).len() == 0,
    decreases pages.len(),
{
    if pages.len() > 0 {
        let last = pages.len() - 1;
        assert(forest_on_tokens(pages[last].nodes@, s));
        lemma_pages_on_tokens_pass(pages.drop_last(), file, s);
        law_design_on_tokens_passes(pages.last().nodes@, file, s);
    }
}

/// A document whose nodes, top-level and on every page, take all their
/// checked values from the document's own tokens gets no lint violation.
pub proof fn law_document_on_tokens_passes(ir: IrDocument, file: Seq<char>)
    requires
        forest_on_tokens(ir.nodes@, scales_of(ir.tokens@)),
        forall|i: int| 0 <= i < ir.pages@.len() ==> forest_on_tokens(#[trigger] ir.pages@[i].nodes@, scales_of(ir.tokens@)),
    ensures
        lint_spec(ir, file).len() == 0,
{
    let s = scales_of(ir.tokens@);
    law_design_on_tokens_passes(ir.nodes@, file, s);
    lemma_pages_on_tokens_pass(ir.pages@, file, s);
}


/// The corner radius a node carries, when its kind has one.
pub open spec fn node_radius(n: IrNode) -> Option<CornerRadius> {
    match n.data {
        IrNodeData::Frame(f) => f.visual.corner_radius,
        IrNodeData::Image(img) => img.corner_radius,
        IrNodeData::Shape(sh) => sh.visual.corner_radius,
        IrNodeData::Text(_) => None,
    }
}

/// A radius violation of a node: the `radius-from-token` rule on that node,
/// with the message that names the value off the scale.
pub open spec fn is_radius_violation(v: crate::lint::report::ViolationV, node: Seq<char>) -> bool {
    &&& v.rule == "radius-from-token"@
    &&& v.node == node
    &&& v.message == "radius "@ + v.value + " is not in token radius"@
}

proof fn lemma_first_off_found(vals: Seq<Decimal>, scale: Seq<Decimal>, k: int)
    requires
        0 <= k < vals.len(),
        !on_scale(vals[k], scale),
    ensures
        first_off_scale(vals, scale) is Some,
    decreases vals.len(),
{
    if k > 0 && !(vals[0].mant() > 0 && !scale.contains(vals[0])) {
        assert(vals.drop_first()[k - 1] == vals[k]);
        lemma_first_off_found(vals.drop_first(), scale, k - 1);
    }
}

/// A positive corner radius off a non-empty radius scale is reported: the
/// node's own violations hold a `radius-from-token` violation for it.
pub proof fn law_off_scale_radius_is_reported(n: IrNode, file: Seq<char>, s: Scales, r: CornerRadius, k: int)
    requires
        node_radius(n) == Some(r),
        s.radii.len() > 0,
        0 <= k < r.0@.len(),
        r.0@[k].mant() > 0,
        !s.radii.contains(r.0@[k]),
    ensures
        exists|m: int|
            0 <= m < own_violations(n, file, s).len() && is_radius_violation(
                #[trigger] own_violations(n, file, s)[m],
                n.id@,
            ),
{
    lemma_first_off_found(r.0@, s.radii, k);
    reveal_strlit("radius");
    reveal_strlit(" ");
    reveal_strlit("radius ");
    assert("radius"@ + " "@ =~= "radius "@);
    let x = first_off_scale(r.0@, s.radii).unwrap();
    assert(("radius"@ + " "@) + crate::lint::rules::px(x) + " is not in token radius"@
        =~= "radius "@ + crate::lint::rules::px(x) + " is not in token radius"@);
    let rc = crate::lint::rules::radius_check(Some(r), file, n.id@, s.radii);
    assert(rc.len() == 1 && is_radius_violation(rc[0], n.id@));
    let own = own_violations(n, file, s);
    match n.data {
        IrNodeData::Frame(f) => {
            let a = crate::lint::rules::fill_check(f.visual.fill, file, n.id@, s.colors)
                + crate::lint::rules::stroke_check(f.visual.stroke, file, n.id@, s.colors)
                + crate::lint::rules::padding_check(f.padding, file, n.id@, s.spacings);
            assert(own[a.len() as int] == rc[0]);
            assert(is_radius_violation(own[a.len() as int], n.id@));
        },
        IrNodeData::Image(_) => {
            assert(own[0] == rc[0]);
        },
        IrNodeData::Shape(sh) => {
            let a = crate::lint::rules::fill_check(sh.visual.fill, file, n.id@, s.colors);
            assert(own[a.len() as int] == rc[0]);
            assert(is_radius_violation(own[a.len() as int], n.id@));
        },
        IrNodeData::Text(_) => {},
    }
}

proof fn lemma_forest_holds_own(nodes: Seq<IrNode>, file: Seq<char>, s: Scales, i: int, k: int)
    requires
        0 <= i < nodes.len(),
        0 <= k < own_violations(nodes[i], file, s).len(),
    ensures
        forest_violations(nodes, file, s).contains(own_violations(nodes[i], file, s)[k]),
    decreases nodes.len(),
{
    let n = nodes.last();
    let front = forest_violations(nodes.drop_last(), file, s);
    let f = forest_violations(nodes, file, s);
    assert(f == front + own_violations(n, file, s) + forest_violations(n.children@, file, s));
    if i == nodes.len() - 1 {
        assert(f[front.len() + k] == own_violations(nodes[i], file, s)[k]);
    } else {
        assert(nodes.drop_last()[i] == nodes[i]);
        lemma_forest_holds_own(nodes.drop_last(), file, s, i, k);
        let m = choose|m: int| 0 <= m < front.len() && front[m] == own_violations(nodes[i], file, s)[k];
        assert(f[m] == front[m]);
    }
}

/// Linting a document reports every top-level node whose positive corner
/// radius is off the document's non-empty radius scale.
pub proof fn law_document_reports_off_scale_radius(ir: IrDocument, file: Seq<char>, i: int, r: CornerRadius, k: int)
    requires
        0 <= i < ir.nodes@.len(),
        node_radius(ir.nodes@[i]) == Some(r),
        scales_of(ir.tokens@).radii.len() > 0,
        0 <= k < r.0@.len(),
        r.0@[k].mant() > 0,
        !scales_of(ir.tokens@).radii.contains(r.0@[k]),
    ensures
        exists|m: int|
            0 <= m < lint_spec(ir, file).len() && is_radius_violation(
                #[trigger] lint_spec(ir, file)[m],
                ir.nodes@[i].id@,
            ),
{
    let s = scales_of(ir.tokens@);
    let n = ir.nodes@[i];
    law_off_scale_radius_is_reported(n, file, s, r, k);
    let own = own_violations(n, file, s);
    let j = choose|m: int| 0 <= m < own.len() && is_radius_violation(#[trigger] own[m], n.id@);
    lemma_forest_holds_own(ir.nodes@, file, s, i, j);
    let f = forest_violations(ir.nodes@, file, s);
    let m = choose|m: int| 0 <= m < f.len() && f[m] == own[j];
    let all = lint_spec(ir, file);
    assert(all == f + pages_violations(ir.pages@, file, s));
    assert(all[m] == f[m]);
    assert(is_radius_violation(all[m], n.id@));
}

/// A violation of a number rule on a node: `rule` on that node, with the
/// message that names the property and the value off its scale.
pub open spec fn is_number_violation(
    v: crate::lint::report::ViolationV,
    node: Seq<char>,
    rule: Seq<char>,
    what: Seq<char>,
    tail: Seq<char>,
) -> bool {
    &&& v.rule == rule
    &&& v.node == node
    &&& v.message == what + " "@ + v.value + tail
}

proof fn lemma_number_check_reports(x: Decimal, rule: Seq<char>, what: Seq<char>, tail: Seq<char>, file: Seq<char>, node: Seq<char>, scale: Seq<Decimal>)
    requires
        scale.len() > 0,
    ensures
        crate::lint::rules::number_check(Some(x), rule, what, tail, file, node, scale).len() == 1,
        is_number_violation(crate::lint::rules::number_check(Some(x), rule, what, tail, file, node, scale)[0], node, rule, what, tail),
{
    let px = crate::lint::rules::px(x);
    assert(what + " "@ + px + tail =~= what + " "@ + px + tail);
}

/// A positive padding value off a non-empty spacing scale is reported on
/// its frame, under `spacing-from-token`.
pub proof fn law_off_scale_padding_is_reported(n: IrNode, file: Seq<char>, s: Scales, f: crate::ir::node::FrameData, p: Padding, k: int)
    requires
        n.data == IrNodeData::Frame(f),
        f.padding == Some(p),
        s.spacings.len() > 0,
        0 <= k < p.0@.len(),
        p.0@[k].mant() > 0,
        !s.spacings.contains(p.0@[k]),
    ensures
        exists|m: int|
            0 <= m < own_violations(n, file, s).len() && is_number_violation(
                #[trigger] own_violations(n, file, s)[m],
                n.id@,
                "spacing-from-token"@,
                "padding"@,
                " is not on spacing scale"@,
            ),
{
    lemma_first_off_found(p.0@, s.spacings, k);
    let x = first_off_scale(p.0@, s.spacings).unwrap();
    lemma_number_check_reports(x, "spacing-from-token"@, "padding"@, " is not on spacing scale"@, file, n.id@, s.spacings);
    let pc = crate::lint::rules::padding_check(Some(p), file, n.id@, s.spacings);
    let own = own_violations(n, file, s);
    let a = crate::lint::rules::fill_check(f.visual.fill, file, n.id@, s.colors)
        + crate::lint::rules::stroke_check(f.visual.stroke, file, n.id@, s.colors);
    assert(own[a.len() as int] == pc[0]);
}

/// A positive gap off a non-empty spacing scale is reported on its frame,
/// under `spacing-from-token`.
pub proof fn law_off_scale_gap_is_reported(n: IrNode, file: Seq<char>, s: Scales, f: crate::ir::node::FrameData, l: crate::ir::style::Layout, g: Decimal)
    requires
        n.data == IrNodeData::Frame(f),
        f.layout == Some(l),
        l.gap == Some(g),
        s.spacings.len() > 0,
        g.mant() > 0,
        !s.spacings.contains(g),
    ensures
        exists|m: int|
            0 <= m < own_violations(n, file, s).len() && is_number_violation(
                #[trigger] own_violations(n, file, s)[m],
                n.id@,
                "spacing-from-token"@,
                "gap"@,
                " is not on spacing scale"@,
            ),
{
    lemma_number_check_reports(g, "spacing-from-token"@, "gap"@, " is not on spacing scale"@, file, n.id@, s.spacings);
    let own = own_violations(n, file, s);
    let a = crate::lint::rules::fill_check(f.visual.fill, file, n.id@, s.colors)
        + crate::lint::rules::stroke_check(f.visual.stroke, file, n.id@, s.colors)
        + crate::lint::rules::padding_check(f.padding, file, n.id@, s.spacings)
        + crate::lint::rules::radius_check(f.visual.corner_radius, file, n.id@, s.radii);
    assert(own[a.len() as int] == crate::lint::rules::number_check(Some(g), "spacing-from-token"@, "gap"@, " is not on spacing scale"@, file, n.id@, s.spacings)[0]);
}

/// A positive font size off a non-empty typography scale is reported on its
/// text, under `font-size-from-token`.
pub proof fn law_off_scale_font_size_is_reported(n: IrNode, file: Seq<char>, s: Scales, t: crate::ir::node::TextData, x: Decimal)
    requires
        n.data == IrNodeData::Text(t),
        t.font_size == Some(x),
        s.font_sizes.len() > 0,
        x.mant() > 0,
        !s.font_sizes.contains(x),
    ensures
        exists|m: int|
            0 <= m < own_violations(n, file, s).len() && is_number_violation(
                #[trigger] own_violations(n, file, s)[m],
                n.id@,
                "font-size-from-token"@,
                "font-size"@,
                " has no typography token"@,
            ),
{
    lemma_number_check_reports(x, "font-size-from-token"@, "font-size"@, " has no typography token"@, file, n.id@, s.font_sizes);
    let own = own_violations(n, file, s);
    let a = crate::lint::rules::text_color_check(t.color, file, n.id@, s.colors);
    assert(own[a.len() as int] == crate::lint::rules::number_check(Some(x), "font-size-from-token"@, "font-size"@, " has no typography token"@, file, n.id@, s.font_sizes)[0]);
}

/// When the document defines any token scale, every violation of a
/// top-level node's own properties is in the document's report.
pub proof fn law_document_keeps_node_violations(ir: IrDocument, file: Seq<char>, i: int, k: int)
    requires
        0 <= i < ir.nodes@.len(),
        0 <= k < own_violations(ir.nodes@[i], file, scales_of(ir.tokens@)).len(),
        ({
            let s = scales_of(ir.tokens@);
            s.colors.len() > 0 || s.spacings.len() > 0 || s.radii.len() > 0 || s.font_sizes.len() > 0
        }),
    ensures
        lint_spec(ir, file).contains(own_violations(ir.nodes@[i], file, scales_of(ir.tokens@))[k]),
{
    let s = scales_of(ir.tokens@);
    let v = own_violations(ir.nodes@[i], file, s)[k];
    lemma_forest_holds_own(ir.nodes@, file, s, i, k);
    let f = forest_violations(ir.nodes@, file, s);
    let m = choose|m: int| 0 <= m < f.len() && f[m] == v;
    let all = lint_spec(ir, file);
    assert(all == f + pages_violations(ir.pages@, file, s));
    assert(all[m] == f[m]);
}

/// A color violation of a node: `color-from-token` on that node, for the
/// color's hex text in upper case.
pub open spec fn is_color_violation(v: crate::lint::report::ViolationV, node: Seq<char>, c: Color) -> bool {
    &&& v.rule == "color-from-token"@
    &&& v.node == node
    &&& v.value == uppercase_of(color_hex(c))
}

/// The color a node is filled with, when its kind has a solid fill.
pub open spec fn node_fill_color(n: IrNode) -> Option<Color> {
    let fill = match n.data {
        IrNodeData::Frame(f) => f.visual.fill,
        IrNodeData::Shape(sh) => sh.visual.fill,
        _ => None,
    };
    match fill {
        Some(Fill::Solid { color }) => Some(color),
        _ => None,
    }
}

/// A solid fill, or a text color, outside a non-empty set of token colors
/// is reported on its node, under `color-from-token`.
pub proof fn law_off_token_color_is_reported(n: IrNode, file: Seq<char>, s: Scales, c: Color)
    requires
        node_fill_color(n) == Some(c) || (n.data is Text && n.data->Text_0.color == Some(c)),
        s.colors.len() > 0,
        !s.colors.contains(uppercase_of(color_hex(c))),
    ensures
        exists|m: int|
            0 <= m < own_violations(n, file, s).len() && is_color_violation(
                #[trigger] own_violations(n, file, s)[m],
                n.id@,
                c,
            ),
{
    let own = own_violations(n, file, s);
    let cc = color_check(c, if n.data is Text { "text"@ } else { "fill"@ }, true, file, n.id@, s.colors);
    assert(cc.len() == 1 && is_color_violation(cc[0], n.id@, c));
    assert(own[0] == cc[0]);
}

/// A frame's stroke color outside a non-empty set of token colors is
/// reported on the frame, under `color-from-token`.
pub proof fn law_off_token_stroke_is_reported(n: IrNode, file: Seq<char>, s: Scales, f: crate::ir::node::FrameData, st: crate::ir::style::Stroke)
    requires
        n.data == IrNodeData::Frame(f),
        f.visual.stroke == Some(st),
        s.colors.len() > 0,
        !s.colors.contains(uppercase_of(color_hex(st.color))),
    ensures
        exists|m: int|
            0 <= m < own_violations(n, file, s).len() && is_color_violation(
                #[trigger] own_violations(n, file, s)[m],
                n.id@,
                st.color,
            ),
{
    let own = own_violations(n, file, s);
    let a = crate::lint::rules::fill_check(f.visual.fill, file, n.id@, s.colors);
    let cc = color_check(st.color, Seq::empty(), false, file, n.id@, s.colors);
    assert(cc.len() == 1 && is_color_violation(cc[0], n.id@, st.color));
    assert(own[a.len() as int] == cc[0]);
}

// ---------------------------------------------------------------------------
// Keywords and the words the output writes for them
// ---------------------------------------------------------------------------

/// An `align` keyword names the alignment whose CSS `align-items` value it
/// is (`start` and `end` written with `flex-` before them), and different
/// keywords name different alignments.
pub proof fn law_align_keyword_is_its_css(s: Seq<char>, t: Seq<char>, a: crate::ir::style::Align)
    ensures
        crate::semantic::resolve::align_of(s) == Some(a) ==> crate::codegen::html::align_css(a) == s
            || crate::codegen::html::align_css(a) == "flex-"@ + s,
        crate::semantic::resolve::align_of(s) == Some(a) && crate::semantic::resolve::align_of(t) == Some(a) ==> s == t,
{
    reveal_strlit("start");
    reveal_strlit("center");
    reveal_strlit("end");
    reveal_strlit("stretch");
    reveal_strlit("flex-");
    reveal_strlit("flex-start");
    reveal_strlit("flex-end");
    assert("flex-"@ + "start"@ =~= "flex-start"@);
    assert("flex-"@ + "end"@ =~= "flex-end"@);
}

/// A `justify` keyword names the distribution whose CSS `justify-content`
/// value it is (`start` and `end` written with `flex-` before them), and
/// different keywords name different distributions.
pub proof fn law_justify_keyword_is_its_css(s: Seq<char>, t: Seq<char>, j: crate::ir::style::Justify)
    ensures
        crate::semantic::resolve_extra::justify_of(s) == Some(j) ==> crate::codegen::html::justify_css(j) == s
            || crate::codegen::html::justify_css(j) == "flex-"@ + s,
        crate::semantic::resolve_extra::justify_of(s) == Some(j) && crate::semantic::resolve_extra::justify_of(t)
            == Some(j) ==> s == t,
{
    reveal_strlit("start");
    reveal_strlit("center");
    reveal_strlit("end");
    reveal_strlit("space-between");
    reveal_strlit("space-around");
    reveal_strlit("flex-");
    reveal_strlit("flex-start");
    reveal_strlit("flex-end");
    assert("flex-"@ + "start"@ =~= "flex-start"@);
    assert("flex-"@ + "end"@ =~= "flex-end"@);
}

/// An image `fit` keyword names the fit whose CSS `object-fit` value it is:
/// each fit reads back from its CSS value, and only from it.
pub proof fn law_fit_keyword_is_its_css(s: Seq<char>, f: crate::ir::style::ImageFit)
    ensures
        crate::semantic::resolve_extra::image_fit_of(crate::codegen::html::fit_css(f)) == Some(f),
        crate::semantic::resolve_extra::image_fit_of(s) == Some(f) ==> s == crate::codegen::html::fit_css(f),
{
    reveal_strlit("cover");
    reveal_strlit("contain");
    reveal_strlit("fill");
    reveal_strlit("none");
    assert("cover"@.len() == 5 && "contain"@.len() == 7 && "fill"@.len() == 4 && "none"@.len() == 4);
    assert("fill"@[0] != "none"@[0]);
}

/// The plan names a shape's type by the keyword that sets it: the word
/// reads back as that type, and different types get different words.
pub proof fn law_shape_word_is_its_keyword(t: crate::ir::node::ShapeType, u: crate::ir::node::ShapeType)
    ensures
        crate::semantic::leaf::shape_type_of(crate::summary::shape_word(t)) == Some(t),
        crate::summary::shape_word(t) == crate::summary::shape_word(u) ==> t == u,
{
    reveal_strlit("rectangle");
    reveal_strlit("rect");
    reveal_strlit("ellipse");
    reveal_strlit("circle");
    reveal_strlit("line");
    reveal_strlit("path");
    assert("rectangle"@.len() == 9 && "rect"@.len() == 4 && "ellipse"@.len() == 7 && "circle"@.len() == 6);
    assert("line"@.len() == 4 && "path"@.len() == 4 && "line"@[0] != "path"@[0] && "line"@[0] != "rect"@[0]);
    assert("path"@[0] != "rect"@[0]);
}

// ---------------------------------------------------------------------------
// Component arguments
// ---------------------------------------------------------------------------

/// The number of positional arguments among the first `n` of a `use`.
pub open spec fn positional_count(attrs: Seq<AttrV>, n: nat) -> nat
    decreases n,
{
    if n == 0 {
        0
    } else {
        positional_count(attrs, (n - 1) as nat) + if positional_prefix().is_prefix_of(attrs[n - 1].key) {
            1nat
        } else {
            0nat
        }
    }
}

proof fn lemma_key_index_absent(m: Seq<(Seq<char>, Expr)>, k: Seq<char>)
    ensures
        key_index(m, k) < 0 <==> forall|j: int| 0 <= j < m.len() ==> (#[trigger] m[j]).0 != k,
    decreases m.len(),
{
    lemma_key_index_bounds(m, k);
    if m.len() > 0 {
        let d = m.drop_last();
        lemma_key_index_absent(d, k);
        lemma_key_index_bounds(d, k);
        if key_index(m, k) < 0 {
            assert forall|j: int| 0 <= j < m.len() implies (#[trigger] m[j]).0 != k by {
                if j < m.len() - 1 {
                    assert(d[j] == m[j]);
                }
            }
        } else {
            let i = key_index(m, k);
            assert(m[i].0 == k);
        }
    }
}

proof fn lemma_key_index_at(m: Seq<(Seq<char>, Expr)>, k: Seq<char>, i: int)
    requires
        0 <= i < m.len(),
        m[i].0 == k,
        forall|j: int| 0 <= j < i ==> (#[trigger] m[j]).0 != k,
    ensures
        key_index(m, k) == i,
{
    let sub = m.subrange(0, i + 1);
    let pre = m.subrange(0, i);
    assert(sub.drop_last() =~= pre);
    assert forall|j: int| 0 <= j < pre.len() implies (#[trigger] pre[j]).0 != k by {
        assert(pre[j] == m[j]);
    }
    lemma_key_index_absent(pre, k);
    assert(sub.last() == m[i]);
    assert(key_index(sub, k) == i);
    lemma_key_index_prefix(m, (i + 1) as nat, k);
}

proof fn lemma_key_index_first(m: Seq<(Seq<char>, Expr)>, k: Seq<char>)
    requires
        key_index(m, k) >= 0,
    ensures
        forall|j: int| 0 <= j < key_index(m, k) ==> (#[trigger] m[j]).0 != k,
    decreases m.len(),
{
    lemma_key_index_bounds(m, k);
    if m.len() > 0 {
        let d = m.drop_last();
        if key_index(d, k) >= 0 {
            lemma_key_index_first(d, k);
            assert forall|j: int| 0 <= j < key_index(m, k) implies (#[trigger] m[j]).0 != k by {
                assert(d[j] == m[j]);
            }
        } else {
            lemma_key_index_absent(d, k);
            assert forall|j: int| 0 <= j < key_index(m, k) implies (#[trigger] m[j]).0 != k by {
                assert(d[j] == m[j]);
            }
        }
    }
}

proof fn lemma_same_keys(m: Seq<(Seq<char>, Expr)>, m2: Seq<(Seq<char>, Expr)>, k: Seq<char>)
    requires
        m.len() == m2.len(),
        forall|j: int| 0 <= j < m.len() ==> (#[trigger] m[j]).0 == m2[j].0,
    ensures
        key_index(m, k) == key_index(m2, k),
    decreases m.len(),
{
    if m.len() > 0 {
        let d = m.drop_last();
        let d2 = m2.drop_last();
        assert forall|j: int| 0 <= j < d.len() implies (#[trigger] d[j]).0 == d2[j].0 by {
            assert(d[j] == m[j]);
            assert(d2[j] == m2[j]);
        }
        lemma_same_keys(d, d2, k);
        assert(m[m.len() - 1].0 == m2[m.len() - 1].0);
    }
}

proof fn lemma_get_insert_same(m: Seq<(Seq<char>, Expr)>, k: Seq<char>, v: Expr)
    ensures
        map_get(map_insert(m, k, v), k) == Some(v),
{
    lemma_key_index_bounds(m, k);
    let i = key_index(m, k);
    if 0 <= i {
        let m2 = m.update(i, (k, v));
        lemma_key_index_first(m, k);
        assert forall|j: int| 0 <= j < i implies (#[trigger] m2[j]).0 != k by {
            assert(m2[j] == m[j]);
        }
        lemma_key_index_at(m2, k, i);
    } else {
        let m2 = m.push((k, v));
        assert(m2.drop_last() =~= m);
    }
}

proof fn lemma_get_insert_other(m: Seq<(Seq<char>, Expr)>, k: Seq<char>, v: Expr, k2: Seq<char>)
    requires
        k2 != k,
    ensures
        map_get(map_insert(m, k, v), k2) == map_get(m, k2),
        key_index(map_insert(m, k, v), k2) < 0 <==> key_index(m, k2) < 0,
{
    lemma_key_index_bounds(m, k);
    lemma_key_index_bounds(m, k2);
    let i = key_index(m, k);
    if 0 <= i {
        let m2 = m.update(i, (k, v));
        assert forall|j: int| 0 <= j < m.len() implies (#[trigger] m[j]).0 == m2[j].0 by {
            if j != i {
                assert(m2[j] == m[j]);
            }
        }
        lemma_same_keys(m, m2, k2);
        let i2 = key_index(m, k2);
        if 0 <= i2 {
            assert(i2 != i);
            assert(m2[i2] == m[i2]);
        }
    } else {
        let m2 = m.push((k, v));
        assert(m2.drop_last() =~= m);
        let i2 = key_index(m, k2);
        if 0 <= i2 {
            assert(m2[i2] == m[i2]);
        }
    }
    lemma_key_index_bounds(map_insert(m, k, v), k2);
}

proof fn lemma_defaults_keep(params: Seq<ParamV>, m: Seq<(Seq<char>, Expr)>, n: nat, k: Seq<char>)
    requires
        n <= params.len(),
        key_index(m, k) >= 0,
    ensures
        key_index(with_defaults(params, m, n), k) >= 0,
        map_get(with_defaults(params, m, n), k) == map_get(m, k),
    decreases n,
{
    if n > 0 {
        lemma_defaults_keep(params, m, (n - 1) as nat, k);
        let m1 = with_defaults(params, m, (n - 1) as nat);
        let p = params[n - 1];
        if key_index(m1, p.name) < 0 && p.default is Some {
            lemma_get_insert_other(m1, p.name, p.default->0, k);
        }
    }
}

proof fn lemma_defaults_absent(params: Seq<ParamV>, m: Seq<(Seq<char>, Expr)>, n: nat, k: Seq<char>)
    requires
        n <= params.len(),
        key_index(m, k) < 0,
        forall|i: int| 0 <= i < n ==> (#[trigger] params[i]).name != k,
    ensures
        key_index(with_defaults(params, m, n), k) < 0,
    decreases n,
{
    if n > 0 {
        lemma_defaults_absent(params, m, (n - 1) as nat, k);
        let m1 = with_defaults(params, m, (n - 1) as nat);
        let p = params[n - 1];
        if key_index(m1, p.name) < 0 && p.default is Some {
            lemma_get_insert_other(m1, p.name, p.default->0, k);
        }
    }
}

proof fn lemma_defaults_fill(params: Seq<ParamV>, m: Seq<(Seq<char>, Expr)>, n: nat, p: int)
    requires
        0 <= p < n <= params.len(),
        params[p].default is Some,
        key_index(m, params[p].name) < 0,
        forall|i: int, j: int| 0 <= i < j < params.len() ==> (#[trigger] params[i]).name != (#[trigger] params[j]).name,
    ensures
        map_get(with_defaults(params, m, n), params[p].name) == params[p].default,
    decreases n,
{
    let k = params[p].name;
    let m1 = with_defaults(params, m, (n - 1) as nat);
    let q = params[n - 1];
    if n - 1 == p {
        assert forall|i: int| 0 <= i < n - 1 implies (#[trigger] params[i]).name != k by {
            assert(params[i].name != params[p].name);
        }
        lemma_defaults_absent(params, m, (n - 1) as nat, k);
        lemma_get_insert_same(m1, k, params[p].default->0);
    } else {
        lemma_defaults_fill(params, m, (n - 1) as nat, p);
        assert(params[p].name != params[n - 1].name);
        if key_index(m1, q.name) < 0 && q.default is Some {
            lemma_get_insert_other(m1, q.name, q.default->0, k);
        }
    }
}

proof fn lemma_fold_count(params: Seq<ParamV>, attrs: Seq<AttrV>, n: nat)
    requires
        n <= attrs.len(),
    ensures
        param_fold(params, attrs, n).1 == positional_count(attrs, n),
    decreases n,
{
    if n > 0 {
        lemma_fold_count(params, attrs, (n - 1) as nat);
    }
}

proof fn lemma_fold_absent(params: Seq<ParamV>, attrs: Seq<AttrV>, n: nat, k: Seq<char>)
    requires
        n <= attrs.len(),
        forall|i: int| 0 <= i < n && !positional_prefix().is_prefix_of(#[trigger] attrs[i].key) ==> attrs[i].key != k,
        forall|c: int| 0 <= c < positional_count(attrs, n) && c < params.len() ==> (#[trigger] params[c]).name != k,
    ensures
        key_index(param_fold(params, attrs, n).0, k) < 0,
    decreases n,
{
    if n > 0 {
        lemma_fold_absent(params, attrs, (n - 1) as nat, k);
        lemma_fold_count(params, attrs, (n - 1) as nat);
        let (m, idx) = param_fold(params, attrs, (n - 1) as nat);
        let a = attrs[n - 1];
        if positional_prefix().is_prefix_of(a.key) {
            if idx < params.len() {
                assert(params[idx as int].name != k);
                lemma_get_insert_other(m, params[idx as int].name, a.value, k);
            }
        } else {
            lemma_get_insert_other(m, a.key, a.value, k);
        }
    }
}

proof fn lemma_count_mono(attrs: Seq<AttrV>, a: nat, b: nat)
    requires
        a <= b,
    ensures
        positional_count(attrs, a) <= positional_count(attrs, b),
    decreases b,
{
    if a < b {
        lemma_count_mono(attrs, a, (b - 1) as nat);
    }
}

proof fn lemma_fold_named(params: Seq<ParamV>, attrs: Seq<AttrV>, n: nat, j: int)
    requires
        0 <= j < n <= attrs.len(),
        !positional_prefix().is_prefix_of(attrs[j].key),
        forall|i: int| j < i < n && !positional_prefix().is_prefix_of(#[trigger] attrs[i].key) ==> attrs[i].key != attrs[j].key,
        forall|c: int|
            positional_count(attrs, (j + 1) as nat) <= c < positional_count(attrs, n) && c < params.len()
                ==> (#[trigger] params[c]).name != attrs[j].key,
    ensures
        map_get(param_fold(params, attrs, n).0, attrs[j].key) == Some(attrs[j].value),
    decreases n,
{
    let k = attrs[j].key;
    let (m, idx) = param_fold(params, attrs, (n - 1) as nat);
    lemma_fold_count(params, attrs, (n - 1) as nat);
    if n - 1 == j {
        lemma_get_insert_same(m, k, attrs[j].value);
    } else {
        lemma_fold_named(params, attrs, (n - 1) as nat, j);
        lemma_count_mono(attrs, (j + 1) as nat, (n - 1) as nat);
        let a = attrs[n - 1];
        if positional_prefix().is_prefix_of(a.key) {
            if idx < params.len() {
                assert(params[idx as int].name != k);
                lemma_get_insert_other(m, params[idx as int].name, a.value, k);
            }
        } else {
            lemma_get_insert_other(m, a.key, a.value, k);
        }
    }
}

/// A named argument of a `use` gives its parameter its value, overriding
/// the default, unless a later argument binds the same name again.
pub proof fn law_named_argument_wins(params: Seq<ParamV>, attrs: Seq<AttrV>, j: int)
    requires
        0 <= j < attrs.len(),
        !positional_prefix().is_prefix_of(attrs[j].key),
        forall|i: int|
            j < i < attrs.len() && !positional_prefix().is_prefix_of(#[trigger] attrs[i].key) ==> attrs[i].key
                != attrs[j].key,
        forall|c: int|
            positional_count(attrs, (j + 1) as nat) <= c < positional_count(attrs, attrs.len()) && c < params.len()
                ==> (#[trigger] params[c]).name != attrs[j].key,
    ensures
        map_get(param_values_spec(params, attrs), attrs[j].key) == Some(attrs[j].value),
{
    lemma_fold_named(params, attrs, attrs.len(), j);
    let m = param_fold(params, attrs, attrs.len()).0;
    lemma_key_index_bounds(m, attrs[j].key);
    lemma_defaults_keep(params, m, params.len(), attrs[j].key);
}

/// A parameter that no argument of a `use` binds, neither by name nor by
/// position, takes its default value (parameter names being distinct).
pub proof fn law_default_applies(params: Seq<ParamV>, attrs: Seq<AttrV>, p: int)
    requires
        0 <= p < params.len(),
        params[p].default is Some,
        forall|i: int, j: int| 0 <= i < j < params.len() ==> (#[trigger] params[i]).name != (#[trigger] params[j]).name,
        forall|i: int|
            0 <= i < attrs.len() && !positional_prefix().is_prefix_of(#[trigger] attrs[i].key) ==> attrs[i].key
                != params[p].name,
        positional_count(attrs, attrs.len()) <= p,
    ensures
        map_get(param_values_spec(params, attrs), params[p].name) == params[p].default,
{
    let k = params[p].name;
    assert forall|c: int| 0 <= c < positional_count(attrs, attrs.len()) && c < params.len() implies (#[trigger] params[c]).name != k by {
        assert(params[c].name != params[p].name);
    }
    lemma_fold_absent(params, attrs, attrs.len(), k);
    lemma_defaults_fill(params, param_fold(params, attrs, attrs.len()).0, params.len(), p);
}


/// Dropping trailing zero fraction digits keeps a number's value.
proof fn lemma_normal_value(m: int, s: nat)
    requires
        s <= 18,
        0 <= m,
    ensures
        normal_parts(m, s).1 <= s,
        0 <= normal_parts(m, s).0 <= m,
        normal_parts(m, s).0 * pow10((18 - normal_parts(m, s).1) as nat) == m * pow10((18 - s) as nat),
        parts_wf(normal_parts(m, s).0, normal_parts(m, s).1 as int) || m > i64::MAX,
    decreases s,
{
    if s > 0 && m % 10 == 0 {
        lemma_normal_value(m / 10, (s - 1) as nat);
        assert(pow10((18 - (s - 1)) as nat) == 10 * pow10((18 - s) as nat));
        assert((m / 10) * (10 * pow10((18 - s) as nat)) == m * pow10((18 - s) as nat)) by (nonlinear_arith)
            requires m % 10 == 0;
    }
}

proof fn lemma_pow10_3()
    ensures
        pow10(3) == 1000,
{
    reveal_with_fuel(pow10, 4);
}

/// The value of an evenly spread stop, scaled by `10^18`.
proof fn lemma_even_value(idx: nat, count: nat)
    requires
        count >= 2,
        idx < count,
    ensures
        scaled(even_position(idx, count)) == ((idx * pow10(17)) / ((count - 1) as int)) * 1000,
{
    lemma_pow10_17();
    lemma_pow10_3();
    let m = (idx * pow10(17)) / ((count - 1) as int);
    assert(0 <= m <= pow10(17)) by (nonlinear_arith)
        requires
            m == (idx * pow10(17)) / ((count - 1) as int),
            idx < count,
            count >= 2,
            pow10(17) == 100000000000000000;
    lemma_normal_value(m, 15);
    let np = normal_parts(m, 15);
    lemma_decimal_of(np.0, np.1 as int);
}

/// Evenly spread gradient stops go up: a later stop is never before an
/// earlier one.
pub proof fn law_even_stops_ascend(i: nat, j: nat, count: nat)
    requires
        count >= 2,
        i <= j < count,
    ensures
        scaled(even_position(i, count)) <= scaled(even_position(j, count)),
{
    lemma_even_value(i, count);
    lemma_even_value(j, count);
    lemma_pow10_17();
    assert((i * pow10(17)) / ((count - 1) as int) <= (j * pow10(17)) / ((count - 1) as int)) by (nonlinear_arith)
        requires
            i <= j,
            count >= 2,
            pow10(17) == 100000000000000000;
}

} // verus!
