use vstd::prelude::*;

use crate::ast::{
    asset_view, block_view, entry_view, let_view, node_view, page_view, AssetDecl, LetDecl, NodeDecl, PageDecl, TokenBlock, TokenEntry,
    attr_view, attrs_view, canvas_view, component_view, expr_view, exprs_view, nodes_view,
    pairs_view, program_view, AssetV, AttrV, CanvasDecl, CanvasV, ComponentDecl, ComponentV, Expr,
    Expression, LetV, PageV, Program, ProgramV, TokenBlockV, TokenEntryV,
};
use crate::error::{ErrorView, PastelError};
use crate::expr::{lemma_exprs_view_len, lemma_pairs_view_len};
use crate::ir::style::Color;
use crate::ir::node::IrNode;
use crate::ir::view::{
    asset_ir_view, canvas_ir_view, doc_view, group_view, ir_nodes_view, page_ir_view,
    tv_pairs_view, tv_view, tvs_view, AssetIrV, CanvasIrV, DocV, GroupV, NodeIrV, PageIrV,
    TokenValV,
};
use crate::ir::{IrAsset, IrCanvas, IrDocument, IrPage, IrTokenEntry, IrTokenGroup, IrTokenValue};
use crate::text::{copy_string, owned, push_str, str_eq};
use super::builder::{build_list, BState, IrBuilder};
use super::expand::{copy_component, lemma_nodes_view_len};
use super::frame::then_set;
use super::resolve::{color_spec, int_decimal, u32_spec, PropertyResolver};
use super::vars::VariableResolver;

verus! {

// ---------------------------------------------------------------------------
// Design tokens
// ---------------------------------------------------------------------------

/// "..." once for each argument, separated by ", ".
pub open spec fn dots(n: nat) -> Seq<char>
    decreases n,
{
    if n == 0 {
        Seq::empty()
    } else if n == 1 {
        "..."@
    } else {
        dots((n - 1) as nat) + ", ..."@
    }
}

/// The token value of an expression: numbers as numbers, colors with their
/// `#`, identifiers as strings, and a function call as its name with one
/// "..." per argument.
pub open spec fn tv_of(e: Expr) -> TokenValV
    decreases e, 1int,
{
    match e {
        Expr::Integer(n) => TokenValV::Number(int_decimal(n)),
        Expr::Float(d) => TokenValV::Number(d),
        Expr::Color(c) => TokenValV::Color("#"@ + c),
        Expr::Str(s) => TokenValV::Str(s),
        Expr::Bool(b) => TokenValV::Bool(b),
        Expr::Ident(s) => TokenValV::Str(s),
        Expr::Array(items) => TokenValV::Array(tv_list(items)),
        Expr::Object(pairs) => TokenValV::Object(tv_pairs(pairs)),
        Expr::Call(name, args) => TokenValV::Str(name + "("@ + dots(args.len()) + ")"@),
    }
}

pub open spec fn tv_list(s: Seq<Expr>) -> Seq<TokenValV>
    decreases s, 0int,
{
    if s.len() == 0 {
        Seq::empty()
    } else {
        proof {
            assert(decreases_to!(s => s[s.len() - 1]));
        }
        tv_list(s.drop_last()).push(tv_of(s.last()))
    }
}

pub open spec fn tv_pairs(s: Seq<(Seq<char>, Expr)>) -> Seq<(Seq<char>, TokenValV)>
    decreases s, 0int,
{
    if s.len() == 0 {
        Seq::empty()
    } else {
        proof {
            assert(decreases_to!(s => s[s.len() - 1]));
            assert(decreases_to!(s[s.len() - 1] => s[s.len() - 1].1));
        }
        tv_pairs(s.drop_last()).push((s.last().0, tv_of(s.last().1)))
    }
}

/// The variables that a token block defines: `block.key` for each entry.
pub open spec fn block_bindings(b: TokenBlockV) -> Seq<(Seq<char>, Expr)> {
    b.entries.map_values(|e: TokenEntryV| (b.name + "."@ + e.key, e.value))
}

pub open spec fn token_bindings(blocks: Seq<TokenBlockV>) -> Seq<(Seq<char>, Expr)>
    decreases blocks.len(),
{
    if blocks.len() == 0 {
        Seq::empty()
    } else {
        token_bindings(blocks.drop_last()) + block_bindings(blocks.last())
    }
}

/// The token group of a token block.
pub open spec fn group_of(b: TokenBlockV) -> GroupV {
    GroupV { name: b.name, entries: b.entries.map_values(|e: TokenEntryV| (e.key, tv_of(e.value))) }
}

// ---------------------------------------------------------------------------
// Canvas and assets
// ---------------------------------------------------------------------------

pub open spec fn canvas_step(b: Seq<(Seq<char>, Expr)>, c: CanvasIrV, a: AttrV) -> Result<CanvasIrV, ErrorView> {
    if a.key == "width"@ {
        then_set(u32_spec(b, a.value), a.span, |w: u32| CanvasIrV { width: w, ..c })
    } else if a.key == "height"@ {
        then_set(u32_spec(b, a.value), a.span, |h: u32| CanvasIrV { height: h, ..c })
    } else if a.key == "background"@ {
        then_set(color_spec(b, a.value), a.span, |x: Color| CanvasIrV { background: Some(x), ..c })
    } else {
        Ok(c)
    }
}

pub open spec fn canvas_fold(b: Seq<(Seq<char>, Expr)>, attrs: Seq<AttrV>, n: nat, init: CanvasIrV) -> Result<CanvasIrV, ErrorView>
    decreases n,
{
    if n == 0 {
        Ok(init)
    } else {
        match canvas_fold(b, attrs, (n - 1) as nat, init) {
            Err(e) => Err(e),
            Ok(c) => canvas_step(b, c, attrs[n - 1]),
        }
    }
}

/// The canvas: 1440 by 900 without background unless the declaration says
/// otherwise; "untitled" when there is none.
pub open spec fn canvas_ir_spec(b: Seq<(Seq<char>, Expr)>, c: Option<CanvasV>) -> Result<CanvasIrV, ErrorView> {
    match c {
        Some(cv) => canvas_fold(
            b,
            cv.attrs,
            cv.attrs.len(),
            CanvasIrV { name: cv.name, width: 1440, height: 900, background: None },
        ),
        None => Ok(CanvasIrV { name: "untitled"@, width: 1440, height: 900, background: None }),
    }
}

/// The index of the asset with the given id, or -1.
pub open spec fn asset_index(m: Seq<AssetIrV>, id: Seq<char>) -> int
    decreases m.len(),
{
    if m.len() == 0 {
        -1
    } else {
        let i = asset_index(m.drop_last(), id);
        if i >= 0 {
            i
        } else if m.last().id == id {
            m.len() - 1
        } else {
            -1
        }
    }
}

/// The assets of the first `n` declarations: one per name, with the last
/// declaration of the name, in the order the names first appear.
pub open spec fn assets_fold(assets: Seq<AssetV>, n: nat) -> Seq<AssetIrV>
    decreases n,
{
    if n == 0 {
        Seq::empty()
    } else {
        let m = assets_fold(assets, (n - 1) as nat);
        let a = assets[n - 1];
        let x = AssetIrV { id: a.name, kind: a.kind, path: a.path };
        let i = asset_index(m, a.name);
        if 0 <= i < m.len() { m.update(i, x) } else { m.push(x) }
    }
}

// ---------------------------------------------------------------------------
// The document
// ---------------------------------------------------------------------------

/// Pages built in order, each in the state the one before it left.
pub open spec fn pages_spec(comps: Seq<ComponentV>, st: BState, pages: Seq<PageV>, budget: nat) -> Result<(Seq<PageIrV>, BState), ErrorView>
    decreases pages.len(),
{
    if pages.len() == 0 {
        Ok((Seq::empty(), st))
    } else {
        match pages_spec(comps, st, pages.drop_last(), budget) {
            Err(e) => Err(e),
            Ok((done, st1)) => match build_list(comps, st1, pages.last().nodes, budget) {
                Err(e) => Err(e),
                Ok((nodes, st2)) => Ok((done.push(PageIrV { name: pages.last().name, nodes }), st2)),
            },
        }
    }
}

/// The variables of a program: its `let`s, then its tokens.
pub open spec fn program_bindings(p: ProgramV) -> Seq<(Seq<char>, Expr)> {
    p.variables.map_values(|l: LetV| (l.name, l.value)) + token_bindings(p.token_blocks)
}

/// The design document of a program whose includes are merged: the canvas,
/// then the top-level nodes, then the pages, in order; the first error
/// stops it.
pub open spec fn analyze_spec(p: ProgramV) -> Result<DocV, ErrorView> {
    let b = program_bindings(p);
    let budget = p.components.len();
    match canvas_ir_spec(b, p.canvas) {
        Err(e) => Err(e),
        Ok(canvas) => match build_list(p.components, BState { vars: b, counter: 0 }, p.nodes, budget) {
            Err(e) => Err(e),
            Ok((nodes, st)) => match pages_spec(p.components, st, p.pages, budget) {
                Err(e) => Err(e),
                Ok((pages, _)) => Ok(
                    DocV {
                        version: 1,
                        canvas,
                        assets: assets_fold(p.assets, p.assets.len()),
                        tokens: p.token_blocks.map_values(|blk: TokenBlockV| group_of(blk)),
                        nodes,
                        pages,
                    },
                ),
            },
        },
    }
}

/// Top-level semantic analysis entry point.
pub struct SemanticAnalyzer;

impl SemanticAnalyzer {
    pub fn new() -> (a: SemanticAnalyzer) {
        SemanticAnalyzer
    }

    /// Convert an AST expression to an IR token value for downstream consumption.
    pub fn expr_to_token_value(expr: &Expression) -> (r: IrTokenValue)
        ensures
            tv_view(r) == tv_of(expr_view(*expr)),
        decreases expr,
    {
        match expr {
            Expression::Integer(n) => IrTokenValue::Number(crate::number::Decimal::from_int(*n)),
            Expression::Float(d) => IrTokenValue::Number(*d),
            Expression::Color(c) => {
                let mut s = String::new();
                push_str(&mut s, "#");
                push_str(&mut s, c.as_str());
                IrTokenValue::Color(s)
            },
            Expression::String(s) => IrTokenValue::String(copy_string(s)),
            Expression::Bool(b) => IrTokenValue::Bool(*b),
            Expression::Ident(s) => IrTokenValue::String(copy_string(s)),
            Expression::Array(items) => IrTokenValue::Array(Self::token_values(items)),
            Expression::Object(pairs) => IrTokenValue::Object(Self::token_pairs(pairs)),
            Expression::FunctionCall { name, args } => {
                let mut s = copy_string(name);
                push_str(&mut s, "(");
                let mut i: usize = 0;
                proof {
                    lemma_exprs_view_len(args@);
                }
                let ghost start = s@;
                while i < args.len()
                    invariant
                        i <= args.len(),
                        s@ == start + dots(i as nat),
                    decreases args.len() - i,
                {
                    if i > 0 {
                        push_str(&mut s, ", ");
                    }
                    push_str(&mut s, "...");
                    proof {
                        reveal_strlit("...");
                        reveal_strlit(", ...");
                        reveal_strlit(", ");
                        assert(s@ =~= start + dots((i + 1) as nat));
                    }
                    i = i + 1;
                }
                push_str(&mut s, ")");
                IrTokenValue::String(s)
            },
        }
    }

    fn token_values(items: &Vec<Expression>) -> (r: Vec<IrTokenValue>)
        ensures
            tvs_view(r@) == tv_list(exprs_view(items@)),
        decreases items,
    {
        proof {
            lemma_exprs_view_len(items@);
        }
        let mut out: Vec<IrTokenValue> = Vec::new();
        let mut i: usize = 0;
        while i < items.len()
            invariant
                i <= items.len(),
                exprs_view(items@).len() == items.len(),
                forall|k: int| 0 <= k < items.len() ==> #[trigger] exprs_view(items@)[k] == expr_view(items@[k]),
                tvs_view(out@) == tv_list(exprs_view(items@).subrange(0, i as int)),
            decreases items.len() - i,
        {
            proof {
                assert(decreases_to!(items => items@));
                assert(decreases_to!(items@ => items@[i as int]));
            }
            let v = Self::expr_to_token_value(&items[i]);
            let ghost before = out@;
            out.push(v);
            proof {
                assert(out@.drop_last() =~= before);
                assert(exprs_view(items@).subrange(0, i + 1).drop_last() =~= exprs_view(items@).subrange(0, i as int));
            }
            i = i + 1;
        }
        proof {
            assert(exprs_view(items@).subrange(0, items.len() as int) =~= exprs_view(items@));
        }
        out
    }

    fn token_pairs(pairs: &Vec<(String, Expression)>) -> (r: Vec<(String, IrTokenValue)>)
        ensures
            tv_pairs_view(r@) == tv_pairs(pairs_view(pairs@)),
        decreases pairs,
    {
        proof {
            lemma_pairs_view_len(pairs@);
        }
        let mut out: Vec<(String, IrTokenValue)> = Vec::new();
        let mut i: usize = 0;
        while i < pairs.len()
            invariant
                i <= pairs.len(),
                pairs_view(pairs@).len() == pairs.len(),
                forall|k: int| 0 <= k < pairs.len() ==> #[trigger] pairs_view(pairs@)[k] == (pairs@[k].0@, expr_view(pairs@[k].1)),
                tv_pairs_view(out@) == tv_pairs(pairs_view(pairs@).subrange(0, i as int)),
            decreases pairs.len() - i,
        {
            proof {
                assert(decreases_to!(pairs => pairs@));
                assert(decreases_to!(pairs@ => pairs@[i as int]));
                assert(decreases_to!(pairs@[i as int] => pairs@[i as int].1));
            }
            let v = Self::expr_to_token_value(&pairs[i].1);
            let k = copy_string(&pairs[i].0);
            let ghost before = out@;
            out.push((k, v));
            proof {
                assert(out@.drop_last() =~= before);
                assert(pairs_view(pairs@).subrange(0, i + 1).drop_last() =~= pairs_view(pairs@).subrange(0, i as int));
            }
            i = i + 1;
        }
        proof {
            assert(pairs_view(pairs@).subrange(0, pairs.len() as int) =~= pairs_view(pairs@));
        }
        out
    }

    /// The canvas of a program.
    pub fn resolve_canvas(&self, canvas: &Option<CanvasDecl>, vars: &VariableResolver) -> (r: Result<IrCanvas, PastelError>)
        ensures
            match r {
                Ok(c) => canvas_ir_spec(
                    vars.bindings(),
                    match canvas {
                        Some(c) => Some(canvas_view(*c)),
                        None => None,
                    },
                ) == Ok::<CanvasIrV, ErrorView>(canvas_ir_view(c)),
                Err(e) => canvas_ir_spec(
                    vars.bindings(),
                    match canvas {
                        Some(c) => Some(canvas_view(*c)),
                        None => None,
                    },
                ) == Err::<CanvasIrV, ErrorView>(e@),
            },
    {
        let p = PropertyResolver::new(vars);
        match canvas {
            Some(c) => {
                let mut out = IrCanvas { name: copy_string(&c.name), width: 1440, height: 900, background: None };
                let ghost b = vars.bindings();
                let ghost av = attrs_view(c.attrs@);
                let ghost init = canvas_ir_view(out);
                let mut i: usize = 0;
                while i < c.attrs.len()
                    invariant
                        i <= c.attrs.len(),
                        b == vars.bindings(),
                        b == p.bindings(),
                        av == attrs_view(c.attrs@),
                        init == (CanvasIrV { name: c.name@, width: 1440, height: 900, background: None }),
                        *canvas == Some(*c),
                        canvas_fold(b, av, i as nat, init) == Ok::<CanvasIrV, ErrorView>(canvas_ir_view(out)),
                    decreases c.attrs.len() - i,
                {
                    let attr = &c.attrs[i];
                    let k = attr.key.as_str();
                    if str_eq(k, "width") {
                        match p.resolve_u32(&attr.value) {
                            Ok(w) => out.width = w,
                            Err(e) => {
                                proof {
                                    lemma_canvas_fold_err(b, av, (i + 1) as nat, av.len(), init);
                                }
                                return Err(e.with_span(attr.span));
                            },
                        }
                    } else if str_eq(k, "height") {
                        match p.resolve_u32(&attr.value) {
                            Ok(h) => out.height = h,
                            Err(e) => {
                                proof {
                                    lemma_canvas_fold_err(b, av, (i + 1) as nat, av.len(), init);
                                }
                                return Err(e.with_span(attr.span));
                            },
                        }
                    } else if str_eq(k, "background") {
                        match p.resolve_color(&attr.value) {
                            Ok(x) => out.background = Some(x),
                            Err(e) => {
                                proof {
                                    lemma_canvas_fold_err(b, av, (i + 1) as nat, av.len(), init);
                                }
                                return Err(e.with_span(attr.span));
                            },
                        }
                    }
                    i = i + 1;
                }
                Ok(out)
            },
            None => Ok(IrCanvas { name: owned("untitled"), width: 1440, height: 900, background: None }),
        }
    }
}

/// Binds each `let` as a variable, in order.
fn register_lets(vars: &mut VariableResolver, lets: &Vec<LetDecl>)
    ensures
        final(vars).bindings() == old(vars).bindings() + lets@.map_values(|l: LetDecl| let_view(l)).map_values(
            |l: LetV| (l.name, l.value),
        ),
{
    let ghost b0 = vars.bindings();
    let ghost lv = lets@.map_values(|l: LetDecl| let_view(l)).map_values(|l: LetV| (l.name, l.value));
    let mut i: usize = 0;
    proof {
        assert(b0 + lv.subrange(0, 0) =~= b0);
    }
    while i < lets.len()
        invariant
            i <= lets.len(),
            b0 == old(vars).bindings(),
            lv == lets@.map_values(|l: LetDecl| let_view(l)).map_values(|l: LetV| (l.name, l.value)),
            vars.bindings() == b0 + lv.subrange(0, i as int),
        decreases lets.len() - i,
    {
        vars.register(copy_string(&lets[i].name), lets[i].value.duplicate());
        proof {
            assert(b0 + lv.subrange(0, i + 1) =~= (b0 + lv.subrange(0, i as int)).push(lv[i as int]));
        }
        i = i + 1;
    }
    proof {
        assert(lv.subrange(0, lets.len() as int) =~= lv);
    }
}

/// Binds each token as the variable `block.key`, and gives the token groups.
fn register_tokens(vars: &mut VariableResolver, blocks: &Vec<TokenBlock>) -> (groups: Vec<IrTokenGroup>)
    ensures
        final(vars).bindings() == old(vars).bindings() + token_bindings(blocks@.map_values(|b: TokenBlock| block_view(b))),
        groups@.map_values(|g: IrTokenGroup| group_view(g)) == blocks@.map_values(|b: TokenBlock| block_view(b)).map_values(
            |blk: TokenBlockV| group_of(blk),
        ),
{
    let ghost b0 = vars.bindings();
    let ghost bv = blocks@.map_values(|b: TokenBlock| block_view(b));
    let mut groups: Vec<IrTokenGroup> = Vec::new();
    let mut i: usize = 0;
    proof {
        assert(bv.subrange(0, 0) =~= Seq::<TokenBlockV>::empty());
        assert(b0 + token_bindings(bv.subrange(0, 0)) =~= b0);
    }
    while i < blocks.len()
        invariant
            i <= blocks.len(),
            b0 == old(vars).bindings(),
            bv == blocks@.map_values(|b: TokenBlock| block_view(b)),
            vars.bindings() == b0 + token_bindings(bv.subrange(0, i as int)),
            groups.len() == i,
            forall|k: int| 0 <= k < i ==> #[trigger] group_view(groups@[k]) == group_of(bv[k]),
        decreases blocks.len() - i,
    {
        let block = &blocks[i];
        let ghost blk = bv[i as int];
        let ghost start = vars.bindings();
        let mut entries: Vec<IrTokenEntry> = Vec::new();
        let mut j: usize = 0;
        proof {
            assert(start + block_bindings(blk).subrange(0, 0) =~= start);
        }
        while j < block.entries.len()
            invariant
                j <= block.entries.len(),
                blk == block_view(*block),
                vars.bindings() == start + block_bindings(blk).subrange(0, j as int),
                entries.len() == j,
                forall|k: int| 0 <= k < j ==> #[trigger] entries@[k].key@ == blk.entries[k].key
                    && tv_view(entries@[k].value) == tv_of(blk.entries[k].value),
            decreases block.entries.len() - j,
        {
            let entry = &block.entries[j];
            let mut flat = copy_string(&block.name);
            push_str(&mut flat, ".");
            push_str(&mut flat, entry.key.as_str());
            vars.register(flat, entry.value.duplicate());
            entries.push(IrTokenEntry { key: copy_string(&entry.key), value: SemanticAnalyzer::expr_to_token_value(&entry.value) });
            proof {
                assert(start + block_bindings(blk).subrange(0, j + 1) =~= (start + block_bindings(blk).subrange(0, j as int)).push(
                    block_bindings(blk)[j as int],
                ));
            }
            j = j + 1;
        }
        let g = IrTokenGroup { name: copy_string(&block.name), entries };
        proof {
            assert(block_bindings(blk).subrange(0, block.entries.len() as int) =~= block_bindings(blk));
            assert(bv.subrange(0, i + 1).drop_last() =~= bv.subrange(0, i as int));
            assert(b0 + token_bindings(bv.subrange(0, i + 1)) =~= b0 + token_bindings(bv.subrange(0, i as int)) + block_bindings(blk));
            assert(group_view(g).entries =~= group_of(blk).entries);
        }
        groups.push(g);
        i = i + 1;
    }
    proof {
        assert(bv.subrange(0, blocks.len() as int) =~= bv);
        assert(groups@.map_values(|g: IrTokenGroup| group_view(g)) =~= bv.map_values(|blk: TokenBlockV| group_of(blk)));
    }
    groups
}

/// The index of the asset with the given id.
fn find_asset(assets: &Vec<IrAsset>, id: &str) -> (r: Option<usize>)
    ensures
        match r {
            Some(i) => i < assets.len() && asset_index(assets@.map_values(|a: IrAsset| asset_ir_view(a)), id@) == i,
            None => asset_index(assets@.map_values(|a: IrAsset| asset_ir_view(a)), id@) < 0,
        },
{
    let ghost m = assets@.map_values(|a: IrAsset| asset_ir_view(a));
    let mut i: usize = 0;
    while i < assets.len()
        invariant
            i <= assets.len(),
            m == assets@.map_values(|a: IrAsset| asset_ir_view(a)),
            asset_index(m.subrange(0, i as int), id@) < 0,
        decreases assets.len() - i,
    {
        proof {
            assert(m.subrange(0, i + 1).drop_last() =~= m.subrange(0, i as int));
        }
        if str_eq(assets[i].id.as_str(), id) {
            proof {
                lemma_asset_index_prefix(m, (i + 1) as nat, id@);
            }
            return Some(i);
        }
        i = i + 1;
    }
    proof {
        assert(m.subrange(0, assets.len() as int) =~= m);
    }
    None
}

pub proof fn lemma_asset_index_prefix(m: Seq<AssetIrV>, n: nat, id: Seq<char>)
    requires
        n <= m.len(),
        asset_index(m.subrange(0, n as int), id) >= 0,
    ensures
        asset_index(m, id) == asset_index(m.subrange(0, n as int), id),
    decreases m.len() - n,
{
    if n < m.len() {
        assert(m.subrange(0, (n + 1) as int).drop_last() =~= m.subrange(0, n as int));
        lemma_asset_index_prefix(m, (n + 1) as nat, id);
    } else {
        assert(m.subrange(0, n as int) =~= m);
    }
}

pub proof fn lemma_asset_index_bounds(m: Seq<AssetIrV>, id: Seq<char>)
    ensures
        -1 <= asset_index(m, id) < m.len(),
    decreases m.len(),
{
    if m.len() > 0 {
        lemma_asset_index_bounds(m.drop_last(), id);
    }
}

/// The assets of the declarations: one per name, with the last declaration
/// of the name, in the order the names first appear.
fn collect_assets(decls: &Vec<AssetDecl>) -> (r: Vec<IrAsset>)
    ensures
        r@.map_values(|a: IrAsset| asset_ir_view(a)) == assets_fold(
            decls@.map_values(|a: AssetDecl| asset_view(a)),
            decls.len() as nat,
        ),
{
    let ghost dv = decls@.map_values(|a: AssetDecl| asset_view(a));
    let mut out: Vec<IrAsset> = Vec::new();
    let mut i: usize = 0;
    proof {
        assert(out@.map_values(|a: IrAsset| asset_ir_view(a)) =~= Seq::<AssetIrV>::empty());
    }
    while i < decls.len()
        invariant
            i <= decls.len(),
            dv == decls@.map_values(|a: AssetDecl| asset_view(a)),
            out@.map_values(|a: IrAsset| asset_ir_view(a)) == assets_fold(dv, i as nat),
        decreases decls.len() - i,
    {
        let d = &decls[i];
        let x = IrAsset { id: copy_string(&d.name), kind: copy_string(&d.kind), path: copy_string(&d.path) };
        let ghost before = out@;
        proof {
            lemma_asset_index_bounds(before.map_values(|a: IrAsset| asset_ir_view(a)), d.name@);
        }
        match find_asset(&out, d.name.as_str()) {
            Some(k) => {
                out.set(k, x);
                proof {
                    assert(out@.map_values(|a: IrAsset| asset_ir_view(a)) =~= before.map_values(
                        |a: IrAsset| asset_ir_view(a),
                    ).update(k as int, asset_ir_view(x)));
                }
            },
            None => {
                out.push(x);
                proof {
                    assert(out@.map_values(|a: IrAsset| asset_ir_view(a)) =~= before.map_values(
                        |a: IrAsset| asset_ir_view(a),
                    ).push(asset_ir_view(x)));
                }
            },
        }
        i = i + 1;
    }
    out
}

/// Copies of the components.
fn copy_components(comps: &Vec<ComponentDecl>) -> (r: Vec<ComponentDecl>)
    ensures
        r@.map_values(|c: ComponentDecl| component_view(c)) == comps@.map_values(|c: ComponentDecl| component_view(c)),
{
    let mut out: Vec<ComponentDecl> = Vec::new();
    let mut i: usize = 0;
    while i < comps.len()
        invariant
            i <= comps.len(),
            out.len() == i,
            forall|k: int| 0 <= k < i ==> #[trigger] component_view(out@[k]) == component_view(comps@[k]),
        decreases comps.len() - i,
    {
        out.push(copy_component(&comps[i]));
        i = i + 1;
    }
    proof {
        assert(out@.map_values(|c: ComponentDecl| component_view(c)) =~= comps@.map_values(
            |c: ComponentDecl| component_view(c),
        ));
    }
    out
}

/// Nodes built in order.
fn build_nodes(builder: &mut IrBuilder, nodes: &Vec<NodeDecl>) -> (r: Result<Vec<IrNode>, PastelError>)
    ensures
        final(builder).comps() == old(builder).comps(),
        match r {
            Ok(ns) => build_list(old(builder).comps(), old(builder).state(), nodes_view(nodes@), old(builder).comps().len())
                == Ok::<(Seq<NodeIrV>, BState), ErrorView>((ir_nodes_view(ns@), final(builder).state())),
            Err(e) => build_list(old(builder).comps(), old(builder).state(), nodes_view(nodes@), old(builder).comps().len())
                == Err::<(Seq<NodeIrV>, BState), ErrorView>(e@),
        },
{
    proof {
        lemma_nodes_view_len(nodes@);
    }
    let ghost comps = builder.comps();
    let ghost st0 = builder.state();
    let ghost nv = nodes_view(nodes@);
    let mut out: Vec<IrNode> = Vec::new();
    let mut i: usize = 0;
    while i < nodes.len()
        invariant
            i <= nodes.len(),
            comps == builder.comps(),
            comps == old(builder).comps(),
            st0 == old(builder).state(),
            nv == nodes_view(nodes@),
            nv.len() == nodes.len(),
            forall|k: int| 0 <= k < nodes.len() ==> #[trigger] nv[k] == node_view(nodes@[k]),
            build_list(comps, st0, nv.subrange(0, i as int), comps.len()) == Ok::<(Seq<NodeIrV>, BState), ErrorView>(
                (ir_nodes_view(out@), builder.state()),
            ),
        decreases nodes.len() - i,
    {
        proof {
            assert(nv.subrange(0, i + 1).drop_last() =~= nv.subrange(0, i as int));
        }
        let n = match builder.build_node(&nodes[i]) {
            Ok(n) => n,
            Err(e) => {
                proof {
                    super::builder::lemma_build_list_err(comps, st0, nv, (i + 1) as nat, comps.len());
                }
                return Err(e);
            },
        };
        let ghost before = out@;
        out.push(n);
        proof {
            assert(out@.drop_last() =~= before);
        }
        i = i + 1;
    }
    proof {
        assert(nv.subrange(0, nodes.len() as int) =~= nv);
    }
    Ok(out)
}

/// Pages built in order.
fn build_pages(builder: &mut IrBuilder, pages: &Vec<PageDecl>) -> (r: Result<Vec<IrPage>, PastelError>)
    ensures
        final(builder).comps() == old(builder).comps(),
        match r {
            Ok(ps) => pages_spec(old(builder).comps(), old(builder).state(), pages@.map_values(|p: PageDecl| page_view(p)), old(builder).comps().len())
                == Ok::<(Seq<PageIrV>, BState), ErrorView>((ps@.map_values(|p: IrPage| page_ir_view(p)), final(builder).state())),
            Err(e) => pages_spec(old(builder).comps(), old(builder).state(), pages@.map_values(|p: PageDecl| page_view(p)), old(builder).comps().len())
                == Err::<(Seq<PageIrV>, BState), ErrorView>(e@),
        },
{
    let ghost comps = builder.comps();
    let ghost st0 = builder.state();
    let ghost pv = pages@.map_values(|p: PageDecl| page_view(p));
    let mut out: Vec<IrPage> = Vec::new();
    let mut i: usize = 0;
    proof {
        assert(pv.subrange(0, 0) =~= Seq::<PageV>::empty());
        assert(out@.map_values(|p: IrPage| page_ir_view(p)) =~= Seq::<PageIrV>::empty());
    }
    while i < pages.len()
        invariant
            i <= pages.len(),
            comps == builder.comps(),
            comps == old(builder).comps(),
            st0 == old(builder).state(),
            pv == pages@.map_values(|p: PageDecl| page_view(p)),
            pages_spec(comps, st0, pv.subrange(0, i as int), comps.len()) == Ok::<(Seq<PageIrV>, BState), ErrorView>(
                (out@.map_values(|p: IrPage| page_ir_view(p)), builder.state()),
            ),
        decreases pages.len() - i,
    {
        proof {
            assert(pv.subrange(0, i + 1).drop_last() =~= pv.subrange(0, i as int));
        }
        let nodes = match build_nodes(builder, &pages[i].nodes) {
            Ok(ns) => ns,
            Err(e) => {
                proof {
                    lemma_pages_err(comps, st0, pv, (i + 1) as nat, comps.len());
                }
                return Err(e);
            },
        };
        let p = IrPage { name: copy_string(&pages[i].name), nodes };
        let ghost before = out@;
        out.push(p);
        proof {
            assert(out@.map_values(|p: IrPage| page_ir_view(p)) =~= before.map_values(|p: IrPage| page_ir_view(p)).push(
                page_ir_view(p),
            ));
        }
        i = i + 1;
    }
    proof {
        assert(pv.subrange(0, pages.len() as int) =~= pv);
    }
    Ok(out)
}

pub proof fn lemma_pages_err(comps: Seq<ComponentV>, st: BState, s: Seq<PageV>, k: nat, budget: nat)
    requires
        k <= s.len(),
        pages_spec(comps, st, s.subrange(0, k as int), budget) is Err,
    ensures
        pages_spec(comps, st, s, budget) == pages_spec(comps, st, s.subrange(0, k as int), budget),
    decreases s.len() - k,
{
    if k < s.len() {
        assert(s.subrange(0, (k + 1) as int).drop_last() =~= s.subrange(0, k as int));
        lemma_pages_err(comps, st, s, (k + 1) as nat, budget);
    } else {
        assert(s.subrange(0, k as int) =~= s);
    }
}

impl SemanticAnalyzer {
    /// The design document of a program whose includes are already merged
    /// into it.
    pub fn analyze(&self, program: &Program) -> (r: Result<IrDocument, PastelError>)
        ensures
            match r {
                Ok(d) => analyze_spec(program_view(*program)) == Ok::<DocV, ErrorView>(doc_view(d)),
                Err(e) => analyze_spec(program_view(*program)) == Err::<DocV, ErrorView>(e@),
            },
    {
        let ghost pv = program_view(*program);
        // Register variables, then tokens as flattened variables (e.g. "colors.primary")
        let mut vars = VariableResolver::new();
        register_lets(&mut vars, &program.variables);
        let tokens = register_tokens(&mut vars, &program.token_blocks);
        proof {
            assert(vars.bindings() =~= program_bindings(pv));
        }
        let assets = collect_assets(&program.assets);
        let canvas = match self.resolve_canvas(&program.canvas, &vars) {
            Ok(c) => c,
            Err(e) => {
                return Err(e);
            },
        };
        let builder_assets = collect_assets(&program.assets);
        let mut builder = IrBuilder::new(vars, builder_assets, copy_components(&program.components));
        let nodes = match build_nodes(&mut builder, &program.nodes) {
            Ok(ns) => ns,
            Err(e) => {
                return Err(e);
            },
        };
        let pages = match build_pages(&mut builder, &program.pages) {
            Ok(ps) => ps,
            Err(e) => {
                return Err(e);
            },
        };
        let d = IrDocument { version: 1, canvas, assets, tokens, nodes, pages };
        proof {
            assert(doc_view(d).tokens =~= pv.token_blocks.map_values(|blk: TokenBlockV| group_of(blk)));
        }
        Ok(d)
    }
}

pub proof fn lemma_canvas_fold_err(b: Seq<(Seq<char>, Expr)>, attrs: Seq<AttrV>, k: nat, m: nat, init: CanvasIrV)
    requires
        k <= m,
        canvas_fold(b, attrs, k, init) is Err,
    ensures
        canvas_fold(b, attrs, m, init) == canvas_fold(b, attrs, k, init),
    decreases m,
{
    if m > k {
        lemma_canvas_fold_err(b, attrs, k, (m - 1) as nat, init);
    }
}

} // verus!
