use vstd::prelude::*;

use crate::ast::{
    attr_view, attrs_view, expr_view, node_view, nodes_view, opt_view, pairs_view, AttrV,
    Attribute, ComponentParam, Expr, Expression, NodeDecl, NodeV, ParamV,
};
use crate::expr::{lemma_pairs_view_len};
use crate::text::{copy_string, starts_with, str_eq};
use super::vars::{resolved, VariableResolver};

verus! {

// ---------------------------------------------------------------------------
// Component parameters and the rewriting of a component's body
// ---------------------------------------------------------------------------

/// The index of the entry with key `k`, or -1.
pub open spec fn key_index(m: Seq<(Seq<char>, Expr)>, k: Seq<char>) -> int
    decreases m.len(),
{
    if m.len() == 0 {
        -1
    } else {
        let i = key_index(m.drop_last(), k);
        if i >= 0 {
            i
        } else if m.last().0 == k {
            m.len() - 1
        } else {
            -1
        }
    }
}

/// The value of key `k`.
pub open spec fn map_get(m: Seq<(Seq<char>, Expr)>, k: Seq<char>) -> Option<Expr> {
    let i = key_index(m, k);
    if 0 <= i < m.len() { Some(m[i].1) } else { None }
}

/// `k` set to `v`: in place when the key is there, at the end otherwise.
pub open spec fn map_insert(m: Seq<(Seq<char>, Expr)>, k: Seq<char>, v: Expr) -> Seq<(Seq<char>, Expr)> {
    let i = key_index(m, k);
    if 0 <= i < m.len() { m.update(i, (k, v)) } else { m.push((k, v)) }
}

/// The prefix of the keys that positional arguments get.
pub open spec fn positional_prefix() -> Seq<char> {
    "__arg_"@
}

/// The values of the first `n` arguments of a `use`, with the number of
/// positional ones among them: a positional argument binds the parameter of
/// its position (one past the last parameter binds nothing), a named one
/// binds its name.
pub open spec fn param_fold(params: Seq<ParamV>, attrs: Seq<AttrV>, n: nat) -> (Seq<(Seq<char>, Expr)>, nat)
    decreases n,
{
    if n == 0 {
        (Seq::empty(), 0)
    } else {
        let (m, idx) = param_fold(params, attrs, (n - 1) as nat);
        let a = attrs[n - 1];
        if positional_prefix().is_prefix_of(a.key) {
            if idx < params.len() {
                (map_insert(m, params[idx as int].name, a.value), idx + 1)
            } else {
                (m, idx + 1)
            }
        } else {
            (map_insert(m, a.key, a.value), idx)
        }
    }
}

/// The defaults of the first `n` parameters added where no argument gave a
/// value.
pub open spec fn with_defaults(params: Seq<ParamV>, m: Seq<(Seq<char>, Expr)>, n: nat) -> Seq<(Seq<char>, Expr)>
    decreases n,
{
    if n == 0 {
        m
    } else {
        let m1 = with_defaults(params, m, (n - 1) as nat);
        let p = params[n - 1];
        if key_index(m1, p.name) < 0 && p.default is Some {
            map_insert(m1, p.name, p.default->0)
        } else {
            m1
        }
    }
}

/// The values of a component's parameters at a `use`.
pub open spec fn param_values_spec(params: Seq<ParamV>, attrs: Seq<AttrV>) -> Seq<(Seq<char>, Expr)> {
    with_defaults(params, param_fold(params, attrs, attrs.len()).0, params.len())
}

/// An attribute whose value names a parameter gets the parameter's value.
pub open spec fn rewrite_attr(a: AttrV, pv: Seq<(Seq<char>, Expr)>) -> AttrV {
    match a.value {
        Expr::Ident(x) => match map_get(pv, x) {
            Some(v) => AttrV { value: v, ..a },
            None => a,
        },
        _ => a,
    }
}

/// A label that names a parameter whose value is a string becomes that
/// string.
pub open spec fn rewrite_label(b: Seq<(Seq<char>, Expr)>, label: Option<Seq<char>>, pv: Seq<(Seq<char>, Expr)>) -> Option<Seq<char>> {
    match label {
        Some(l) => match map_get(pv, l) {
            Some(v) => match resolved(b, v) {
                Expr::Str(s) => Some(s),
                _ => label,
            },
            None => label,
        },
        None => None,
    }
}

/// A node of a component's body with its parameters substituted: in its
/// label, in its name when it has no label (the name then becomes the label),
/// in attribute values, and in its children.
pub open spec fn rewrite_spec(b: Seq<(Seq<char>, Expr)>, n: NodeV, pv: Seq<(Seq<char>, Expr)>) -> NodeV
    decreases n, 1int,
{
    let label1 = rewrite_label(b, n.label, pv);
    let name_value: Option<Seq<char>> = if n.label is None && n.name is Some {
        match map_get(pv, n.name->0) {
            Some(v) => match resolved(b, v) {
                Expr::Str(s) => Some(s),
                _ => None,
            },
            None => None,
        }
    } else {
        None
    };
    let label2 = if name_value is Some { name_value } else { label1 };
    let name2 = if name_value is Some { None } else { n.name };
    NodeV {
        kind: n.kind,
        name: name2,
        label: label2,
        attrs: n.attrs.map_values(|a: AttrV| rewrite_attr(a, pv)),
        children: rewrite_list(b, n.children, pv),
        span: n.span,
    }
}

pub open spec fn rewrite_list(b: Seq<(Seq<char>, Expr)>, s: Seq<NodeV>, pv: Seq<(Seq<char>, Expr)>) -> Seq<NodeV>
    decreases s, 0int,
{
    if s.len() == 0 {
        Seq::empty()
    } else {
        proof {
            assert(decreases_to!(s => s[s.len() - 1]));
        }
        rewrite_list(b, s.drop_last(), pv).push(rewrite_spec(b, s.last(), pv))
    }
}

/// The index of the entry with key `k`.
pub fn find_key(m: &Vec<(String, Expression)>, k: &str) -> (r: Option<usize>)
    ensures
        match r {
            Some(i) => i < m.len() && key_index(pairs_view(m@), k@) == i,
            None => key_index(pairs_view(m@), k@) < 0,
        },
{
    let mut i: usize = 0;
    proof {
        lemma_pairs_view_len(m@);
    }
    while i < m.len()
        invariant
            i <= m.len(),
            pairs_view(m@).len() == m.len(),
            forall|j: int| 0 <= j < m.len() ==> #[trigger] pairs_view(m@)[j] == (m@[j].0@, expr_view(m@[j].1)),
            key_index(pairs_view(m@).subrange(0, i as int), k@) < 0,
        decreases m.len() - i,
    {
        let ghost sub = pairs_view(m@).subrange(0, i + 1);
        proof {
            assert(sub.drop_last() =~= pairs_view(m@).subrange(0, i as int));
        }
        if str_eq(m[i].0.as_str(), k) {
            proof {
                lemma_key_index_prefix(pairs_view(m@), (i + 1) as nat, k@);
            }
            return Some(i);
        }
        i = i + 1;
    }
    proof {
        assert(pairs_view(m@).subrange(0, m.len() as int) =~= pairs_view(m@));
    }
    None
}

/// A key found in a prefix keeps its index in the whole sequence.
pub proof fn lemma_key_index_prefix(m: Seq<(Seq<char>, Expr)>, n: nat, k: Seq<char>)
    requires
        n <= m.len(),
        key_index(m.subrange(0, n as int), k) >= 0,
    ensures
        key_index(m, k) == key_index(m.subrange(0, n as int), k),
    decreases m.len() - n,
{
    if n < m.len() {
        let sub = m.subrange(0, (n + 1) as int);
        assert(sub.drop_last() =~= m.subrange(0, n as int));
        lemma_key_index_prefix(m, (n + 1) as nat, k);
    } else {
        assert(m.subrange(0, n as int) =~= m);
    }
}

pub proof fn lemma_key_index_bounds(m: Seq<(Seq<char>, Expr)>, k: Seq<char>)
    ensures
        -1 <= key_index(m, k) < m.len(),
        key_index(m, k) >= 0 ==> m[key_index(m, k)].0 == k,
    decreases m.len(),
{
    if m.len() > 0 {
        lemma_key_index_bounds(m.drop_last(), k);
    }
}

/// Sets `k` to `v`.
pub fn insert_param(m: &mut Vec<(String, Expression)>, k: String, v: Expression)
    ensures
        pairs_view(final(m)@) == map_insert(pairs_view(old(m)@), k@, expr_view(v)),
{
    proof {
        lemma_pairs_view_len(m@);
        lemma_key_index_bounds(pairs_view(m@), k@);
    }
    match find_key(m, k.as_str()) {
        Some(i) => {
            let ghost kv = k@;
            let ghost before = m@;
            m.set(i, (k, v));
            proof {
                lemma_pairs_view_len(m@);
                lemma_pairs_view_len(before);
                assert(pairs_view(m@) =~= pairs_view(before).update(i as int, (kv, expr_view(v))));
            }
        },
        None => {
            let ghost before = m@;
            m.push((k, v));
            proof {
                assert(m@.drop_last() =~= before);
            }
        },
    }
}

/// The values of a component's parameters at a `use` with the given
/// arguments.
pub fn param_values(params: &Vec<ComponentParam>, attrs: &Vec<Attribute>) -> (m: Vec<(String, Expression)>)
    ensures
        pairs_view(m@) == param_values_spec(
            params@.map_values(|p: ComponentParam| crate::ast::param_view(p)),
            attrs_view(attrs@),
        ),
{
    let ghost pv = params@.map_values(|p: ComponentParam| crate::ast::param_view(p));
    let ghost av = attrs_view(attrs@);
    let mut m: Vec<(String, Expression)> = Vec::new();
    let mut positional_idx: usize = 0;
    let mut i: usize = 0;
    proof {
        assert(pairs_view(m@) =~= Seq::<(Seq<char>, Expr)>::empty());
    }
    while i < attrs.len()
        invariant
            i <= attrs.len(),
            positional_idx <= i,
            pv == params@.map_values(|p: ComponentParam| crate::ast::param_view(p)),
            av == attrs_view(attrs@),
            param_fold(pv, av, i as nat) == (pairs_view(m@), positional_idx as nat),
        decreases attrs.len() - i,
    {
        let a = &attrs[i];
        if starts_with(a.key.as_str(), "__arg_") {
            if positional_idx < params.len() {
                insert_param(&mut m, copy_string(&params[positional_idx].name), a.value.duplicate());
            }
            positional_idx = positional_idx + 1;
        } else {
            insert_param(&mut m, copy_string(&a.key), a.value.duplicate());
        }
        i = i + 1;
    }
    let ghost folded = pairs_view(m@);
    let mut j: usize = 0;
    while j < params.len()
        invariant
            j <= params.len(),
            pv == params@.map_values(|p: ComponentParam| crate::ast::param_view(p)),
            pairs_view(m@) == with_defaults(pv, folded, j as nat),
        decreases params.len() - j,
    {
        let p = &params[j];
        match &p.default {
            Some(d) => {
                if find_key(&m, p.name.as_str()).is_none() {
                    insert_param(&mut m, copy_string(&p.name), d.duplicate());
                }
            },
            None => {},
        }
        j = j + 1;
    }
    m
}

/// The value of key `k`.
pub fn get_param<'b>(m: &'b Vec<(String, Expression)>, k: &str) -> (r: Option<&'b Expression>)
    ensures
        match r {
            Some(v) => map_get(pairs_view(m@), k@) == Some(expr_view(*v)),
            None => map_get(pairs_view(m@), k@) is None,
        },
{
    proof {
        lemma_pairs_view_len(m@);
    }
    match find_key(m, k) {
        Some(i) => Some(&m[i].1),
        None => None,
    }
}

/// A copy of an attribute.
pub fn copy_attr(a: &Attribute) -> (r: Attribute)
    ensures
        attr_view(r) == attr_view(*a),
{
    Attribute { key: copy_string(&a.key), value: a.value.duplicate(), span: a.span }
}

/// An attribute with a parameter's value in place of the parameter's name.
fn rewrite_attribute(a: &Attribute, params: &Vec<(String, Expression)>) -> (r: Attribute)
    ensures
        attr_view(r) == rewrite_attr(attr_view(*a), pairs_view(params@)),
{
    match &a.value {
        Expression::Ident(name) => match get_param(params, name.as_str()) {
            Some(v) => Attribute { key: copy_string(&a.key), value: v.duplicate(), span: a.span },
            None => copy_attr(a),
        },
        _ => copy_attr(a),
    }
}

/// A component body node with its parameters substituted.
pub fn rewrite_node(vars: &VariableResolver, node: &NodeDecl, params: &Vec<(String, Expression)>) -> (r: NodeDecl)
    ensures
        node_view(r) == rewrite_spec(vars.bindings(), node_view(*node), pairs_view(params@)),
    decreases node, 1int,
{
    let ghost b = vars.bindings();
    let ghost pv = pairs_view(params@);
    let mut label: Option<String> = match &node.label {
        Some(l) => Some(copy_string(l)),
        None => None,
    };
    let mut name: Option<String> = match &node.name {
        Some(n) => Some(copy_string(n)),
        None => None,
    };
    // Substitute label if it's a param reference
    match &node.label {
        Some(l) => match get_param(params, l.as_str()) {
            Some(v) => {
                let rv = vars.resolve(v);
                match rv {
                    Expression::String(s) => {
                        label = Some(s);
                    },
                    _ => {},
                }
            },
            None => {},
        },
        None => {},
    }
    // A name that is a param reference, on a node without label, becomes the label
    if node.label.is_none() {
        match &node.name {
            Some(n) => match get_param(params, n.as_str()) {
                Some(v) => {
                    let rv = vars.resolve(v);
                    match rv {
                        Expression::String(s) => {
                            label = Some(s);
                            name = None;
                        },
                        _ => {},
                    }
                },
                None => {},
            },
            None => {},
        }
    }
    let mut attrs: Vec<Attribute> = Vec::new();
    let mut i: usize = 0;
    while i < node.attrs.len()
        invariant
            i <= node.attrs.len(),
            pv == pairs_view(params@),
            attrs.len() == i,
            forall|k: int| 0 <= k < i ==> #[trigger] attr_view(attrs@[k]) == rewrite_attr(attr_view(node.attrs@[k]), pv),
        decreases node.attrs.len() - i,
    {
        let a = rewrite_attribute(&node.attrs[i], params);
        attrs.push(a);
        i = i + 1;
    }
    proof {
        assert(attrs_view(attrs@) =~= attrs_view(node.attrs@).map_values(|a: AttrV| rewrite_attr(a, pv)));
    }
    let mut children: Vec<NodeDecl> = Vec::new();
    let mut j: usize = 0;
    proof {
        crate::semantic::expand::lemma_nodes_view_len(node.children@);
    }
    while j < node.children.len()
        invariant
            j <= node.children.len(),
            b == vars.bindings(),
            pv == pairs_view(params@),
            nodes_view(node.children@).len() == node.children.len(),
            forall|k: int| 0 <= k < node.children.len() ==> #[trigger] nodes_view(node.children@)[k] == node_view(node.children@[k]),
            nodes_view(children@) == rewrite_list(b, nodes_view(node.children@).subrange(0, j as int), pv),
        decreases node.children.len() - j,
    {
        proof {
            assert(decreases_to!(node => node.children));
            assert(decreases_to!(node.children => node.children@));
            assert(decreases_to!(node.children@ => node.children@[j as int]));
        }
        let c = rewrite_node(vars, &node.children[j], params);
        let ghost before = children@;
        children.push(c);
        proof {
            let sub = nodes_view(node.children@).subrange(0, j + 1);
            assert(sub.drop_last() =~= nodes_view(node.children@).subrange(0, j as int));
            assert(children@.drop_last() =~= before);
        }
        j = j + 1;
    }
    proof {
        assert(nodes_view(node.children@).subrange(0, node.children.len() as int) =~= nodes_view(node.children@));
    }
    NodeDecl { kind: node.kind, name, label, attrs, children, span: node.span }
}

/// A copy of a node and its children.
pub fn copy_node(node: &NodeDecl) -> (r: NodeDecl)
    ensures
        node_view(r) == node_view(*node),
    decreases node,
{
    let name = match &node.name {
        Some(n) => Some(copy_string(n)),
        None => None,
    };
    let label = match &node.label {
        Some(l) => Some(copy_string(l)),
        None => None,
    };
    let mut attrs: Vec<Attribute> = Vec::new();
    let mut i: usize = 0;
    while i < node.attrs.len()
        invariant
            i <= node.attrs.len(),
            attrs.len() == i,
            forall|k: int| 0 <= k < i ==> #[trigger] attr_view(attrs@[k]) == attr_view(node.attrs@[k]),
        decreases node.attrs.len() - i,
    {
        attrs.push(copy_attr(&node.attrs[i]));
        i = i + 1;
    }
    proof {
        assert(attrs_view(attrs@) =~= attrs_view(node.attrs@));
    }
    let mut children: Vec<NodeDecl> = Vec::new();
    let mut j: usize = 0;
    proof {
        lemma_nodes_view_len(node.children@);
    }
    while j < node.children.len()
        invariant
            j <= node.children.len(),
            nodes_view(node.children@).len() == node.children.len(),
            forall|k: int| 0 <= k < node.children.len() ==> #[trigger] nodes_view(node.children@)[k] == node_view(node.children@[k]),
            nodes_view(children@) == nodes_view(node.children@).subrange(0, j as int),
        decreases node.children.len() - j,
    {
        proof {
            assert(decreases_to!(node => node.children));
            assert(decreases_to!(node.children => node.children@));
            assert(decreases_to!(node.children@ => node.children@[j as int]));
        }
        let c = copy_node(&node.children[j]);
        let ghost before = children@;
        children.push(c);
        proof {
            assert(children@.drop_last() =~= before);
            assert(nodes_view(node.children@).subrange(0, j + 1) =~= nodes_view(node.children@).subrange(0, j as int).push(
                node_view(c),
            ));
        }
        j = j + 1;
    }
    proof {
        assert(nodes_view(node.children@).subrange(0, node.children.len() as int) =~= nodes_view(node.children@));
    }
    NodeDecl { kind: node.kind, name, label, attrs, children, span: node.span }
}

/// A copy of a component.
pub fn copy_component(c: &crate::ast::ComponentDecl) -> (r: crate::ast::ComponentDecl)
    ensures
        crate::ast::component_view(r) == crate::ast::component_view(*c),
{
    let mut params: Vec<ComponentParam> = Vec::new();
    let mut i: usize = 0;
    while i < c.params.len()
        invariant
            i <= c.params.len(),
            params.len() == i,
            forall|k: int| 0 <= k < i ==> #[trigger] crate::ast::param_view(params@[k]) == crate::ast::param_view(c.params@[k]),
        decreases c.params.len() - i,
    {
        let p = &c.params[i];
        let default = match &p.default {
            Some(d) => Some(d.duplicate()),
            None => None,
        };
        params.push(ComponentParam { name: copy_string(&p.name), default });
        i = i + 1;
    }
    let r = crate::ast::ComponentDecl { name: copy_string(&c.name), params, body: copy_node(&c.body), span: c.span };
    proof {
        assert(r.params@.map_values(|p: ComponentParam| crate::ast::param_view(p)) =~= c.params@.map_values(
            |p: ComponentParam| crate::ast::param_view(p),
        ));
    }
    r
}

pub proof fn lemma_nodes_view_len(s: Seq<NodeDecl>)
    ensures
        nodes_view(s).len() == s.len(),
        forall|i: int| 0 <= i < s.len() ==> #[trigger] nodes_view(s)[i] == node_view(s[i]),
    decreases s.len(),
{
    if s.len() > 0 {
        lemma_nodes_view_len(s.drop_last());
    }
}

} // verus!
