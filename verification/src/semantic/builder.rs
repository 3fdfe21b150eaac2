use vstd::prelude::*;

use crate::ast::{
    attrs_view, component_view, node_view, nodes_view, opt_view, pairs_view, ComponentDecl,
    ComponentV, Expr, NodeDecl, NodeKind, NodeV,
};
use crate::error::{ErrorKind, ErrorView, PastelError};
use crate::ir::node::{IrNode, IrNodeData};
use crate::ir::view::{ir_node_view, ir_nodes_view, DataV, NodeIrV};
use crate::ir::IrAsset;
use crate::text::{copy_string, nat_digits, owned, push_nat, push_str, str_eq};
use super::expand::{lemma_nodes_view_len, param_values, param_values_spec, rewrite_node, rewrite_spec};
use super::frame::frame_spec;
use super::leaf::{image_spec, shape_spec, text_spec};
use super::resolve::{unknown, PropertyResolver};
use super::vars::VariableResolver;

verus! {

// ---------------------------------------------------------------------------
// The design tree of a program
// ---------------------------------------------------------------------------

/// What building nodes changes: the variable bindings (a component's
/// parameters stay bound after its use) and the counter of generated ids.
pub ghost struct BState {
    pub vars: Seq<(Seq<char>, Expr)>,
    pub counter: usize,
}

/// The next value of the id counter.
pub open spec fn next_id(c: usize) -> usize {
    if c == usize::MAX { 0 } else { (c + 1) as usize }
}

/// A fresh id: the prefix, `_`, and the next value of the counter.
pub open spec fn gen_spec(st: BState, prefix: Seq<char>) -> (Seq<char>, BState) {
    let c = next_id(st.counter);
    (prefix + "_"@ + nat_digits(c as nat), BState { counter: c, ..st })
}

pub open spec fn kind_prefix(k: NodeKind) -> Seq<char> {
    match k {
        NodeKind::Frame => "frame"@,
        NodeKind::Text => "text"@,
        NodeKind::Image => "image"@,
        NodeKind::Shape => "shape"@,
        NodeKind::Use => "use"@,
    }
}

/// The id of a node: its name, or one generated from its kind. An image
/// always gets a generated id, made from its name when it has one, so that
/// one asset can be shown several times.
pub open spec fn node_id(st: BState, n: NodeV) -> (Seq<char>, BState) {
    if n.kind == NodeKind::Image {
        gen_spec(
            st,
            match n.name {
                Some(x) => x,
                None => "image"@,
            },
        )
    } else {
        match n.name {
            Some(x) => (x, st),
            None => gen_spec(st, kind_prefix(n.kind)),
        }
    }
}

/// The component of a name: the last one declared with it.
pub open spec fn lookup_comp(comps: Seq<ComponentV>, name: Seq<char>) -> Option<ComponentV>
    decreases comps.len(),
{
    if comps.len() == 0 {
        None
    } else if comps.last().name == name {
        Some(comps.last())
    } else {
        lookup_comp(comps.drop_last(), name)
    }
}

/// The data of a node that is not a `use`.
#[verifier::opaque]
pub open spec fn data_spec(b: Seq<(Seq<char>, Expr)>, n: NodeV) -> Result<DataV, ErrorView> {
    match n.kind {
        NodeKind::Frame => match frame_spec(b, n.name, n.attrs) {
            Ok(f) => Ok(DataV::Frame(f)),
            Err(e) => Err(e),
        },
        NodeKind::Text => match text_spec(b, n.label, n.attrs) {
            Ok(t) => Ok(DataV::Text(t)),
            Err(e) => Err(e),
        },
        NodeKind::Image => match image_spec(b, n.name, n.attrs) {
            Ok(i) => Ok(DataV::Image(i)),
            Err(e) => Err(e),
        },
        NodeKind::Shape => match shape_spec(b, n.name, n.attrs) {
            Ok(s) => Ok(DataV::Shape(s)),
            Err(e) => Err(e),
        },
        NodeKind::Use => Err(
            ErrorView { kind: ErrorKind::InvalidValue, message: Seq::empty(), span: Some(n.span), hint: None },
        ),
    }
}

pub open spec fn undefined_component(name: Seq<char>, u: NodeV) -> ErrorView {
    ErrorView {
        kind: ErrorKind::UndefinedVariable,
        message: unknown("undefined component"@, name),
        span: Some(u.span),
        hint: Some("define with: component name(params) { ... }"@),
    }
}

/// The error for a component whose expansion does not end: it uses itself,
/// directly or through other components.
pub open spec fn recursive_component(name: Seq<char>, u: NodeV) -> ErrorView {
    ErrorView {
        kind: ErrorKind::InvalidValue,
        message: "component '"@ + name + "' uses itself"@,
        span: Some(u.span),
        hint: None,
    }
}

/// A node built into the design tree, with the state after it. `budget` is
/// how many components may still be expanded one inside another; a program
/// whose components do not use themselves never needs more than there are
/// components.
pub open spec fn build_spec(comps: Seq<ComponentV>, st: BState, n: NodeV, budget: nat) -> Result<(NodeIrV, BState), ErrorView>
    decreases budget, n, 2int,
{
    if n.kind == NodeKind::Use {
        expand_spec(comps, st, n, budget)
    } else {
        let (id, st1) = node_id(st, n);
        match build_list(comps, st1, n.children, budget) {
            Err(e) => Err(e),
            Ok((children, st2)) => match data_spec(st2.vars, n) {
                Err(e) => Err(e),
                Ok(d) => Ok((NodeIrV { id, data: d, children }, st2)),
            },
        }
    }
}

/// Nodes built in order, each in the state the one before it left.
pub open spec fn build_list(comps: Seq<ComponentV>, st: BState, s: Seq<NodeV>, budget: nat) -> Result<(Seq<NodeIrV>, BState), ErrorView>
    decreases budget, s, 1int,
{
    if s.len() == 0 {
        Ok((Seq::empty(), st))
    } else {
        proof {
            assert(decreases_to!(s => s[s.len() - 1]));
        }
        match build_list(comps, st, s.drop_last(), budget) {
            Err(e) => Err(e),
            Ok((done, st1)) => match build_spec(comps, st1, s.last(), budget) {
                Err(e) => Err(e),
                Ok((x, st2)) => Ok((done.push(x), st2)),
            },
        }
    }
}

/// A `use` node: the component's body with the arguments substituted, built
/// after the parameters are bound as variables.
pub open spec fn expand_spec(comps: Seq<ComponentV>, st: BState, u: NodeV, budget: nat) -> Result<(NodeIrV, BState), ErrorView>
    decreases budget, u, 0int,
{
    let name = match u.name {
        Some(x) => x,
        None => Seq::empty(),
    };
    match lookup_comp(comps, name) {
        None => Err(undefined_component(name, u)),
        Some(c) => {
            let pv = param_values_spec(c.params, u.attrs);
            let body = rewrite_spec(st.vars, c.body, pv);
            if budget == 0 {
                Err(recursive_component(name, u))
            } else {
                build_spec(comps, BState { vars: st.vars + pv, ..st }, body, (budget - 1) as nat)
            }
        },
    }
}

/// Builds the IR tree from AST nodes using resolved properties.
pub struct IrBuilder {
    vars: VariableResolver,
    #[allow(dead_code)]
    assets: Vec<IrAsset>,
    components: Vec<ComponentDecl>,
    id_counter: usize,
}

impl IrBuilder {
    /// The components that `use` nodes refer to.
    pub closed spec fn comps(&self) -> Seq<ComponentV> {
        self.components@.map_values(|c: ComponentDecl| component_view(c))
    }

    /// The bindings and the id counter.
    pub closed spec fn state(&self) -> BState {
        BState { vars: self.vars.bindings(), counter: self.id_counter }
    }

    pub fn new(vars: VariableResolver, assets: Vec<IrAsset>, components: Vec<ComponentDecl>) -> (b: IrBuilder)
        ensures
            b.comps() == components@.map_values(|c: ComponentDecl| component_view(c)),
            b.state() == (BState { vars: vars.bindings(), counter: 0 }),
    {
        IrBuilder { vars, assets, components, id_counter: 0 }
    }

    /// A fresh id with the given prefix.
    fn gen_id(&mut self, prefix: &str) -> (id: String)
        ensures
            final(self).comps() == old(self).comps(),
            (id@, final(self).state()) == gen_spec(old(self).state(), prefix@),
    {
        self.id_counter = if self.id_counter == usize::MAX { 0 } else { self.id_counter + 1 };
        let mut id = String::new();
        push_str(&mut id, prefix);
        push_str(&mut id, "_");
        push_nat(&mut id, self.id_counter as u64);
        id
    }

    /// Builds a node and its children into the design tree.
    pub fn build_node(&mut self, node: &NodeDecl) -> (r: Result<IrNode, PastelError>)
        ensures
            final(self).comps() == old(self).comps(),
            match r {
                Ok(n) => build_spec(old(self).comps(), old(self).state(), node_view(*node), old(self).comps().len())
                    == Ok::<(NodeIrV, BState), ErrorView>((ir_node_view(n), final(self).state())),
                Err(e) => build_spec(old(self).comps(), old(self).state(), node_view(*node), old(self).comps().len())
                    == Err::<(NodeIrV, BState), ErrorView>(e@),
            },
    {
        let budget = self.components.len();
        self.build_with(node, budget)
    }

    fn build_with(&mut self, node: &NodeDecl, budget: usize) -> (r: Result<IrNode, PastelError>)
        ensures
            final(self).comps() == old(self).comps(),
            match r {
                Ok(n) => build_spec(old(self).comps(), old(self).state(), node_view(*node), budget as nat)
                    == Ok::<(NodeIrV, BState), ErrorView>((ir_node_view(n), final(self).state())),
                Err(e) => build_spec(old(self).comps(), old(self).state(), node_view(*node), budget as nat)
                    == Err::<(NodeIrV, BState), ErrorView>(e@),
            },
        decreases budget, node, 2int,
    {
        if node.kind == NodeKind::Use {
            return self.expand_component(node, budget);
        }
        let id = if node.kind == NodeKind::Image {
            match &node.name {
                Some(n) => self.gen_id(n.as_str()),
                None => self.gen_id("image"),
            }
        } else {
            match &node.name {
                Some(n) => copy_string(n),
                None => {
                    let prefix = match node.kind {
                        NodeKind::Frame => "frame",
                        NodeKind::Text => "text",
                        NodeKind::Image => "image",
                        NodeKind::Shape => "shape",
                        NodeKind::Use => "use",
                    };
                    self.gen_id(prefix)
                },
            }
        };
        let children = match self.build_children(&node.children, budget) {
            Ok(c) => c,
            Err(e) => {
                return Err(e);
            },
        };
        let p = PropertyResolver::new(&self.vars);
        proof {
            reveal(data_spec);
        }
        let data = match node.kind {
            NodeKind::Frame => match p.build_frame(node) {
                Ok(f) => IrNodeData::Frame(f),
                Err(e) => {
                    return Err(e);
                },
            },
            NodeKind::Text => match p.build_text(node) {
                Ok(t) => IrNodeData::Text(t),
                Err(e) => {
                    return Err(e);
                },
            },
            NodeKind::Image => match p.build_image(node) {
                Ok(i) => IrNodeData::Image(i),
                Err(e) => {
                    return Err(e);
                },
            },
            NodeKind::Shape => match p.build_shape(node) {
                Ok(s) => IrNodeData::Shape(s),
                Err(e) => {
                    return Err(e);
                },
            },
            NodeKind::Use => {
                return Err(PastelError::new(ErrorKind::InvalidValue, String::new()).with_span(node.span));
            },
        };
        Ok(IrNode { id, data, children })
    }

    fn build_children(&mut self, children: &Vec<NodeDecl>, budget: usize) -> (r: Result<Vec<IrNode>, PastelError>)
        ensures
            final(self).comps() == old(self).comps(),
            match r {
                Ok(ns) => build_list(old(self).comps(), old(self).state(), nodes_view(children@), budget as nat)
                    == Ok::<(Seq<NodeIrV>, BState), ErrorView>((ir_nodes_view(ns@), final(self).state())),
                Err(e) => build_list(old(self).comps(), old(self).state(), nodes_view(children@), budget as nat)
                    == Err::<(Seq<NodeIrV>, BState), ErrorView>(e@),
            },
        decreases budget, children, 1int,
    {
        proof {
            lemma_nodes_view_len(children@);
        }
        let ghost comps = self.comps();
        let ghost st0 = self.state();
        let ghost cv = nodes_view(children@);
        let mut out: Vec<IrNode> = Vec::new();
        let mut i: usize = 0;
        while i < children.len()
            invariant
                i <= children.len(),
                comps == self.comps(),
                comps == old(self).comps(),
                st0 == old(self).state(),
                cv == nodes_view(children@),
                cv.len() == children.len(),
                forall|k: int| 0 <= k < children.len() ==> #[trigger] cv[k] == node_view(children@[k]),
                build_list(comps, st0, cv.subrange(0, i as int), budget as nat) == Ok::<(Seq<NodeIrV>, BState), ErrorView>(
                    (ir_nodes_view(out@), self.state()),
                ),
            decreases children.len() - i,
        {
            proof {
                assert(decreases_to!(children => children@));
                assert(decreases_to!(children@ => children@[i as int]));
                let sub = cv.subrange(0, i + 1);
                assert(sub.drop_last() =~= cv.subrange(0, i as int));
            }
            let n = match self.build_with(&children[i], budget) {
                Ok(n) => n,
                Err(e) => {
                    proof {
                        lemma_build_list_err(comps, st0, cv, (i + 1) as nat, budget as nat);
                    }
                    return Err(e);
                },
            };
            let ghost before = out@;
            out.push(n);
            proof {
                assert(out@.drop_last() =~= before);
            }
            i = i + 1;
        }
        proof {
            assert(cv.subrange(0, children.len() as int) =~= cv);
        }
        Ok(out)
    }

    /// The index of the component of a name: the last one declared with it.
    fn find_component(&self, name: &str) -> (r: Option<usize>)
        ensures
            match r {
                Some(i) => i < self.components.len() && lookup_comp(self.comps(), name@) == Some(component_view(self.components@[i as int])),
                None => lookup_comp(self.comps(), name@) is None,
            },
    {
        let mut i = self.components.len();
        proof {
            assert(self.comps().subrange(0, i as int) =~= self.comps());
        }
        while i > 0
            invariant
                i <= self.components.len(),
                self.comps().len() == self.components.len(),
                lookup_comp(self.comps(), name@) == lookup_comp(self.comps().subrange(0, i as int), name@),
            decreases i,
        {
            proof {
                let sub = self.comps().subrange(0, i as int);
                assert(sub.drop_last() =~= self.comps().subrange(0, i - 1));
            }
            if str_eq(self.components[i - 1].name.as_str(), name) {
                return Some(i - 1);
            }
            i = i - 1;
        }
        None
    }

    /// Binds each parameter value as a variable.
    fn register_params(&mut self, params: &Vec<(String, crate::ast::Expression)>)
        ensures
            final(self).comps() == old(self).comps(),
            final(self).state() == (BState { vars: old(self).state().vars + pairs_view(params@), ..old(self).state() }),
    {
        let ghost vars0 = self.vars.bindings();
        let mut i: usize = 0;
        proof {
            crate::expr::lemma_pairs_view_len(params@);
            assert(vars0 + pairs_view(params@).subrange(0, 0) =~= vars0);
        }
        while i < params.len()
            invariant
                i <= params.len(),
                self.components == old(self).components,
                self.id_counter == old(self).id_counter,
                vars0 == old(self).vars.bindings(),
                pairs_view(params@).len() == params.len(),
                forall|k: int| 0 <= k < params.len() ==> #[trigger] pairs_view(params@)[k] == (params@[k].0@, crate::ast::expr_view(params@[k].1)),
                self.vars.bindings() == vars0 + pairs_view(params@).subrange(0, i as int),
            decreases params.len() - i,
        {
            self.vars.register(copy_string(&params[i].0), params[i].1.duplicate());
            proof {
                assert(vars0 + pairs_view(params@).subrange(0, i + 1) =~= (vars0 + pairs_view(params@).subrange(0, i as int)).push(
                    pairs_view(params@)[i as int],
                ));
            }
            i = i + 1;
        }
        proof {
            assert(pairs_view(params@).subrange(0, params.len() as int) =~= pairs_view(params@));
        }
    }

    /// Expand a `use` node by substituting component params into body.
    fn expand_component(&mut self, use_node: &NodeDecl, budget: usize) -> (r: Result<IrNode, PastelError>)
        ensures
            final(self).comps() == old(self).comps(),
            match r {
                Ok(n) => expand_spec(old(self).comps(), old(self).state(), node_view(*use_node), budget as nat)
                    == Ok::<(NodeIrV, BState), ErrorView>((ir_node_view(n), final(self).state())),
                Err(e) => expand_spec(old(self).comps(), old(self).state(), node_view(*use_node), budget as nat)
                    == Err::<(NodeIrV, BState), ErrorView>(e@),
            },
        decreases budget, use_node, 0int,
    {
        let component_name = match &use_node.name {
            Some(n) => copy_string(n),
            None => String::new(),
        };
        let idx = match self.find_component(component_name.as_str()) {
            Some(i) => i,
            None => {
                let mut m = String::new();
                push_str(&mut m, "undefined component '");
                push_str(&mut m, component_name.as_str());
                push_str(&mut m, "'");
                proof {
                    reveal_strlit("undefined component '");
                    reveal_strlit("undefined component");
                    reveal_strlit(" '");
                    assert(m@ =~= unknown("undefined component"@, component_name@));
                }
                return Err(
                    PastelError::new(ErrorKind::UndefinedVariable, m).with_span(use_node.span).with_hint(
                        owned("define with: component name(params) { ... }"),
                    ),
                );
            },
        };
        let comp = &self.components[idx];
        let params = param_values(&comp.params, &use_node.attrs);
        let body = rewrite_node(&self.vars, &comp.body, &params);
        if budget == 0 {
            let mut m = String::new();
            push_str(&mut m, "component '");
            push_str(&mut m, component_name.as_str());
            push_str(&mut m, "' uses itself");
            return Err(PastelError::new(ErrorKind::InvalidValue, m).with_span(use_node.span));
        }
        // Register params as variables for property resolution
        self.register_params(&params);
        self.build_with(&body, budget - 1)
    }
}

/// Once a node fails, the list fails with its error.
pub proof fn lemma_build_list_err(comps: Seq<ComponentV>, st: BState, s: Seq<NodeV>, k: nat, budget: nat)
    requires
        k <= s.len(),
        build_list(comps, st, s.subrange(0, k as int), budget) is Err,
    ensures
        build_list(comps, st, s, budget) == build_list(comps, st, s.subrange(0, k as int), budget),
    decreases s.len() - k,
{
    if k < s.len() {
        let sub = s.subrange(0, (k + 1) as int);
        assert(sub.drop_last() =~= s.subrange(0, k as int));
        lemma_build_list_err(comps, st, s, (k + 1) as nat, budget);
    } else {
        assert(s.subrange(0, k as int) =~= s);
    }
}

} // verus!
