use vstd::prelude::*;

use crate::ast::{expr_view, exprs_view, pairs_view, Expr, Expression};
use crate::expr::{lemma_exprs_view_len, lemma_pairs_view_len};
use crate::text::{copy_string, str_eq};

verus! {

// ---------------------------------------------------------------------------
// Variable bindings and their resolution
// ---------------------------------------------------------------------------

/// The value that the last binding of `name` gives it.
pub open spec fn lookup(b: Seq<(Seq<char>, Expr)>, name: Seq<char>) -> Option<Expr>
    decreases b.len(),
{
    if b.len() == 0 {
        None
    } else if b.last().0 == name {
        Some(b.last().1)
    } else {
        lookup(b.drop_last(), name)
    }
}

/// An expression with its variables replaced by their values, at most
/// `fuel` lookups deep along any path; the arguments of a function call are
/// resolved too. An identifier that names no variable stays as it is, and so
/// does one met when the fuel is spent.
pub open spec fn resolve_spec(b: Seq<(Seq<char>, Expr)>, e: Expr, fuel: nat) -> Expr
    decreases fuel, e, 1int,
{
    match e {
        Expr::Ident(name) => match lookup(b, name) {
            Some(v) => if fuel == 0 { e } else { resolve_spec(b, v, (fuel - 1) as nat) },
            None => e,
        },
        Expr::Call(name, args) => Expr::Call(name, resolve_list(b, args, fuel)),
        _ => e,
    }
}

/// Each expression of a list resolved.
pub open spec fn resolve_list(b: Seq<(Seq<char>, Expr)>, s: Seq<Expr>, fuel: nat) -> Seq<Expr>
    decreases fuel, s, 0int,
{
    if s.len() == 0 {
        Seq::empty()
    } else {
        proof {
            assert(decreases_to!(s => s[s.len() - 1]));
        }
        resolve_list(b, s.drop_last(), fuel).push(resolve_spec(b, s.last(), fuel))
    }
}

/// An expression resolved against the bindings. A chain of variables that
/// does not come back to a variable already on it never needs more lookups
/// than there are bindings, so the fuel is the number of bindings.
pub open spec fn resolved(b: Seq<(Seq<char>, Expr)>, e: Expr) -> Expr {
    resolve_spec(b, e, b.len())
}

/// Resolves variables by substituting identifiers with their bound values.
pub struct VariableResolver {
    variables: Vec<(String, Expression)>,
}

impl VariableResolver {
    /// The bindings, in the order they were made.
    pub closed spec fn bindings(&self) -> Seq<(Seq<char>, Expr)> {
        pairs_view(self.variables@)
    }

    pub fn new() -> (v: VariableResolver)
        ensures
            v.bindings() == Seq::<(Seq<char>, Expr)>::empty(),
    {
        VariableResolver { variables: Vec::new() }
    }

    /// Binds `name` to `value`; a later binding of a name replaces an
    /// earlier one.
    pub fn register(&mut self, name: String, value: Expression)
        ensures
            final(self).bindings() == old(self).bindings().push((name@, expr_view(value))),
    {
        let ghost before = self.variables@;
        self.variables.push((name, value));
        proof {
            assert(self.variables@.drop_last() =~= before);
        }
    }

    /// The number of bindings.
    pub fn len(&self) -> (n: usize)
        ensures
            n == self.bindings().len(),
    {
        proof {
            lemma_pairs_view_len(self.variables@);
        }
        self.variables.len()
    }

    /// The value of the last binding of `name`.
    pub fn get(&self, name: &str) -> (r: Option<&Expression>)
        ensures
            match r {
                Some(e) => lookup(self.bindings(), name@) == Some(expr_view(*e)),
                None => lookup(self.bindings(), name@) is None,
            },
    {
        let mut i: usize = self.variables.len();
        proof {
            assert(self.variables@.subrange(0, i as int) =~= self.variables@);
        }
        while i > 0
            invariant
                i <= self.variables.len(),
                lookup(self.bindings(), name@) == lookup(pairs_view(self.variables@.subrange(0, i as int)), name@),
            decreases i,
        {
            let ghost sub = self.variables@.subrange(0, i as int);
            proof {
                assert(sub.drop_last() =~= self.variables@.subrange(0, i - 1));
                lemma_pairs_view_len(sub);
                assert(pairs_view(sub).drop_last() =~= pairs_view(sub.drop_last()));
                assert(pairs_view(sub).last() == (sub.last().0@, expr_view(sub.last().1)));
            }
            if str_eq(self.variables[i - 1].0.as_str(), name) {
                return Some(&self.variables[i - 1].1);
            }
            i = i - 1;
        }
        None
    }

    /// The expression with its variables resolved.
    pub fn resolve(&self, expr: &Expression) -> (r: Expression)
        ensures
            expr_view(r) == resolved(self.bindings(), expr_view(*expr)),
    {
        let n = self.len();
        self.resolve_with(expr, n)
    }

    fn resolve_with(&self, expr: &Expression, fuel: usize) -> (r: Expression)
        ensures
            expr_view(r) == resolve_spec(self.bindings(), expr_view(*expr), fuel as nat),
        decreases fuel, expr, 1int,
    {
        match expr {
            Expression::Ident(name) => match self.get(name.as_str()) {
                Some(v) => {
                    if fuel == 0 {
                        expr.duplicate()
                    } else {
                        self.resolve_with(v, fuel - 1)
                    }
                },
                None => expr.duplicate(),
            },
            Expression::FunctionCall { name, args } => {
                let resolved_args = self.resolve_args(args, fuel);
                Expression::FunctionCall { name: copy_string(name), args: resolved_args }
            },
            _ => expr.duplicate(),
        }
    }

    fn resolve_args(&self, args: &Vec<Expression>, fuel: usize) -> (r: Vec<Expression>)
        ensures
            exprs_view(r@) == resolve_list(self.bindings(), exprs_view(args@), fuel as nat),
        decreases fuel, args, 0int,
    {
        let mut out: Vec<Expression> = Vec::new();
        let mut i: usize = 0;
        proof {
            lemma_exprs_view_len(args@);
            assert(exprs_view(args@).subrange(0, 0) =~= Seq::<Expr>::empty());
        }
        while i < args.len()
            invariant
                i <= args.len(),
                exprs_view(args@).len() == args.len(),
                forall|k: int| 0 <= k < args.len() ==> #[trigger] exprs_view(args@)[k] == expr_view(args@[k]),
                exprs_view(out@) == resolve_list(self.bindings(), exprs_view(args@).subrange(0, i as int), fuel as nat),
            decreases args.len() - i,
        {
            proof {
                assert(decreases_to!(args => args@));
                assert(decreases_to!(args@ => args@[i as int]));
            }
            let v = self.resolve_with(&args[i], fuel);
            let ghost before = out@;
            out.push(v);
            proof {
                let sub = exprs_view(args@).subrange(0, i + 1);
                assert(sub.drop_last() =~= exprs_view(args@).subrange(0, i as int));
                assert(out@.drop_last() =~= before);
            }
            i = i + 1;
        }
        proof {
            assert(exprs_view(args@).subrange(0, args.len() as int) =~= exprs_view(args@));
        }
        out
    }
}

} // verus!
