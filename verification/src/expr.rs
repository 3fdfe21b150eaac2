use vstd::prelude::*;

use crate::ast::{expr_view, exprs_view, pairs_view, Expr, Expression};
use crate::text::{copy_string, int_chars, push_int, push_str};
use crate::token::{float_debug, push_float_debug, push_quoted, quoted};

verus! {

// ---------------------------------------------------------------------------
// Expressions as `Debug` writes them, and copies of expressions
// ---------------------------------------------------------------------------

/// An expression as `Debug` writes it.
pub open spec fn expr_debug(e: Expr) -> Seq<char>
    decreases e, 1int,
{
    match e {
        Expr::Integer(n) => "Integer("@ + int_chars(n) + ")"@,
        Expr::Float(d) => "Float("@ + float_debug(d) + ")"@,
        Expr::Str(s) => "String("@ + quoted(s) + ")"@,
        Expr::Color(s) => "Color("@ + quoted(s) + ")"@,
        Expr::Bool(b) => if b { "Bool(true)"@ } else { "Bool(false)"@ },
        Expr::Ident(s) => "Ident("@ + quoted(s) + ")"@,
        Expr::Array(items) => "Array(["@ + items_debug(items) + "])"@,
        Expr::Object(pairs) => "Object(["@ + pairs_debug(pairs) + "])"@,
        Expr::Call(name, args) => "FunctionCall { name: "@ + quoted(name) + ", args: ["@ + items_debug(args) + "] }"@,
    }
}

/// Expressions separated by ", ".
pub open spec fn items_debug(s: Seq<Expr>) -> Seq<char>
    decreases s, 0int,
{
    if s.len() == 0 {
        Seq::empty()
    } else {
        proof {
            assert(decreases_to!(s => s[s.len() - 1]));
        }
        let sep: Seq<char> = if s.len() > 1 { ", "@ } else { Seq::empty() };
        items_debug(s.drop_last()) + sep + expr_debug(s.last())
    }
}

/// Key and value pairs, each in round brackets, separated by ", ".
pub open spec fn pairs_debug(s: Seq<(Seq<char>, Expr)>) -> Seq<char>
    decreases s, 0int,
{
    if s.len() == 0 {
        Seq::empty()
    } else {
        proof {
            assert(decreases_to!(s => s[s.len() - 1]));
            assert(decreases_to!(s[s.len() - 1] => s[s.len() - 1].1));
        }
        let sep: Seq<char> = if s.len() > 1 { ", "@ } else { Seq::empty() };
        pairs_debug(s.drop_last()) + sep + "("@ + quoted(s.last().0) + ", "@ + expr_debug(s.last().1) + ")"@
    }
}

/// Appends the `Debug` text of an expression.
pub fn push_expr_debug(s: &mut String, e: &Expression)
    ensures
        final(s)@ == old(s)@ + expr_debug(expr_view(*e)),
    decreases e,
{
    match e {
        Expression::Integer(n) => {
            push_str(s, "Integer(");
            push_int(s, *n);
            push_str(s, ")");
        },
        Expression::Float(d) => {
            push_str(s, "Float(");
            push_float_debug(s, d);
            push_str(s, ")");
        },
        Expression::String(t) => {
            push_str(s, "String(");
            push_quoted(s, t.as_str());
            push_str(s, ")");
        },
        Expression::Color(t) => {
            push_str(s, "Color(");
            push_quoted(s, t.as_str());
            push_str(s, ")");
        },
        Expression::Bool(b) => {
            if *b {
                push_str(s, "Bool(true)");
            } else {
                push_str(s, "Bool(false)");
            }
        },
        Expression::Ident(t) => {
            push_str(s, "Ident(");
            push_quoted(s, t.as_str());
            push_str(s, ")");
        },
        Expression::Array(items) => {
            push_str(s, "Array([");
            push_items_debug(s, items);
            push_str(s, "])");
        },
        Expression::Object(pairs) => {
            push_str(s, "Object([");
            push_pairs_debug(s, pairs);
            push_str(s, "])");
        },
        Expression::FunctionCall { name, args } => {
            push_str(s, "FunctionCall { name: ");
            push_quoted(s, name.as_str());
            push_str(s, ", args: [");
            push_items_debug(s, args);
            push_str(s, "] }");
        },
    }
    proof {
        assert(final(s)@ =~= old(s)@ + expr_debug(expr_view(*e)));
    }
}

/// Appends key and value pairs, each in round brackets, separated by ", ".
pub fn push_pairs_debug(s: &mut String, pairs: &Vec<(String, Expression)>)
    ensures
        final(s)@ == old(s)@ + pairs_debug(pairs_view(pairs@)),
    decreases pairs,
{
    let ghost start = s@;
    let mut i: usize = 0;
    while i < pairs.len()
        invariant
            i <= pairs.len(),
            s@ == start + pairs_debug(pairs_view(pairs@.subrange(0, i as int))),
        decreases pairs.len() - i,
    {
        if i > 0 {
            push_str(s, ", ");
        }
        push_str(s, "(");
        push_quoted(s, pairs[i].0.as_str());
        push_str(s, ", ");
        proof {
            assert(decreases_to!(pairs => pairs@));
            assert(decreases_to!(pairs@ => pairs@[i as int]));
            assert(decreases_to!(pairs@[i as int] => pairs@[i as int].1));
        }
        push_expr_debug(s, &pairs[i].1);
        push_str(s, ")");
        proof {
            let sub = pairs@.subrange(0, i + 1);
            assert(sub.drop_last() =~= pairs@.subrange(0, i as int));
            lemma_pairs_view_len(sub);
            lemma_pairs_view_last(sub);
            assert(pairs_view(sub).drop_last() =~= pairs_view(pairs@.subrange(0, i as int)));
            assert(s@ =~= start + pairs_debug(pairs_view(sub)));
        }
        i = i + 1;
    }
    proof {
        assert(pairs@.subrange(0, pairs.len() as int) =~= pairs@);
    }
}

/// Appends expressions separated by ", ".
pub fn push_items_debug(s: &mut String, items: &Vec<Expression>)
    ensures
        final(s)@ == old(s)@ + items_debug(exprs_view(items@)),
    decreases items,
{
    let ghost start = s@;
    let mut i: usize = 0;
    while i < items.len()
        invariant
            i <= items.len(),
            s@ == start + items_debug(exprs_view(items@.subrange(0, i as int))),
        decreases items.len() - i,
    {
        if i > 0 {
            push_str(s, ", ");
        }
        proof {
            assert(decreases_to!(items => items@));
            assert(decreases_to!(items@ => items@[i as int]));
        }
        push_expr_debug(s, &items[i]);
        proof {
            let sub = items@.subrange(0, i + 1);
            assert(sub.drop_last() =~= items@.subrange(0, i as int));
            lemma_exprs_view_len(sub);
            assert(exprs_view(sub).drop_last() =~= exprs_view(items@.subrange(0, i as int)));
            assert(s@ =~= start + items_debug(exprs_view(sub)));
        }
        i = i + 1;
    }
    proof {
        assert(items@.subrange(0, items.len() as int) =~= items@);
    }
}

pub proof fn lemma_exprs_view_len(s: Seq<Expression>)
    ensures
        exprs_view(s).len() == s.len(),
        forall|i: int| 0 <= i < s.len() ==> #[trigger] exprs_view(s)[i] == expr_view(s[i]),
    decreases s.len(),
{
    if s.len() > 0 {
        lemma_exprs_view_len(s.drop_last());
    }
}

pub proof fn lemma_pairs_view_len(s: Seq<(String, Expression)>)
    ensures
        pairs_view(s).len() == s.len(),
        forall|i: int| 0 <= i < s.len() ==> #[trigger] pairs_view(s)[i] == (s[i].0@, expr_view(s[i].1)),
    decreases s.len(),
{
    if s.len() > 0 {
        lemma_pairs_view_len(s.drop_last());
    }
}

pub proof fn lemma_pairs_view_last(s: Seq<(String, Expression)>)
    requires
        s.len() > 0,
    ensures
        pairs_view(s).last() == (s.last().0@, expr_view(s.last().1)),
{
}

impl Expression {
    /// A copy of the expression.
    pub fn duplicate(&self) -> (r: Expression)
        ensures
            expr_view(r) == expr_view(*self),
        decreases self,
    {
        match self {
            Expression::Integer(n) => Expression::Integer(*n),
            Expression::Float(d) => Expression::Float(*d),
            Expression::String(t) => Expression::String(copy_string(t)),
            Expression::Color(t) => Expression::Color(copy_string(t)),
            Expression::Bool(b) => Expression::Bool(*b),
            Expression::Ident(t) => Expression::Ident(copy_string(t)),
            Expression::Array(items) => Expression::Array(copy_exprs(items)),
            Expression::Object(pairs) => Expression::Object(copy_pairs(pairs)),
            Expression::FunctionCall { name, args } => Expression::FunctionCall {
                name: copy_string(name),
                args: copy_exprs(args),
            },
        }
    }
}

/// A copy of a list of key and value pairs.
pub fn copy_pairs(pairs: &Vec<(String, Expression)>) -> (r: Vec<(String, Expression)>)
    ensures
        pairs_view(r@) == pairs_view(pairs@),
    decreases pairs,
{
    let mut out: Vec<(String, Expression)> = Vec::new();
    let mut i: usize = 0;
    while i < pairs.len()
        invariant
            i <= pairs.len(),
            pairs_view(out@) == pairs_view(pairs@.subrange(0, i as int)),
        decreases pairs.len() - i,
    {
        proof {
            assert(decreases_to!(pairs => pairs@));
            assert(decreases_to!(pairs@ => pairs@[i as int]));
            assert(decreases_to!(pairs@[i as int] => pairs@[i as int].1));
        }
        let v = pairs[i].1.duplicate();
        let k = copy_string(&pairs[i].0);
        let ghost before = out@;
        out.push((k, v));
        proof {
            let sub = pairs@.subrange(0, i + 1);
            assert(sub.drop_last() =~= pairs@.subrange(0, i as int));
            assert(out@.drop_last() =~= before);
        }
        i = i + 1;
    }
    proof {
        assert(pairs@.subrange(0, pairs.len() as int) =~= pairs@);
    }
    out
}

/// A copy of a list of expressions.
pub fn copy_exprs(items: &Vec<Expression>) -> (r: Vec<Expression>)
    ensures
        exprs_view(r@) == exprs_view(items@),
    decreases items,
{
    let mut out: Vec<Expression> = Vec::new();
    let mut i: usize = 0;
    while i < items.len()
        invariant
            i <= items.len(),
            exprs_view(out@) == exprs_view(items@.subrange(0, i as int)),
        decreases items.len() - i,
    {
        proof {
            assert(decreases_to!(items => items@));
            assert(decreases_to!(items@ => items@[i as int]));
        }
        let v = items[i].duplicate();
        let ghost before = out@;
        out.push(v);
        proof {
            let sub = items@.subrange(0, i + 1);
            assert(sub.drop_last() =~= items@.subrange(0, i as int));
            assert(out@.drop_last() =~= before);
        }
        i = i + 1;
    }
    proof {
        assert(items@.subrange(0, items.len() as int) =~= items@);
    }
    out
}

} // verus!
