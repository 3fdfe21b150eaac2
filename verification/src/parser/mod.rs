pub mod grammar;
mod decl;

use vstd::prelude::*;

use crate::ast::{
    attr_view, attrs_view, expr_view, exprs_view, node_view, nodes_view, pairs_view, Attribute,
    Expression, NodeDecl, NodeKind,
};
use crate::error::{ErrorKind, PastelError};
use crate::lexer::tokens_view;
use crate::text::{copy_string, owned, push_nat, push_str, str_eq};
use crate::token::{Kind, Token, TokenKind, TokenV};
use self::grammar::{
    arg_key, at_end, attr_spec, attrs_spec, body_spec, canvas_spec, asset_spec, let_spec,
    include_spec, component_spec, page_spec, page_nodes_spec, params_spec, token_block_spec,
    decl_spec, program_spec, empty_program, expect_spec, expected, expr_spec, ident_or_keyword_spec,
    entry_spec, entries_spec,
    ident_spec, is, is_node_start, list_spec, node_kind_of, node_spec, object_spec, skip_comma,
    string_spec, use_args_spec, use_spec, err_at, decl_hint,
};

verus! {

pub proof fn lemma_exprs_view_push(s: Seq<Expression>, e: Expression)
    ensures
        exprs_view(s.push(e)) == exprs_view(s).push(expr_view(e)),
{
    assert(s.push(e).drop_last() =~= s);
}

pub proof fn lemma_pairs_view_push(s: Seq<(String, Expression)>, p: (String, Expression))
    ensures
        pairs_view(s.push(p)) == pairs_view(s).push((p.0@, expr_view(p.1))),
{
    assert(s.push(p).drop_last() =~= s);
}

pub proof fn lemma_nodes_view_push(s: Seq<NodeDecl>, n: NodeDecl)
    ensures
        nodes_view(s.push(n)) == nodes_view(s).push(node_view(n)),
{
    assert(s.push(n).drop_last() =~= s);
}

pub proof fn lemma_attrs_view_push(s: Seq<Attribute>, a: Attribute)
    ensures
        attrs_view(s.push(a)) == attrs_view(s).push(attr_view(a)),
{
    assert(attrs_view(s.push(a)) =~= attrs_view(s).push(attr_view(a)));
}

/// Builds the syntax tree from tokens.
pub struct Parser {
    tokens: Vec<Token>,
    pos: usize,
}

impl Parser {
    /// The tokens, viewed mathematically.
    pub closed spec fn toks(&self) -> Seq<TokenV> {
        tokens_view(self.tokens@)
    }

    /// The position of the next token.
    pub closed spec fn at(&self) -> int {
        self.pos as int
    }

    pub closed spec fn wf(&self) -> bool {
        &&& self.tokens.len() > 0
        &&& self.tokens@.last().kind == TokenKind::Eof
        &&& self.pos < self.tokens.len()
    }

    pub fn new(tokens: Vec<Token>) -> (p: Parser)
        requires
            tokens@.len() > 0,
            tokens@.last().kind == TokenKind::Eof,
        ensures
            p.wf(),
            p.toks() == tokens_view(tokens@),
            p.at() == 0,
    {
        Parser { tokens, pos: 0 }
    }

    fn is_at_end(&self) -> (b: bool)
        requires
            self.wf(),
        ensures
            b == at_end(self.toks(), self.at()),
    {
        self.pos >= self.tokens.len() || is_eof(&self.tokens[self.pos].kind)
    }

    fn peek(&self) -> (t: &Token)
        requires
            self.wf(),
        ensures
            t@ == self.toks()[self.at()],
    {
        &self.tokens[self.pos]
    }

    /// Whether the next token has the payload-free kind `kind`.
    fn check(&self, kind: &TokenKind) -> (b: bool)
        requires
            self.wf(),
            payload_free(kind@),
        ensures
            b == (self.toks()[self.at()].kind == kind@),
    {
        same_kind(&self.tokens[self.pos].kind, kind)
    }

    /// Consumes the next token if it has the payload-free kind `kind`.
    fn match_token(&mut self, kind: &TokenKind) -> (b: bool)
        requires
            old(self).wf(),
            payload_free(kind@),
            kind@ != Kind::Eof,
        ensures
            final(self).wf(),
            final(self).tokens == old(self).tokens,
            b == (old(self).toks()[old(self).at()].kind == kind@),
            final(self).at() == if b { old(self).at() + 1 } else { old(self).at() },
    {
        if self.check(kind) {
            proof {
                self.lemma_not_last();
            }
            self.pos = self.pos + 1;
            true
        } else {
            false
        }
    }

    /// A token that is not `Eof` is not the last one.
    proof fn lemma_not_last(&self)
        requires
            self.wf(),
            self.toks()[self.at()].kind != Kind::Eof,
        ensures
            self.pos + 1 < self.tokens.len(),
    {
        if self.pos + 1 == self.tokens.len() {
            assert(self.toks()[self.at()] == self.tokens@.last()@);
        }
    }

    fn expect(&mut self, expected: TokenKind) -> (r: Result<Token, PastelError>)
        requires
            old(self).wf(),
            payload_free(expected@),
            expected@ != Kind::Eof,
        ensures
            final(self).wf(),
            final(self).tokens == old(self).tokens,
            match r {
                Ok(t) => expect_spec(old(self).toks(), old(self).at(), expected@) == Ok::<(TokenV, int), crate::error::ErrorView>((t@, final(self).at()))
                    && final(self).at() == old(self).at() + 1,
                Err(e) => expect_spec(old(self).toks(), old(self).at(), expected@) == Err::<(TokenV, int), crate::error::ErrorView>(e@),
            },
    {
        let tok = self.peek().duplicate();
        if same_kind(&tok.kind, &expected) {
            proof {
                self.lemma_not_last();
            }
            self.pos = self.pos + 1;
            Ok(tok)
        } else {
            let mut what = String::new();
            expected.push_debug(&mut what);
            Err(expected_error(what.as_str(), &tok))
        }
    }

    fn expect_string(&mut self) -> (r: Result<String, PastelError>)
        requires
            old(self).wf(),
        ensures
            final(self).wf(),
            final(self).tokens == old(self).tokens,
            match r {
                Ok(s) => string_spec(old(self).toks(), old(self).at()) == Ok::<(Seq<char>, int), crate::error::ErrorView>((s@, final(self).at()))
                    && final(self).at() == old(self).at() + 1,
                Err(e) => string_spec(old(self).toks(), old(self).at()) == Err::<(Seq<char>, int), crate::error::ErrorView>(e@),
            },
    {
        let tok = self.peek();
        match &tok.kind {
            TokenKind::String(s) => {
                let s = copy_string(s);
                proof {
                    self.lemma_not_last();
                }
                self.pos = self.pos + 1;
                Ok(s)
            },
            _ => Err(expected_error("string literal", tok)),
        }
    }

    fn expect_ident(&mut self) -> (r: Result<String, PastelError>)
        requires
            old(self).wf(),
        ensures
            final(self).wf(),
            final(self).tokens == old(self).tokens,
            match r {
                Ok(s) => ident_spec(old(self).toks(), old(self).at()) == Ok::<(Seq<char>, int), crate::error::ErrorView>((s@, final(self).at()))
                    && final(self).at() == old(self).at() + 1,
                Err(e) => ident_spec(old(self).toks(), old(self).at()) == Err::<(Seq<char>, int), crate::error::ErrorView>(e@),
            },
    {
        let tok = self.peek();
        match &tok.kind {
            TokenKind::Ident(s) => {
                let s = copy_string(s);
                proof {
                    self.lemma_not_last();
                }
                self.pos = self.pos + 1;
                Ok(s)
            },
            _ => Err(expected_error("identifier", tok)),
        }
    }

    /// Accept an identifier or a keyword token as a string.
    fn expect_ident_or_keyword(&mut self) -> (r: Result<String, PastelError>)
        requires
            old(self).wf(),
        ensures
            final(self).wf(),
            final(self).tokens == old(self).tokens,
            match r {
                Ok(s) => ident_or_keyword_spec(old(self).toks(), old(self).at()) == Ok::<(Seq<char>, int), crate::error::ErrorView>((s@, final(self).at()))
                    && final(self).at() == old(self).at() + 1,
                Err(e) => ident_or_keyword_spec(old(self).toks(), old(self).at()) == Err::<(Seq<char>, int), crate::error::ErrorView>(e@),
            },
    {
        let tok = self.peek();
        let name = match &tok.kind {
            TokenKind::Ident(s) => copy_string(s),
            TokenKind::Image => owned("image"),
            TokenKind::Text => owned("text"),
            TokenKind::Frame => owned("frame"),
            TokenKind::Shape => owned("shape"),
            TokenKind::Page => owned("page"),
            _ => {
                return Err(expected_error("identifier", tok));
            },
        };
        proof {
            self.lemma_not_last();
        }
        self.pos = self.pos + 1;
        Ok(name)
    }

    /// Parse a value expression.
    fn parse_expression(&mut self) -> (r: Result<Expression, PastelError>)
        requires
            old(self).wf(),
        ensures
            final(self).wf(),
            final(self).tokens == old(self).tokens,
            match r {
                Ok(e) => expr_spec(old(self).toks(), old(self).at()) == Ok::<(crate::ast::Expr, int), crate::error::ErrorView>((expr_view(e), final(self).at()))
                    && final(self).at() > old(self).at(),
                Err(e) => expr_spec(old(self).toks(), old(self).at()) == Err::<(crate::ast::Expr, int), crate::error::ErrorView>(e@),
            },
        decreases old(self).tokens.len() - old(self).pos, 1int,
    {
        let tok = self.peek();
        match &tok.kind {
            TokenKind::Integer(n) => {
                let n = *n;
                proof {
                    self.lemma_not_last();
                }
                self.pos = self.pos + 1;
                Ok(Expression::Integer(n))
            },
            TokenKind::Float(n) => {
                let n = *n;
                proof {
                    self.lemma_not_last();
                }
                self.pos = self.pos + 1;
                Ok(Expression::Float(n))
            },
            TokenKind::String(s) => {
                let s = copy_string(s);
                proof {
                    self.lemma_not_last();
                }
                self.pos = self.pos + 1;
                Ok(Expression::String(s))
            },
            TokenKind::Color(c) => {
                let c = copy_string(c);
                proof {
                    self.lemma_not_last();
                }
                self.pos = self.pos + 1;
                Ok(Expression::Color(c))
            },
            TokenKind::Bool(b) => {
                let b = *b;
                proof {
                    self.lemma_not_last();
                }
                self.pos = self.pos + 1;
                Ok(Expression::Bool(b))
            },
            TokenKind::Ident(s) => {
                let s = copy_string(s);
                proof {
                    self.lemma_not_last();
                }
                self.pos = self.pos + 1;
                // Check for function call: ident(...)
                if self.check(&TokenKind::LParen) {
                    return self.parse_function_call(s);
                }
                Ok(Expression::Ident(s))
            },
            TokenKind::LBracket => self.parse_array(),
            TokenKind::LBrace => self.parse_object(),
            _ => {
                let mut msg = String::new();
                push_str(&mut msg, "expected value expression, found ");
                tok.kind.push_debug(&mut msg);
                let e = PastelError::new(ErrorKind::UnexpectedToken, msg).with_span(tok.span);
                Err(e)
            },
        }
    }

    /// Expressions separated by optional commas up to the payload-free
    /// `closer`.
    fn parse_items(&mut self, closer: &TokenKind) -> (r: Result<Vec<Expression>, PastelError>)
        requires
            old(self).wf(),
            payload_free(closer@),
            closer@ != Kind::Eof,
        ensures
            final(self).wf(),
            final(self).tokens == old(self).tokens,
            match r {
                Ok(items) => list_spec(old(self).toks(), old(self).at(), Seq::empty(), closer@) == Ok::<(Seq<crate::ast::Expr>, int), crate::error::ErrorView>((exprs_view(items@), final(self).at()))
                    && final(self).at() >= old(self).at(),
                Err(e) => list_spec(old(self).toks(), old(self).at(), Seq::empty(), closer@) == Err::<(Seq<crate::ast::Expr>, int), crate::error::ErrorView>(e@),
            },
        decreases old(self).tokens.len() - old(self).pos, 2int,
    {
        let mut items: Vec<Expression> = Vec::new();
        let ghost start = self.at();
        while !self.check(closer) && !self.is_at_end()
            invariant
                self.wf(),
                self.tokens == old(self).tokens,
                start == old(self).at(),
                start <= self.at(),
                payload_free(closer@),
                closer@ != Kind::Eof,
                list_spec(self.toks(), start, Seq::empty(), closer@) == list_spec(self.toks(), self.at(), exprs_view(items@), closer@),
            decreases self.tokens.len() - self.pos,
        {
            let ghost q = self.at();
            let e = match self.parse_expression() {
                Ok(e) => e,
                Err(err) => {
                    return Err(err);
                },
            };
            self.match_token(&TokenKind::Comma);
            let ghost prev = items@;
            items.push(e);
            proof {
                lemma_exprs_view_push(prev, e);
            }
        }
        Ok(items)
    }

    fn parse_array(&mut self) -> (r: Result<Expression, PastelError>)
        requires
            old(self).wf(),
            old(self).toks()[old(self).at()].kind == Kind::LBracket,
        ensures
            final(self).wf(),
            final(self).tokens == old(self).tokens,
            match r {
                Ok(e) => expr_spec(old(self).toks(), old(self).at()) == Ok::<(crate::ast::Expr, int), crate::error::ErrorView>((expr_view(e), final(self).at()))
                    && final(self).at() > old(self).at(),
                Err(e) => expr_spec(old(self).toks(), old(self).at()) == Err::<(crate::ast::Expr, int), crate::error::ErrorView>(e@),
            },
        decreases old(self).tokens.len() - old(self).pos, 0int,
    {
        match self.expect(TokenKind::LBracket) {
            Ok(_) => {},
            Err(e) => {
                return Err(e);
            },
        }
        let items = match self.parse_items(&TokenKind::RBracket) {
            Ok(items) => items,
            Err(e) => {
                return Err(e);
            },
        };
        match self.expect(TokenKind::RBracket) {
            Ok(_) => {},
            Err(e) => {
                return Err(e);
            },
        }
        Ok(Expression::Array(items))
    }

    fn parse_function_call(&mut self, name: String) -> (r: Result<Expression, PastelError>)
        requires
            old(self).wf(),
            old(self).at() > 0,
            old(self).toks()[old(self).at()].kind == Kind::LParen,
            old(self).toks()[old(self).at() - 1].kind == Kind::Ident(name@),
        ensures
            final(self).wf(),
            final(self).tokens == old(self).tokens,
            match r {
                Ok(e) => expr_spec(old(self).toks(), old(self).at() - 1) == Ok::<(crate::ast::Expr, int), crate::error::ErrorView>((expr_view(e), final(self).at()))
                    && final(self).at() > old(self).at(),
                Err(e) => expr_spec(old(self).toks(), old(self).at() - 1) == Err::<(crate::ast::Expr, int), crate::error::ErrorView>(e@),
            },
        decreases old(self).tokens.len() - old(self).pos, 0int,
    {
        match self.expect(TokenKind::LParen) {
            Ok(_) => {},
            Err(e) => {
                return Err(e);
            },
        }
        let args = match self.parse_items(&TokenKind::RParen) {
            Ok(items) => items,
            Err(e) => {
                return Err(e);
            },
        };
        match self.expect(TokenKind::RParen) {
            Ok(_) => {},
            Err(e) => {
                return Err(e);
            },
        }
        Ok(Expression::FunctionCall { name, args })
    }

    /// Parse: { key = value, key2 = value2, ... }
    fn parse_object(&mut self) -> (r: Result<Expression, PastelError>)
        requires
            old(self).wf(),
            old(self).toks()[old(self).at()].kind == Kind::LBrace,
        ensures
            final(self).wf(),
            final(self).tokens == old(self).tokens,
            match r {
                Ok(e) => expr_spec(old(self).toks(), old(self).at()) == Ok::<(crate::ast::Expr, int), crate::error::ErrorView>((expr_view(e), final(self).at()))
                    && final(self).at() > old(self).at(),
                Err(e) => expr_spec(old(self).toks(), old(self).at()) == Err::<(crate::ast::Expr, int), crate::error::ErrorView>(e@),
            },
        decreases old(self).tokens.len() - old(self).pos, 0int,
    {
        match self.expect(TokenKind::LBrace) {
            Ok(_) => {},
            Err(e) => {
                return Err(e);
            },
        }
        let mut entries: Vec<(String, Expression)> = Vec::new();
        let ghost start = self.at();
        while !self.check(&TokenKind::RBrace) && !self.is_at_end()
            invariant
                self.wf(),
                self.tokens == old(self).tokens,
                start == old(self).at() + 1,
                start <= self.at(),
                old(self).wf(),
                old(self).toks()[old(self).at()].kind == Kind::LBrace,
                object_spec(self.toks(), start, Seq::empty()) == object_spec(self.toks(), self.at(), pairs_view(entries@)),
            decreases self.tokens.len() - self.pos,
        {
            let key = match self.expect_ident() {
                Ok(k) => k,
                Err(e) => {
                    return Err(e);
                },
            };
            match self.expect(TokenKind::Equals) {
                Ok(_) => {},
                Err(e) => {
                    return Err(e);
                },
            }
            let value = match self.parse_expression() {
                Ok(v) => v,
                Err(e) => {
                    return Err(e);
                },
            };
            self.match_token(&TokenKind::Comma);
            let ghost prev = entries@;
            entries.push((key, value));
            proof {
                lemma_pairs_view_push(prev, (key, value));
            }
        }
        match self.expect(TokenKind::RBrace) {
            Ok(_) => {},
            Err(e) => {
                return Err(e);
            },
        }
        Ok(Expression::Object(entries))
    }

    fn parse_attribute(&mut self) -> (r: Result<Attribute, PastelError>)
        requires
            old(self).wf(),
        ensures
            final(self).wf(),
            final(self).tokens == old(self).tokens,
            match r {
                Ok(a) => attr_spec(old(self).toks(), old(self).at()) == Ok::<(crate::ast::AttrV, int), crate::error::ErrorView>((attr_view(a), final(self).at()))
                    && final(self).at() > old(self).at(),
                Err(e) => attr_spec(old(self).toks(), old(self).at()) == Err::<(crate::ast::AttrV, int), crate::error::ErrorView>(e@),
            },
    {
        let span = self.peek().span;
        let key = match self.expect_ident() {
            Ok(k) => k,
            Err(e) => {
                return Err(e);
            },
        };
        match self.expect(TokenKind::Equals) {
            Ok(_) => {},
            Err(e) => {
                return Err(e);
            },
        }
        let value = match self.parse_expression() {
            Ok(v) => v,
            Err(e) => {
                return Err(e);
            },
        };
        Ok(Attribute { key, value, span })
    }

    fn parse_attributes(&mut self) -> (r: Result<Vec<Attribute>, PastelError>)
        requires
            old(self).wf(),
        ensures
            final(self).wf(),
            final(self).tokens == old(self).tokens,
            match r {
                Ok(attrs) => attrs_spec(old(self).toks(), old(self).at(), Seq::empty()) == Ok::<(Seq<crate::ast::AttrV>, int), crate::error::ErrorView>((attrs_view(attrs@), final(self).at()))
                    && final(self).at() >= old(self).at(),
                Err(e) => attrs_spec(old(self).toks(), old(self).at(), Seq::empty()) == Err::<(Seq<crate::ast::AttrV>, int), crate::error::ErrorView>(e@),
            },
    {
        let mut attrs: Vec<Attribute> = Vec::new();
        let ghost start = self.at();
        proof {
            assert(attrs_view(attrs@) =~= Seq::<crate::ast::AttrV>::empty());
        }
        while !self.check(&TokenKind::RBrace) && !self.is_at_end()
            invariant
                self.wf(),
                self.tokens == old(self).tokens,
                start == old(self).at(),
                start <= self.at(),
                attrs_spec(self.toks(), start, Seq::empty()) == attrs_spec(self.toks(), self.at(), attrs_view(attrs@)),
            decreases self.tokens.len() - self.pos,
        {
            let a = match self.parse_attribute() {
                Ok(a) => a,
                Err(e) => {
                    return Err(e);
                },
            };
            self.match_token(&TokenKind::Comma);
            let ghost prev = attrs@;
            attrs.push(a);
            proof {
                lemma_attrs_view_push(prev, a);
            }
        }
        Ok(attrs)
    }

    fn parse_entry(&mut self) -> (r: Result<Attribute, PastelError>)
        requires
            old(self).wf(),
        ensures
            final(self).wf(),
            final(self).tokens == old(self).tokens,
            match r {
                Ok(a) => entry_spec(old(self).toks(), old(self).at()) == Ok::<(crate::ast::AttrV, int), crate::error::ErrorView>((attr_view(a), final(self).at()))
                    && final(self).at() > old(self).at(),
                Err(e) => entry_spec(old(self).toks(), old(self).at()) == Err::<(crate::ast::AttrV, int), crate::error::ErrorView>(e@),
            },
    {
        let span = self.peek().span;
        let key = match self.expect_ident_or_keyword() {
            Ok(k) => k,
            Err(e) => {
                return Err(e);
            },
        };
        match self.expect(TokenKind::Equals) {
            Ok(_) => {},
            Err(e) => {
                return Err(e);
            },
        }
        let value = match self.parse_expression() {
            Ok(v) => v,
            Err(e) => {
                return Err(e);
            },
        };
        Ok(Attribute { key, value, span })
    }

    /// The entries of a token block, up to its `}`.
    fn parse_entries(&mut self) -> (r: Result<Vec<Attribute>, PastelError>)
        requires
            old(self).wf(),
        ensures
            final(self).wf(),
            final(self).tokens == old(self).tokens,
            match r {
                Ok(attrs) => entries_spec(old(self).toks(), old(self).at(), Seq::empty()) == Ok::<(Seq<crate::ast::AttrV>, int), crate::error::ErrorView>((attrs_view(attrs@), final(self).at()))
                    && final(self).at() >= old(self).at(),
                Err(e) => entries_spec(old(self).toks(), old(self).at(), Seq::empty()) == Err::<(Seq<crate::ast::AttrV>, int), crate::error::ErrorView>(e@),
            },
    {
        let mut attrs: Vec<Attribute> = Vec::new();
        let ghost start = self.at();
        proof {
            assert(attrs_view(attrs@) =~= Seq::<crate::ast::AttrV>::empty());
        }
        while !self.check(&TokenKind::RBrace) && !self.is_at_end()
            invariant
                self.wf(),
                self.tokens == old(self).tokens,
                start == old(self).at(),
                start <= self.at(),
                entries_spec(self.toks(), start, Seq::empty()) == entries_spec(self.toks(), self.at(), attrs_view(attrs@)),
            decreases self.tokens.len() - self.pos,
        {
            let a = match self.parse_entry() {
                Ok(a) => a,
                Err(e) => {
                    return Err(e);
                },
            };
            self.match_token(&TokenKind::Comma);
            let ghost prev = attrs@;
            attrs.push(a);
            proof {
                lemma_attrs_view_push(prev, a);
            }
        }
        Ok(attrs)
    }

    /// Parse a node: frame/text/image/shape/use
    #[verifier::rlimit(40)]
    fn parse_node(&mut self) -> (r: Result<NodeDecl, PastelError>)
        requires
            old(self).wf(),
        ensures
            final(self).wf(),
            final(self).tokens == old(self).tokens,
            match r {
                Ok(n) => node_spec(old(self).toks(), old(self).at()) == Ok::<(crate::ast::NodeV, int), crate::error::ErrorView>((node_view(n), final(self).at()))
                    && final(self).at() > old(self).at(),
                Err(e) => node_spec(old(self).toks(), old(self).at()) == Err::<(crate::ast::NodeV, int), crate::error::ErrorView>(e@),
            },
        decreases old(self).tokens.len() - old(self).pos, 0int,
    {
        let tok = self.peek().duplicate();
        let kind = match &tok.kind {
            TokenKind::Frame => NodeKind::Frame,
            TokenKind::Text => NodeKind::Text,
            TokenKind::Image => NodeKind::Image,
            TokenKind::Shape => NodeKind::Shape,
            TokenKind::Use => {
                proof {
                    self.lemma_not_last();
                }
                self.pos = self.pos + 1;
                return self.parse_use_node(tok.span);
            },
            _ => {
                let mut msg = String::new();
                push_str(&mut msg, "expected node, found ");
                tok.kind.push_debug(&mut msg);
                return Err(PastelError::new(ErrorKind::UnexpectedToken, msg).with_span(tok.span));
            },
        };
        proof {
            self.lemma_not_last();
        }
        self.pos = self.pos + 1;
        let mut name: Option<String> = None;
        let mut label: Option<String> = None;
        if kind == NodeKind::Text {
            match &self.peek().kind {
                TokenKind::String(s) => {
                    label = Some(copy_string(s));
                    proof {
                        self.lemma_not_last();
                    }
                    self.pos = self.pos + 1;
                },
                _ => {},
            }
        }
        match &self.peek().kind {
            TokenKind::Ident(s) => {
                name = Some(copy_string(s));
                proof {
                    self.lemma_not_last();
                }
                self.pos = self.pos + 1;
            },
            _ => {},
        }
        match self.expect(TokenKind::LBrace) {
            Ok(_) => {},
            Err(e) => {
                return Err(e);
            },
        }
        let (attrs, children) = match self.parse_body() {
            Ok(b) => b,
            Err(e) => {
                return Err(e);
            },
        };
        match self.expect(TokenKind::RBrace) {
            Ok(_) => {},
            Err(e) => {
                return Err(e);
            },
        }
        Ok(NodeDecl { kind, name, label, attrs, children, span: tok.span })
    }

    /// The body of a node up to `}`: attributes and child nodes.
    fn parse_body(&mut self) -> (r: Result<(Vec<Attribute>, Vec<NodeDecl>), PastelError>)
        requires
            old(self).wf(),
        ensures
            final(self).wf(),
            final(self).tokens == old(self).tokens,
            match r {
                Ok((attrs, children)) => body_spec(old(self).toks(), old(self).at(), Seq::empty(), Seq::empty())
                    == Ok::<(Seq<crate::ast::AttrV>, Seq<crate::ast::NodeV>, int), crate::error::ErrorView>(
                    (attrs_view(attrs@), nodes_view(children@), final(self).at()),
                ) && final(self).at() >= old(self).at(),
                Err(e) => body_spec(old(self).toks(), old(self).at(), Seq::empty(), Seq::empty())
                    == Err::<(Seq<crate::ast::AttrV>, Seq<crate::ast::NodeV>, int), crate::error::ErrorView>(e@),
            },
        decreases old(self).tokens.len() - old(self).pos, 1int,
    {
        let mut attrs: Vec<Attribute> = Vec::new();
        let mut children: Vec<NodeDecl> = Vec::new();
        let ghost start = self.at();
        proof {
            assert(attrs_view(attrs@) =~= Seq::<crate::ast::AttrV>::empty());
            assert(nodes_view(children@) =~= Seq::<crate::ast::NodeV>::empty());
        }
        while !self.check(&TokenKind::RBrace) && !self.is_at_end()
            invariant
                self.wf(),
                self.tokens == old(self).tokens,
                start == old(self).at(),
                start <= self.at(),
                body_spec(self.toks(), start, Seq::empty(), Seq::empty()) == body_spec(self.toks(), self.at(), attrs_view(attrs@), nodes_view(children@)),
            decreases self.tokens.len() - self.pos,
        {
            let t = self.peek();
            if is_node_start_exec(&t.kind) {
                let child = match self.parse_node() {
                    Ok(c) => c,
                    Err(e) => {
                        return Err(e);
                    },
                };
                let ghost prev = children@;
                children.push(child);
                proof {
                    lemma_nodes_view_push(prev, child);
                }
            } else if is_ident(&t.kind) {
                let a = match self.parse_attribute() {
                    Ok(a) => a,
                    Err(e) => {
                        return Err(e);
                    },
                };
                self.match_token(&TokenKind::Comma);
                let ghost prev = attrs@;
                attrs.push(a);
                proof {
                    lemma_attrs_view_push(prev, a);
                }
            } else {
                let mut msg = String::new();
                push_str(&mut msg, "unexpected token ");
                t.kind.push_debug(&mut msg);
                push_str(&mut msg, " in node body");
                return Err(PastelError::new(ErrorKind::UnexpectedToken, msg).with_span(t.span));
            }
        }
        Ok((attrs, children))
    }

    /// Parse: use button("Sign Up", color = #333)
    fn parse_use_node(&mut self, span: crate::token::Span) -> (r: Result<NodeDecl, PastelError>)
        requires
            old(self).wf(),
            old(self).at() > 0,
        ensures
            final(self).wf(),
            final(self).tokens == old(self).tokens,
            match r {
                Ok(n) => use_spec(old(self).toks(), old(self).at(), span) == Ok::<(crate::ast::NodeV, int), crate::error::ErrorView>((node_view(n), final(self).at()))
                    && final(self).at() > old(self).at(),
                Err(e) => use_spec(old(self).toks(), old(self).at(), span) == Err::<(crate::ast::NodeV, int), crate::error::ErrorView>(e@),
            },
    {
        let component_name = match self.expect_ident() {
            Ok(n) => n,
            Err(e) => {
                return Err(e);
            },
        };
        match self.expect(TokenKind::LParen) {
            Ok(_) => {},
            Err(e) => {
                return Err(e);
            },
        }
        let (attrs, label) = match self.parse_use_args(span) {
            Ok(r) => r,
            Err(e) => {
                return Err(e);
            },
        };
        match self.expect(TokenKind::RParen) {
            Ok(_) => {},
            Err(e) => {
                return Err(e);
            },
        }
        Ok(NodeDecl { kind: NodeKind::Use, name: Some(component_name), label, attrs, children: Vec::new(), span })
    }

    /// The arguments of a `use` up to `)`.
    fn parse_use_args(&mut self, span: crate::token::Span) -> (r: Result<(Vec<Attribute>, Option<String>), PastelError>)
        requires
            old(self).wf(),
        ensures
            final(self).wf(),
            final(self).tokens == old(self).tokens,
            match r {
                Ok((attrs, label)) => use_args_spec(old(self).toks(), old(self).at(), Seq::empty(), None, 0, span)
                    == Ok::<(Seq<crate::ast::AttrV>, Option<Seq<char>>, int), crate::error::ErrorView>(
                    (attrs_view(attrs@), crate::ast::opt_view(label), final(self).at()),
                ) && final(self).at() >= old(self).at(),
                Err(e) => use_args_spec(old(self).toks(), old(self).at(), Seq::empty(), None, 0, span)
                    == Err::<(Seq<crate::ast::AttrV>, Option<Seq<char>>, int), crate::error::ErrorView>(e@),
            },
    {
        let mut attrs: Vec<Attribute> = Vec::new();
        let mut label: Option<String> = None;
        let mut arg_idx: usize = 0;
        let ghost start = self.at();
        proof {
            assert(attrs_view(attrs@) =~= Seq::<crate::ast::AttrV>::empty());
        }
        while !self.check(&TokenKind::RParen) && !self.is_at_end()
            invariant
                self.wf(),
                self.tokens == old(self).tokens,
                start == old(self).at(),
                start <= self.at(),
                arg_idx <= self.pos,
                use_args_spec(self.toks(), start, Seq::empty(), None, 0, span) == use_args_spec(
                    self.toks(),
                    self.at(),
                    attrs_view(attrs@),
                    crate::ast::opt_view(label),
                    arg_idx as nat,
                    span,
                ),
            decreases self.tokens.len() - self.pos,
        {
            let ghost q = self.at();
            let is_id = is_ident(&self.peek().kind);
            let named = is_id && self.next_is_equals();
            let ghost prev = attrs@;
            if named {
                let key = match self.expect_ident() {
                    Ok(k) => k,
                    Err(e) => {
                        return Err(e);
                    },
                };
                self.match_token(&TokenKind::Equals);
                let value = match self.parse_expression() {
                    Ok(v) => v,
                    Err(e) => {
                        return Err(e);
                    },
                };
                let a = Attribute { key, value, span };
                attrs.push(a);
                proof {
                    lemma_attrs_view_push(prev, a);
                }
            } else {
                let value = match self.parse_expression() {
                    Ok(v) => v,
                    Err(e) => {
                        return Err(e);
                    },
                };
                // First positional string becomes label
                if !is_id && label.is_none() {
                    match &value {
                        Expression::String(s) => {
                            label = Some(copy_string(s));
                        },
                        _ => {},
                    }
                }
                let mut key = String::new();
                push_str(&mut key, "__arg_");
                push_nat(&mut key, arg_idx as u64);
                let a = Attribute { key, value, span };
                attrs.push(a);
                proof {
                    lemma_attrs_view_push(prev, a);
                    assert(key@ =~= arg_key(arg_idx as nat));
                }
                arg_idx = arg_idx + 1;
            }
            self.match_token(&TokenKind::Comma);
        }
        Ok((attrs, label))
    }

    /// Whether the token after the next one is `=`.
    fn next_is_equals(&self) -> (b: bool)
        requires
            self.wf(),
        ensures
            b == is(self.toks(), self.at() + 1, Kind::Equals),
    {
        self.pos + 1 < self.tokens.len() && same_kind(&self.tokens[self.pos + 1].kind, &TokenKind::Equals)
    }
}

/// "expected WHAT, found TOKEN" at the token.
fn expected_error(what: &str, tok: &Token) -> (e: PastelError)
    ensures
        e@ == expected(what@, tok@),
{
    let mut msg = String::new();
    push_str(&mut msg, "expected ");
    push_str(&mut msg, what);
    push_str(&mut msg, ", found ");
    tok.kind.push_debug(&mut msg);
    PastelError::new(ErrorKind::ExpectedToken, msg).with_span(tok.span)
}

pub fn is_node_start_exec(k: &TokenKind) -> (b: bool)
    ensures
        b == is_node_start(k@),
{
    match k {
        TokenKind::Frame | TokenKind::Text | TokenKind::Image | TokenKind::Shape | TokenKind::Use => true,
        _ => false,
    }
}

pub fn is_ident(k: &TokenKind) -> (b: bool)
    ensures
        b == (k@ is Ident),
{
    match k {
        TokenKind::Ident(_) => true,
        _ => false,
    }
}

/// A kind without payload.
pub open spec fn payload_free(k: Kind) -> bool {
    !(k is Integer || k is Float || k is Str || k is Color || k is Bool || k is Ident)
}

pub fn is_eof(k: &TokenKind) -> (b: bool)
    ensures
        b == (k@ == Kind::Eof),
{
    match k {
        TokenKind::Eof => true,
        _ => false,
    }
}

/// Whether `actual` is the payload-free kind `expected`.
pub fn same_kind(actual: &TokenKind, expected: &TokenKind) -> (b: bool)
    requires
        payload_free(expected@),
    ensures
        b == (actual@ == expected@),
{
    match (actual, expected) {
        (TokenKind::Canvas, TokenKind::Canvas) => true,
        (TokenKind::Asset, TokenKind::Asset) => true,
        (TokenKind::Let, TokenKind::Let) => true,
        (TokenKind::Include, TokenKind::Include) => true,
        (TokenKind::Frame, TokenKind::Frame) => true,
        (TokenKind::Text, TokenKind::Text) => true,
        (TokenKind::Image, TokenKind::Image) => true,
        (TokenKind::Shape, TokenKind::Shape) => true,
        (TokenKind::Component, TokenKind::Component) => true,
        (TokenKind::Use, TokenKind::Use) => true,
        (TokenKind::Page, TokenKind::Page) => true,
        (TokenKind::LBrace, TokenKind::LBrace) => true,
        (TokenKind::RBrace, TokenKind::RBrace) => true,
        (TokenKind::LParen, TokenKind::LParen) => true,
        (TokenKind::RParen, TokenKind::RParen) => true,
        (TokenKind::LBracket, TokenKind::LBracket) => true,
        (TokenKind::RBracket, TokenKind::RBracket) => true,
        (TokenKind::Equals, TokenKind::Equals) => true,
        (TokenKind::Comma, TokenKind::Comma) => true,
        (TokenKind::Dot, TokenKind::Dot) => true,
        (TokenKind::Eof, TokenKind::Eof) => true,
        _ => false,
    }
}

} // verus!
