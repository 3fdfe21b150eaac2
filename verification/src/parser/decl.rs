use vstd::prelude::*;

use crate::ast::{
    asset_view, block_view, canvas_view, component_view, entry_view, include_view, let_view,
    nodes_view, page_view, param_view, program_view, AssetDecl, AssetV, CanvasDecl, CanvasV,
    ComponentDecl, ComponentParam, ComponentV, IncludeDecl, IncludeV, LetDecl, LetV, NodeV,
    PageDecl, PageV, ParamV, Program, ProgramV, TokenBlock, TokenBlockV, TokenEntry, TokenEntryV,
};
use crate::error::{ErrorKind, ErrorView, PastelError};
use crate::text::{owned, push_str, str_eq};
use crate::token::{Kind, TokenKind};
use super::grammar::{
    asset_spec, canvas_spec, component_spec, decl_hint, decl_spec, include_spec, let_spec,
    at_end, empty_program, page_nodes_spec, page_spec, params_spec, program_spec, token_block_spec,
};
use super::{is_node_start_exec, lemma_nodes_view_push, Parser};

verus! {

/// Whether a kind is the word `token`, which opens a token block.
fn is_token_word(k: &TokenKind) -> (b: bool)
    ensures
        b == (k@ == Kind::Ident("token"@)),
{
    match k {
        TokenKind::Ident(s) => str_eq(s.as_str(), "token"),
        _ => false,
    }
}

/// Whether a kind is the word `as`, which names the namespace of an include.
fn is_as_word(k: &TokenKind) -> (b: bool)
    ensures
        b == (k@ == Kind::Ident("as"@)),
{
    match k {
        TokenKind::Ident(s) => str_eq(s.as_str(), "as"),
        _ => false,
    }
}

impl Parser {
    fn parse_canvas(&mut self) -> (r: Result<CanvasDecl, PastelError>)
        requires
            old(self).wf(),
        ensures
            final(self).wf(),
            final(self).tokens == old(self).tokens,
            match r {
                Ok(c) => canvas_spec(old(self).toks(), old(self).at()) == Ok::<(CanvasV, int), ErrorView>((canvas_view(c), final(self).at()))
                    && final(self).at() > old(self).at(),
                Err(e) => canvas_spec(old(self).toks(), old(self).at()) == Err::<(CanvasV, int), ErrorView>(e@),
            },
    {
        proof {
            reveal(canvas_spec);
        }
        let span = match self.expect(TokenKind::Canvas) {
            Ok(t) => t.span,
            Err(e) => {
                return Err(e);
            },
        };
        let name = match self.expect_string() {
            Ok(s) => s,
            Err(e) => {
                return Err(e);
            },
        };
        match self.expect(TokenKind::LBrace) {
            Ok(_) => {},
            Err(e) => {
                return Err(e);
            },
        }
        let attrs = match self.parse_attributes() {
            Ok(a) => a,
            Err(e) => {
                return Err(e);
            },
        };
        match self.expect(TokenKind::RBrace) {
            Ok(_) => {},
            Err(e) => {
                return Err(e);
            },
        }
        Ok(CanvasDecl { name, attrs, span })
    }

    fn parse_asset(&mut self) -> (r: Result<AssetDecl, PastelError>)
        requires
            old(self).wf(),
        ensures
            final(self).wf(),
            final(self).tokens == old(self).tokens,
            match r {
                Ok(a) => asset_spec(old(self).toks(), old(self).at()) == Ok::<(AssetV, int), ErrorView>((asset_view(a), final(self).at()))
                    && final(self).at() > old(self).at(),
                Err(e) => asset_spec(old(self).toks(), old(self).at()) == Err::<(AssetV, int), ErrorView>(e@),
            },
    {
        proof {
            reveal(asset_spec);
        }
        let span = match self.expect(TokenKind::Asset) {
            Ok(t) => t.span,
            Err(e) => {
                return Err(e);
            },
        };
        let name = match self.expect_ident() {
            Ok(s) => s,
            Err(e) => {
                return Err(e);
            },
        };
        match self.expect(TokenKind::Equals) {
            Ok(_) => {},
            Err(e) => {
                return Err(e);
            },
        }
        let kind = match self.expect_ident_or_keyword() {
            Ok(s) => s,
            Err(e) => {
                return Err(e);
            },
        };
        match self.expect(TokenKind::LParen) {
            Ok(_) => {},
            Err(e) => {
                return Err(e);
            },
        }
        let path = match self.expect_string() {
            Ok(s) => s,
            Err(e) => {
                return Err(e);
            },
        };
        match self.expect(TokenKind::RParen) {
            Ok(_) => {},
            Err(e) => {
                return Err(e);
            },
        }
        Ok(AssetDecl { name, kind, path, span })
    }

    fn parse_let(&mut self) -> (r: Result<LetDecl, PastelError>)
        requires
            old(self).wf(),
        ensures
            final(self).wf(),
            final(self).tokens == old(self).tokens,
            match r {
                Ok(l) => let_spec(old(self).toks(), old(self).at()) == Ok::<(LetV, int), ErrorView>((let_view(l), final(self).at()))
                    && final(self).at() > old(self).at(),
                Err(e) => let_spec(old(self).toks(), old(self).at()) == Err::<(LetV, int), ErrorView>(e@),
            },
    {
        proof {
            reveal(let_spec);
        }
        let span = match self.expect(TokenKind::Let) {
            Ok(t) => t.span,
            Err(e) => {
                return Err(e);
            },
        };
        let name = match self.expect_ident() {
            Ok(s) => s,
            Err(e) => {
                return Err(e);
            },
        };
        match self.expect(TokenKind::Equals) {
            Ok(_) => {},
            Err(e) => {
                return Err(e);
            },
        }
        let value = match self.parse_expression() {
            Ok(v) => v,
            Err(e) => {
                return Err(e);
            },
        };
        Ok(LetDecl { name, value, span })
    }

    fn parse_include(&mut self) -> (r: Result<IncludeDecl, PastelError>)
        requires
            old(self).wf(),
        ensures
            final(self).wf(),
            final(self).tokens == old(self).tokens,
            match r {
                Ok(i) => include_spec(old(self).toks(), old(self).at()) == Ok::<(IncludeV, int), ErrorView>((include_view(i), final(self).at()))
                    && final(self).at() > old(self).at(),
                Err(e) => include_spec(old(self).toks(), old(self).at()) == Err::<(IncludeV, int), ErrorView>(e@),
            },
    {
        proof {
            reveal(include_spec);
        }
        let span = match self.expect(TokenKind::Include) {
            Ok(t) => t.span,
            Err(e) => {
                return Err(e);
            },
        };
        let path = match self.expect_string() {
            Ok(s) => s,
            Err(e) => {
                return Err(e);
            },
        };
        if is_as_word(&self.peek().kind) {
            proof {
                self.lemma_not_last();
            }
            self.pos = self.pos + 1;
            let ns = match self.expect_ident() {
                Ok(s) => s,
                Err(e) => {
                    return Err(e);
                },
            };
            Ok(IncludeDecl { path, namespace: Some(ns), span })
        } else {
            Ok(IncludeDecl { path, namespace: None, span })
        }
    }

    /// Parse: component button(label, color = primary) { ... }
    fn parse_component(&mut self) -> (r: Result<ComponentDecl, PastelError>)
        requires
            old(self).wf(),
        ensures
            final(self).wf(),
            final(self).tokens == old(self).tokens,
            match r {
                Ok(c) => component_spec(old(self).toks(), old(self).at()) == Ok::<(ComponentV, int), ErrorView>((component_view(c), final(self).at()))
                    && final(self).at() > old(self).at(),
                Err(e) => component_spec(old(self).toks(), old(self).at()) == Err::<(ComponentV, int), ErrorView>(e@),
            },
    {
        proof {
            reveal(component_spec);
        }
        let span = match self.expect(TokenKind::Component) {
            Ok(t) => t.span,
            Err(e) => {
                return Err(e);
            },
        };
        let name = match self.expect_ident() {
            Ok(s) => s,
            Err(e) => {
                return Err(e);
            },
        };
        match self.expect(TokenKind::LParen) {
            Ok(_) => {},
            Err(e) => {
                return Err(e);
            },
        }
        let params = match self.parse_params() {
            Ok(p) => p,
            Err(e) => {
                return Err(e);
            },
        };
        match self.expect(TokenKind::RParen) {
            Ok(_) => {},
            Err(e) => {
                return Err(e);
            },
        }
        // Component body: { node }
        match self.expect(TokenKind::LBrace) {
            Ok(_) => {},
            Err(e) => {
                return Err(e);
            },
        }
        let body = match self.parse_node() {
            Ok(n) => n,
            Err(e) => {
                return Err(e);
            },
        };
        match self.expect(TokenKind::RBrace) {
            Ok(_) => {},
            Err(e) => {
                return Err(e);
            },
        }
        Ok(ComponentDecl { name, params, body, span })
    }

    /// The parameters of a component up to `)`.
    fn parse_params(&mut self) -> (r: Result<Vec<ComponentParam>, PastelError>)
        requires
            old(self).wf(),
        ensures
            final(self).wf(),
            final(self).tokens == old(self).tokens,
            match r {
                Ok(ps) => params_spec(old(self).toks(), old(self).at(), Seq::empty()) == Ok::<(Seq<ParamV>, int), ErrorView>(
                    (ps@.map_values(|p: ComponentParam| param_view(p)), final(self).at()),
                ) && final(self).at() >= old(self).at(),
                Err(e) => params_spec(old(self).toks(), old(self).at(), Seq::empty()) == Err::<(Seq<ParamV>, int), ErrorView>(e@),
            },
    {
        let mut params: Vec<ComponentParam> = Vec::new();
        let ghost start = self.at();
        proof {
            assert(params@.map_values(|p: ComponentParam| param_view(p)) =~= Seq::<ParamV>::empty());
        }
        while !self.check(&TokenKind::RParen) && !self.is_at_end()
            invariant
                self.wf(),
                self.tokens == old(self).tokens,
                start == old(self).at(),
                start <= self.at(),
                params_spec(self.toks(), start, Seq::empty()) == params_spec(
                    self.toks(),
                    self.at(),
                    params@.map_values(|p: ComponentParam| param_view(p)),
                ),
            decreases self.tokens.len() - self.pos,
        {
            let param_name = match self.expect_ident() {
                Ok(s) => s,
                Err(e) => {
                    return Err(e);
                },
            };
            let default = if self.match_token(&TokenKind::Equals) {
                match self.parse_expression() {
                    Ok(v) => Some(v),
                    Err(e) => {
                        return Err(e);
                    },
                }
            } else {
                None
            };
            self.match_token(&TokenKind::Comma);
            let p = ComponentParam { name: param_name, default };
            let ghost prev = params@;
            params.push(p);
            proof {
                assert(params@.map_values(|p: ComponentParam| param_view(p)) =~= prev.map_values(
                    |p: ComponentParam| param_view(p),
                ).push(param_view(p)));
            }
        }
        Ok(params)
    }

    /// Parse: page "name" { frame ... text ... }
    fn parse_page(&mut self) -> (r: Result<PageDecl, PastelError>)
        requires
            old(self).wf(),
        ensures
            final(self).wf(),
            final(self).tokens == old(self).tokens,
            match r {
                Ok(p) => page_spec(old(self).toks(), old(self).at()) == Ok::<(PageV, int), ErrorView>((page_view(p), final(self).at()))
                    && final(self).at() > old(self).at(),
                Err(e) => page_spec(old(self).toks(), old(self).at()) == Err::<(PageV, int), ErrorView>(e@),
            },
    {
        proof {
            reveal(page_spec);
        }
        let span = match self.expect(TokenKind::Page) {
            Ok(t) => t.span,
            Err(e) => {
                return Err(e);
            },
        };
        let name = match self.expect_string() {
            Ok(s) => s,
            Err(e) => {
                return Err(e);
            },
        };
        match self.expect(TokenKind::LBrace) {
            Ok(_) => {},
            Err(e) => {
                return Err(e);
            },
        }
        let nodes = match self.parse_page_nodes() {
            Ok(n) => n,
            Err(e) => {
                return Err(e);
            },
        };
        match self.expect(TokenKind::RBrace) {
            Ok(_) => {},
            Err(e) => {
                return Err(e);
            },
        }
        Ok(PageDecl { name, nodes, span })
    }

    /// The nodes of a page up to `}`.
    fn parse_page_nodes(&mut self) -> (r: Result<Vec<crate::ast::NodeDecl>, PastelError>)
        requires
            old(self).wf(),
        ensures
            final(self).wf(),
            final(self).tokens == old(self).tokens,
            match r {
                Ok(ns) => page_nodes_spec(old(self).toks(), old(self).at(), Seq::empty()) == Ok::<(Seq<NodeV>, int), ErrorView>(
                    (nodes_view(ns@), final(self).at()),
                ) && final(self).at() >= old(self).at(),
                Err(e) => page_nodes_spec(old(self).toks(), old(self).at(), Seq::empty()) == Err::<(Seq<NodeV>, int), ErrorView>(e@),
            },
    {
        let mut nodes: Vec<crate::ast::NodeDecl> = Vec::new();
        let ghost start = self.at();
        proof {
            assert(nodes_view(nodes@) =~= Seq::<NodeV>::empty());
        }
        while !self.check(&TokenKind::RBrace) && !self.is_at_end()
            invariant
                self.wf(),
                self.tokens == old(self).tokens,
                start == old(self).at(),
                start <= self.at(),
                page_nodes_spec(self.toks(), start, Seq::empty()) == page_nodes_spec(self.toks(), self.at(), nodes_view(nodes@)),
            decreases self.tokens.len() - self.pos,
        {
            let t = self.peek();
            if is_node_start_exec(&t.kind) {
                let n = match self.parse_node() {
                    Ok(n) => n,
                    Err(e) => {
                        return Err(e);
                    },
                };
                let ghost prev = nodes@;
                nodes.push(n);
                proof {
                    lemma_nodes_view_push(prev, n);
                }
            } else {
                let mut msg = String::new();
                push_str(&mut msg, "unexpected token ");
                t.kind.push_debug(&mut msg);
                push_str(&mut msg, " in page body");
                return Err(
                    PastelError::new(ErrorKind::UnexpectedToken, msg).with_span(t.span).with_hint(
                        owned("pages can only contain node declarations"),
                    ),
                );
            }
        }
        Ok(nodes)
    }

    /// Parse: token name { key = value ... }
    fn parse_token_block(&mut self) -> (r: Result<TokenBlock, PastelError>)
        requires
            old(self).wf(),
            old(self).toks()[old(self).at()].kind == Kind::Ident("token"@),
        ensures
            final(self).wf(),
            final(self).tokens == old(self).tokens,
            match r {
                Ok(b) => token_block_spec(old(self).toks(), old(self).at()) == Ok::<(TokenBlockV, int), ErrorView>((block_view(b), final(self).at()))
                    && final(self).at() > old(self).at(),
                Err(e) => token_block_spec(old(self).toks(), old(self).at()) == Err::<(TokenBlockV, int), ErrorView>(e@),
            },
    {
        proof {
            reveal(token_block_spec);
        }
        let span = self.peek().span;
        proof {
            self.lemma_not_last();
        }
        self.pos = self.pos + 1;
        let name = match self.expect_ident() {
            Ok(s) => s,
            Err(e) => {
                return Err(e);
            },
        };
        match self.expect(TokenKind::LBrace) {
            Ok(_) => {},
            Err(e) => {
                return Err(e);
            },
        }
        let attrs = match self.parse_entries() {
            Ok(a) => a,
            Err(e) => {
                return Err(e);
            },
        };
        match self.expect(TokenKind::RBrace) {
            Ok(_) => {},
            Err(e) => {
                return Err(e);
            },
        }
        let mut entries: Vec<TokenEntry> = Vec::new();
        let mut attrs = attrs;
        let ghost all = attrs@;
        // The entries keep the order of the attributes they come from.
        proof {
            assert(entries@.map_values(|e: TokenEntry| entry_view(e)) =~= Seq::<TokenEntryV>::empty());
        }
        while attrs.len() > 0
            invariant
                entries.len() + attrs.len() == all.len(),
                forall|j: int| 0 <= j < attrs.len() ==> #[trigger] attrs@[j] == all[entries.len() + j],
                forall|j: int| 0 <= j < entries.len() ==> entry_view(#[trigger] entries@[j]) == (TokenEntryV {
                    key: all[j].key@,
                    value: crate::ast::expr_view(all[j].value),
                    span: all[j].span,
                }),
            decreases attrs.len(),
        {
            let a = attrs.remove(0);
            entries.push(TokenEntry { key: a.key, value: a.value, span: a.span });
        }
        let b = TokenBlock { name, entries, span };
        proof {
            assert(block_view(b).entries =~= crate::ast::attrs_view(all).map_values(
                |a: crate::ast::AttrV| TokenEntryV { key: a.key, value: a.value, span: a.span },
            ));
        }
        Ok(b)
    }

    /// One top-level declaration, added to the program.
    fn parse_declaration(&mut self, program: &mut Program) -> (r: Result<(), PastelError>)
        requires
            old(self).wf(),
            !at_end(old(self).toks(), old(self).at()),
        ensures
            final(self).wf(),
            final(self).tokens == old(self).tokens,
            match r {
                Ok(_) => decl_spec(old(self).toks(), old(self).at(), program_view(*old(program))) == Ok::<(ProgramV, int), ErrorView>(
                    (program_view(*final(program)), final(self).at()),
                ) && final(self).at() > old(self).at(),
                Err(e) => decl_spec(old(self).toks(), old(self).at(), program_view(*old(program))) == Err::<(ProgramV, int), ErrorView>(e@),
            },
    {
        proof {
            reveal(decl_spec);
        }
        let ghost g = program_view(*program);
        if self.check(&TokenKind::Canvas) {
            let c = match self.parse_canvas() {
                Ok(c) => c,
                Err(e) => {
                    return Err(e);
                },
            };
            program.canvas = Some(c);
            proof {
                assert(program_view(*program) =~= (ProgramV { canvas: Some(canvas_view(c)), ..g }));
            }
        } else if self.check(&TokenKind::Asset) {
            let a = match self.parse_asset() {
                Ok(a) => a,
                Err(e) => {
                    return Err(e);
                },
            };
            program.assets.push(a);
            proof {
                assert(program_view(*program) =~= (ProgramV { assets: g.assets.push(asset_view(a)), ..g }));
            }
        } else if self.check(&TokenKind::Let) {
            let l = match self.parse_let() {
                Ok(l) => l,
                Err(e) => {
                    return Err(e);
                },
            };
            program.variables.push(l);
            proof {
                assert(program_view(*program) =~= (ProgramV { variables: g.variables.push(let_view(l)), ..g }));
            }
        } else if self.check(&TokenKind::Include) {
            let i = match self.parse_include() {
                Ok(i) => i,
                Err(e) => {
                    return Err(e);
                },
            };
            program.includes.push(i);
            proof {
                assert(program_view(*program) =~= (ProgramV { includes: g.includes.push(include_view(i)), ..g }));
            }
        } else if self.check(&TokenKind::Component) {
            let c = match self.parse_component() {
                Ok(c) => c,
                Err(e) => {
                    return Err(e);
                },
            };
            program.components.push(c);
            proof {
                assert(program_view(*program) =~= (ProgramV { components: g.components.push(component_view(c)), ..g }));
            }
        } else if self.check(&TokenKind::Page) {
            let pg = match self.parse_page() {
                Ok(pg) => pg,
                Err(e) => {
                    return Err(e);
                },
            };
            program.pages.push(pg);
            proof {
                assert(program_view(*program) =~= (ProgramV { pages: g.pages.push(page_view(pg)), ..g }));
            }
        } else if is_node_start_exec(&self.peek().kind) {
            let n = match self.parse_node() {
                Ok(n) => n,
                Err(e) => {
                    return Err(e);
                },
            };
            let ghost prev = program.nodes@;
            program.nodes.push(n);
            proof {
                lemma_nodes_view_push(prev, n);
                assert(program_view(*program) =~= (ProgramV { nodes: g.nodes.push(crate::ast::node_view(n)), ..g }));
            }
        } else if is_token_word(&self.peek().kind) {
            let b = match self.parse_token_block() {
                Ok(b) => b,
                Err(e) => {
                    return Err(e);
                },
            };
            program.token_blocks.push(b);
            proof {
                assert(program_view(*program) =~= (ProgramV { token_blocks: g.token_blocks.push(block_view(b)), ..g }));
            }
        } else {
            let tok = self.peek();
            let mut msg = String::new();
            push_str(&mut msg, "expected top-level declaration, found ");
            tok.kind.push_debug(&mut msg);
            return Err(
                PastelError::new(ErrorKind::ExpectedDeclaration, msg).with_span(tok.span).with_hint(
                    owned(
                        "expected: canvas, asset, let, include, component, page, frame, text, image, shape, use",
                    ),
                ),
            );
        }
        Ok(())
    }

    /// Parse the whole token stream into a program.
    pub fn parse(&mut self) -> (r: Result<Program, PastelError>)
        requires
            old(self).wf(),
        ensures
            final(self).wf(),
            match r {
                Ok(p) => program_spec(old(self).toks(), old(self).at(), empty_program()) == Ok::<ProgramV, ErrorView>(program_view(p)),
                Err(e) => program_spec(old(self).toks(), old(self).at(), empty_program()) == Err::<ProgramV, ErrorView>(e@),
            },
    {
        let mut program = Program {
            canvas: None,
            assets: Vec::new(),
            variables: Vec::new(),
            includes: Vec::new(),
            components: Vec::new(),
            nodes: Vec::new(),
            pages: Vec::new(),
            token_blocks: Vec::new(),
        };
        let ghost start = self.at();
        proof {
            assert(program_view(program) =~= empty_program());
        }
        while !self.is_at_end()
            invariant
                self.wf(),
                self.tokens == old(self).tokens,
                start == old(self).at(),
                program_spec(self.toks(), start, empty_program()) == program_spec(self.toks(), self.at(), program_view(program)),
            decreases self.tokens.len() - self.pos,
        {
            match self.parse_declaration(&mut program) {
                Ok(_) => {},
                Err(e) => {
                    return Err(e);
                },
            }
        }
        Ok(program)
    }
}

} // verus!
