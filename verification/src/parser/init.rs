//! Driving the parser over a whole token range: the top-level walk that
//! finds `fn` declarations, and the program entry `bootp` used both for a
//! whole source and, recursively, for the body of a declaration.
use vstd::prelude::*;
use crate::token::defs::{Token, TT};
use crate::token::lexer::tokens_view;
use crate::ast::defs::{NodeT, GNode, deep_nodes};
use crate::err::def::PErr;
use crate::parser::Parser;
use crate::parser::spec::{
    GErr, errs_view, parse_prog_from, parse_prog_spec, parse_fn_spec, lemma_parse_fn_next,
};

verus! {

/// Copies a token list; the copy has the same model.
fn clone_tokens(tokens: &Vec<Token>) -> (r: Vec<Token>)
    ensures
        tokens_view(r@) == tokens_view(tokens@),
        r@.len() == tokens@.len(),
{
    let mut out: Vec<Token> = Vec::new();
    let mut i: usize = 0;
    proof {
        assert(tokens_view(out@) =~= tokens_view(tokens@).subrange(0, 0));
    }
    while i < tokens.len()
        invariant
            i <= tokens@.len(),
            out@.len() == i as int,
            tokens_view(out@) == tokens_view(tokens@).subrange(0, i as int),
        decreases tokens@.len() - i,
    {
        let t = tokens[i].clone();
        out.push(t);
        i = i + 1;
        proof {
            assert(tokens_view(out@) =~= tokens_view(tokens@).subrange(0, i as int));
        }
    }
    proof {
        assert(tokens_view(tokens@).subrange(0, tokens@.len() as int) =~= tokens_view(tokens@));
    }
    out
}

impl Parser {
    /// Walks the token range from the cursor on: each `fn` opens a
    /// declaration, every other token is skipped, and a fatal diagnostic
    /// stops the walk. The nodes and diagnostics produced are exactly
    /// those of `parse_prog_from` at the cursor.
    pub fn parse(&mut self)
        requires
            old(self).wf(),
            !old(self).fatal_spec(),
            old(self).toks().len() < usize::MAX,
        ensures
            final(self).wf(),
            final(self).toks() == old(self).toks(),
            final(self).nested_spec() == old(self).nested_spec(),
            ({
                let p = parse_prog_from(old(self).toks(), old(self).pos_spec());
                &&& final(self).ast_model() == old(self).ast_model() + p.nodes
                &&& final(self).errs_model() == old(self).errs_model() + p.errs
                &&& final(self).fatal_spec() == p.fatal
            }),
        decreases old(self).tokens@.len(), 1int,
    {
        let ghost toks = self.toks();
        let ghost p0 = self.pos as int;
        let ghost bigp = parse_prog_from(toks, p0);
        let ghost a0 = self.ast_model();
        let ghost e0 = self.errs_model();
        while self.pos < self.tokens.len() && !self.fatal
            invariant
                self.wf(),
                self.toks() == toks,
                self.nested_spec() == old(self).nested_spec(),
                toks.len() < usize::MAX,
                p0 <= self.pos_spec(),
                !self.fatal_spec() ==> ({
                    let rec = parse_prog_from(toks, self.pos_spec());
                    &&& a0 + bigp.nodes == self.ast_model() + rec.nodes
                    &&& e0 + bigp.errs == self.errs_model() + rec.errs
                    &&& bigp.fatal == rec.fatal
                }),
                self.fatal_spec() ==> ({
                    &&& self.ast_model() == a0 + bigp.nodes
                    &&& self.errs_model() == e0 + bigp.errs
                    &&& bigp.fatal
                }),
            decreases toks.len() - self.pos_spec(),
        {
            let ghost pos0 = self.pos_spec();
            let ghost rec = parse_prog_from(toks, pos0);
            if self.cur.TT == TT::FN {
                proof {
                    assert(toks[pos0].tt == TT::FN);
                    lemma_parse_fn_next(toks, pos0 + 1);
                }
                self.mv();
                let ghost d = parse_fn_spec(toks, pos0 + 1);
                self.pfunc();
                proof {
                    if d.fatal {
                        assert(self.ast_model() =~= a0 + bigp.nodes);
                        assert(self.errs_model() =~= e0 + bigp.errs);
                    } else {
                        let rec2 = parse_prog_from(toks, self.pos_spec());
                        assert(self.pos_spec() == d.next);
                        assert(rec.nodes =~= (match d.node {
                            Some(f) => seq![GNode::FunDef(f)],
                            None => Seq::<GNode>::empty(),
                        }) + rec2.nodes);
                        assert(rec.errs =~= d.errs + rec2.errs);
                        assert(a0 + bigp.nodes =~= self.ast_model() + rec2.nodes);
                        assert(e0 + bigp.errs =~= self.errs_model() + rec2.errs);
                    }
                }
            } else {
                proof {
                    assert(!(toks[pos0].tt == TT::FN));
                }
                self.mv();
            }
        }
        proof {
            if !self.fatal_spec() {
                assert(self.pos_spec() >= toks.len());
                let rec = parse_prog_from(toks, self.pos_spec());
                assert(rec.nodes =~= Seq::<GNode>::empty());
                assert(rec.errs =~= Seq::<GErr>::empty());
                assert(self.ast_model() =~= a0 + bigp.nodes);
                assert(self.errs_model() =~= e0 + bigp.errs);
            }
        }
    }
}

/// Parses a whole token range as a program: the entry used for a source
/// file's tokens, and recursively for the tokens of a function body (with
/// `fromfn` set). Returns the nodes, the diagnostics in document order,
/// and whether a fatal diagnostic stopped the parse.
pub fn bootp(tokens: &Vec<Token>, fromfn: bool) -> (r: (Vec<NodeT>, Vec<PErr>, bool))
    requires
        tokens@.len() < usize::MAX,
    ensures
        ({
            let p = parse_prog_spec(tokens_view(tokens@), fromfn);
            &&& deep_nodes(r.0@) == p.nodes
            &&& errs_view(r.1@) == p.errs
            &&& r.2 == p.fatal
        }),
    decreases tokens@.len(), 2int,
{
    let toks2 = clone_tokens(tokens);
    let mut p = Parser::with_context(toks2, fromfn);
    p.parse();
    proof {
        let pr = parse_prog_from(tokens_view(tokens@), 0);
        assert(p.ast_model() =~= pr.nodes);
        assert(p.errs_model() =~= pr.errs);
    }
    let fatal = p.fatal;
    (p.ast, p.errs, fatal)
}

} // verus!
