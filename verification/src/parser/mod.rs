pub mod spec;
pub mod func;
pub mod init;
pub mod props;

use vstd::prelude::*;
use crate::token::defs::{Token, TT, GTok};
use crate::token::lexer::tokens_view;
use crate::ast::defs::{NodeT, GNode, deep_nodes, lemma_deep_nodes_push};
use crate::err::def::{PErr, ErrT};
use crate::parser::spec::{GErr, tok_at, eoi_tok, errs_view, perr_view};

verus! {

/// The function parser: a cursor over a token list, the syntax tree built
/// so far, and the recorded diagnostics. A fatal diagnostic (`RetTNF`)
/// sets `fatal` and stops the parse; everything collected before it is
/// kept.
pub struct Parser {
    pub tokens: Vec<Token>,
    pub pos: usize,
    pub cur: Token,
    pub ast: Vec<NodeT>,
    pub errs: Vec<PErr>,
    pub fatal: bool,
    pub nested: bool,
}

/// The end-of-stream sentinel for a token list: kind `Nil` with a
/// single-point span just past the last token.
fn sentinel(tokens: &Vec<Token>) -> (r: Token)
    ensures
        r@ == eoi_tok(tokens_view(tokens@)),
{
    if tokens.len() > 0 {
        let line = tokens[tokens.len() - 1].line;
        let end = tokens[tokens.len() - 1].end;
        proof {
            assert(tokens_view(tokens@)[tokens@.len() - 1] == tokens@[tokens@.len() - 1]@);
        }
        Token::new(TT::Nil, line, end, end)
    } else {
        Token::new(TT::Nil, 0, 0, 0)
    }
}

impl Parser {
    /// The model of the token list.
    pub open spec fn toks(&self) -> Seq<GTok> {
        tokens_view(self.tokens@)
    }

    /// The cursor position.
    pub open spec fn pos_spec(&self) -> int {
        self.pos as int
    }

    /// The model of the syntax tree built so far.
    pub open spec fn ast_model(&self) -> Seq<GNode> {
        deep_nodes(self.ast@)
    }

    /// The model of the diagnostics recorded so far.
    pub open spec fn errs_model(&self) -> Seq<GErr> {
        errs_view(self.errs@)
    }

    /// Whether a fatal diagnostic has stopped the parse.
    pub open spec fn fatal_spec(&self) -> bool {
        self.fatal
    }

    /// Whether this parser runs inside a function body.
    pub open spec fn nested_spec(&self) -> bool {
        self.nested
    }

    /// Well-formedness: the cursor is within bounds and the cached current
    /// token is the one at the cursor, or the sentinel at the end.
    pub open spec fn wf(&self) -> bool {
        &&& self.pos <= self.tokens@.len()
        &&& self.cur@ == tok_at(self.toks(), self.pos as int)
    }

    /// Builds a parser over a token list, with the context flag that marks
    /// a recursive parse of a function body.
    pub fn with_context(tokens: Vec<Token>, in_nested_context: bool) -> (r: Parser)
        ensures
            r.wf(),
            r.toks() == tokens_view(tokens@),
            r.pos_spec() == 0,
            r.ast_model() == Seq::<GNode>::empty(),
            r.errs_model() == Seq::<GErr>::empty(),
            !r.fatal_spec(),
            r.nested_spec() == in_nested_context,
    {
        let cur = if tokens.len() > 0 {
            let c = tokens[0].clone();
            c
        } else {
            sentinel(&tokens)
        };
        proof {
            if tokens@.len() > 0 {
                assert(tokens_view(tokens@)[0] == tokens@[0]@);
            }
            assert(errs_view(Seq::<PErr>::empty()) =~= Seq::<GErr>::empty());
        }
        Parser { tokens, pos: 0, cur, ast: Vec::new(), errs: Vec::new(), fatal: false, nested: false || in_nested_context }
    }

    /// Builds a top-level parser over a token list.
    pub fn new(tokens: Vec<Token>) -> (r: Parser)
        ensures
            r.wf(),
            r.toks() == tokens_view(tokens@),
            r.pos_spec() == 0,
            r.ast_model() == Seq::<GNode>::empty(),
            r.errs_model() == Seq::<GErr>::empty(),
            !r.fatal_spec(),
            !r.nested_spec(),
    {
        Parser::with_context(tokens, false)
    }

    /// Advances the cursor to the next token; at the end it stays on the
    /// sentinel.
    pub fn mv(&mut self)
        requires
            old(self).wf(),
        ensures
            final(self).wf(),
            final(self).toks() == old(self).toks(),
            final(self).pos_spec() == if old(self).pos_spec() < old(self).toks().len() {
                old(self).pos_spec() + 1
            } else {
                old(self).pos_spec()
            },
            final(self).ast_model() == old(self).ast_model(),
            final(self).errs_model() == old(self).errs_model(),
            final(self).fatal_spec() == old(self).fatal_spec(),
            final(self).nested_spec() == old(self).nested_spec(),
    {
        if self.pos < self.tokens.len() {
            self.pos = self.pos + 1;
            if self.pos < self.tokens.len() {
                self.cur = self.tokens[self.pos].clone();
                proof {
                    assert(tokens_view(self.tokens@)[self.pos as int] == self.tokens@[self.pos as int]@);
                }
            } else {
                self.cur = sentinel(&self.tokens);
            }
        }
    }

    /// The token under the cursor, or the sentinel at the end.
    pub fn current(&self) -> (r: &Token)
        requires
            self.wf(),
        ensures
            r@ == tok_at(self.toks(), self.pos_spec()),
    {
        &self.cur
    }

    /// The token one past the cursor, without advancing.
    pub fn peek(&self) -> (r: Option<&Token>)
        requires
            self.wf(),
        ensures
            match r {
                Some(t) => self.pos_spec() + 1 < self.toks().len() && t@ == self.toks()[self.pos_spec() + 1],
                None => self.pos_spec() + 1 >= self.toks().len(),
            },
    {
        if self.tokens.len() - self.pos > 1 {
            proof {
                assert(tokens_view(self.tokens@)[self.pos + 1] == self.tokens@[self.pos + 1]@);
            }
            Some(&self.tokens[self.pos + 1])
        } else {
            None
        }
    }

    /// Consumes the current token when it equals the expected one.
    pub fn eat(&mut self, expected: &Token) -> (r: bool)
        requires
            old(self).wf(),
        ensures
            final(self).wf(),
            final(self).toks() == old(self).toks(),
            r == (tok_at(old(self).toks(), old(self).pos_spec()) == expected@),
            final(self).pos_spec() == if r && old(self).pos_spec() < old(self).toks().len() {
                old(self).pos_spec() + 1
            } else {
                old(self).pos_spec()
            },
            final(self).ast_model() == old(self).ast_model(),
            final(self).errs_model() == old(self).errs_model(),
            final(self).fatal_spec() == old(self).fatal_spec(),
            final(self).nested_spec() == old(self).nested_spec(),
    {
        let same = self.cur == *expected;
        if same {
            self.mv();
            true
        } else {
            false
        }
    }

    /// Drops the tokens already passed over; the cursor is reset to the
    /// start of what remains.
    pub fn privdrop(&mut self)
        requires
            old(self).wf(),
        ensures
            final(self).wf(),
            final(self).toks() == old(self).toks().skip(old(self).pos_spec()),
            final(self).pos_spec() == 0,
            final(self).ast_model() == old(self).ast_model(),
            final(self).errs_model() == old(self).errs_model(),
            final(self).fatal_spec() == old(self).fatal_spec(),
            final(self).nested_spec() == old(self).nested_spec(),
    {
        let ghost oldtoks = tokens_view(self.tokens@);
        let ghost p = self.pos as int;
        let mut rest: Vec<Token> = Vec::new();
        let mut i: usize = self.pos;
        while i < self.tokens.len()
            invariant
                self.pos <= i <= self.tokens@.len(),
                tokens_view(rest@) == tokens_view(self.tokens@).subrange(self.pos as int, i as int),
            decreases self.tokens@.len() - i,
        {
            let t = self.tokens[i].clone();
            rest.push(t);
            i = i + 1;
            proof {
                assert(tokens_view(rest@) =~= tokens_view(self.tokens@).subrange(self.pos as int, i as int));
            }
        }
        proof {
            assert(tokens_view(rest@) =~= oldtoks.skip(p));
        }
        self.tokens = rest;
        self.pos = 0;
        self.cur = if self.tokens.len() > 0 {
            let c = self.tokens[0].clone();
            proof {
                assert(tokens_view(self.tokens@)[0] == self.tokens@[0]@);
            }
            c
        } else {
            sentinel(&self.tokens)
        };
    }

    /// The token `offset` places before the cursor, if it exists.
    pub fn look_back(&self, offset: usize) -> (r: Option<&Token>)
        requires
            self.wf(),
        ensures
            match r {
                Some(t) => offset <= self.pos_spec() && self.pos_spec() - offset < self.toks().len()
                    && t@ == self.toks()[self.pos_spec() - offset],
                None => offset > self.pos_spec() || self.pos_spec() - offset >= self.toks().len(),
            },
    {
        if offset <= self.pos {
            if self.pos - offset < self.tokens.len() {
                proof {
                    assert(tokens_view(self.tokens@)[self.pos - offset] == self.tokens@[self.pos - offset]@);
                }
                Some(&self.tokens[self.pos - offset])
            } else {
                None
            }
        } else {
            None
        }
    }

    /// Appends a node to the syntax tree.
    pub fn add_node(&mut self, node: NodeT)
        requires
            old(self).wf(),
        ensures
            final(self).wf(),
            final(self).toks() == old(self).toks(),
            final(self).pos_spec() == old(self).pos_spec(),
            final(self).ast_model() == old(self).ast_model() + seq![node.deep()],
            final(self).errs_model() == old(self).errs_model(),
            final(self).fatal_spec() == old(self).fatal_spec(),
            final(self).nested_spec() == old(self).nested_spec(),
    {
        proof {
            lemma_deep_nodes_push(self.ast@, node);
        }
        self.ast.push(node);
    }

    /// The syntax tree built so far.
    pub fn get_ast(&self) -> (r: &Vec<NodeT>)
        requires
            self.wf(),
        ensures
            deep_nodes(r@) == self.ast_model(),
    {
        &self.ast
    }

    /// Records a diagnostic of kind `et` at the given span.
    pub fn add_err(&mut self, et: ErrT, line: usize, start: usize, end: usize)
        requires
            old(self).wf(),
        ensures
            final(self).wf(),
            final(self).toks() == old(self).toks(),
            final(self).pos_spec() == old(self).pos_spec(),
            final(self).ast_model() == old(self).ast_model(),
            final(self).errs_model() == old(self).errs_model()
                + seq![GErr { et, line: line as int, start: start as int, end: end as int }],
            final(self).fatal_spec() == old(self).fatal_spec(),
            final(self).nested_spec() == old(self).nested_spec(),
    {
        let e = PErr { et, line, start, end };
        proof {
            assert(errs_view(self.errs@.push(e)) =~= errs_view(self.errs@) + seq![perr_view(e)]);
        }
        self.errs.push(e);
    }

    /// Whether any diagnostic has been recorded.
    pub fn erroccur(&self) -> (r: bool)
        requires
            self.wf(),
        ensures
            r == (self.errs_model().len() > 0),
    {
        self.errs.len() > 0
    }

    /// Whether a fatal diagnostic has stopped the parse.
    pub fn had_fatal(&self) -> (r: bool)
        requires
            self.wf(),
        ensures
            r == self.fatal_spec(),
    {
        self.fatal
    }
}

} // verus!
