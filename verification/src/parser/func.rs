//! Parsing one function declaration: name, parameter list, return clause,
//! body extraction with brace matching and recursion, and return-type
//! validation.
use vstd::prelude::*;
use crate::token::defs::{Token, TT, IDType, copy_bytes};
use crate::token::lexer::tokens_view;
use crate::ast::defs::{
    VarType, Var, FunDef, NodeT, GTy, GVar, GNode,
    deep_tys, deep_vars, deep_nodes,
    lemma_deep_tys_props, lemma_deep_vars_props,
    lemma_deep_tys_push, lemma_deep_vars_push,
};
use crate::err::def::{ErrT, Expected, RetWhy, PErr};
use crate::parser::Parser;
use crate::parser::spec::{
    GErr, gerr, errs_view, perr_view, tok_at, eoi_tok, tok_name,
    type_of_tok, idents_end, lemma_idents_end_bounds,
    PState, params_spec, lemma_params_next,
    ret_tuple_spec, lemma_ret_tuple_next, ret_clause_spec, contains_nil, resolve_ret,
    brace_end, lemma_brace_end_bounds,
    first_ret, last_non_semi, is_digits, digits_val, is_checked_numeric, lit_fits,
    GValid, validate_spec, parse_fn_spec, parse_prog_from,
};
use crate::token::scan::is_digit_b;

verus! {

/// The model of an optional type.
pub open spec fn opt_ty_view(p: Option<VarType>) -> Option<GTy> {
    match p {
        Some(t) => Some(t.deep()),
        None => None,
    }
}

/// Maps a token to the type it denotes in type position, or `None` outside
/// the type vocabulary.
pub fn parse_type(t: &Token) -> (r: Option<VarType>)
    ensures
        type_of_tok(t@) == opt_ty_view(r),
{
    match t.TT {
        TT::I32 => Some(VarType::I32),
        TT::I64 => Some(VarType::I64),
        TT::U8 => Some(VarType::U8),
        TT::F32 => Some(VarType::F32),
        TT::F64 => Some(VarType::F64),
        TT::Nil => Some(VarType::Nil),
        TT::Ident(IDType::Nil) => match &t.value {
            Some(v) => {
                let n = v.len();
                if n == 4 && v[0] == 99 && v[1] == 104 && v[2] == 97 && v[3] == 114 {
                    proof { assert(v@ =~= crate::token::scan::kw_char()); }
                    Some(VarType::Char)
                } else if n == 8 && v[0] == 108 && v[1] == 97 && v[2] == 122 && v[3] == 121
                    && v[4] == 112 && v[5] == 97 && v[6] == 103 && v[7] == 101 {
                    proof { assert(v@ =~= crate::token::scan::kw_lazypage()); }
                    Some(VarType::LazyPage)
                } else if n == 8 && v[0] == 122 && v[1] == 101 && v[2] == 114 && v[3] == 111
                    && v[4] == 112 && v[5] == 97 && v[6] == 103 && v[7] == 101 {
                    proof { assert(v@ =~= crate::token::scan::kw_zeropage()); }
                    Some(VarType::ZeroPage)
                } else {
                    None
                }
            },
            None => None,
        },
        _ => None,
    }
}

proof fn lemma_digits_val_nonneg(v: Seq<u8>)
    requires
        forall|m: int| 0 <= m < v.len() ==> is_digit_b(v[m]),
    ensures
        digits_val(v) >= 0,
    decreases v.len(),
{
    if v.len() > 0 {
        lemma_digits_val_nonneg(v.drop_last());
    }
}

/// A digit run's value only grows as digits are appended.
proof fn lemma_digits_val_take(v: Seq<u8>, k: int)
    requires
        0 <= k <= v.len(),
        forall|m: int| 0 <= m < v.len() ==> is_digit_b(v[m]),
    ensures
        digits_val(v.take(k)) <= digits_val(v),
    decreases v.len(),
{
    lemma_digits_val_nonneg(v);
    if k == v.len() {
        assert(v.take(k) =~= v);
    } else if v.len() > 0 {
        assert(v.take(k) =~= v.drop_last().take(k));
        lemma_digits_val_take(v.drop_last(), k);
        lemma_digits_val_nonneg(v.drop_last());
    }
}

proof fn lemma_digits_val_snoc(v: Seq<u8>, k: int)
    requires
        0 <= k < v.len(),
    ensures
        digits_val(v.take(k + 1)) == digits_val(v.take(k)) * 10 + (v[k] - 48),
{
    assert(v.take(k + 1).drop_last() =~= v.take(k));
    assert(v.take(k + 1)[k] == v[k]);
}

/// Whether a byte vector is a nonempty run of ASCII digits whose decimal
/// value is at most `max`.
fn digits_fit(v: &Vec<u8>, max: u64) -> (r: bool)
    ensures
        r == (is_digits(v@) && digits_val(v@) <= max),
{
    if v.len() == 0 {
        return false;
    }
    let mut acc: u128 = 0;
    let mut i: usize = 0;
    while i < v.len()
        invariant
            0 < v@.len(),
            i <= v@.len(),
            forall|m: int| 0 <= m < i ==> is_digit_b(v@[m]),
            acc == digits_val(v@.take(i as int)),
            acc <= max as u128 * 10 + 9,
        decreases v@.len() - i,
    {
        let c = v[i];
        if !(48 <= c && c <= 57) {
            proof {
                assert(!is_digits(v@));
            }
            return false;
        }
        if acc > max as u128 {
            proof {
                if is_digits(v@) {
                    lemma_digits_val_take(v@, i as int);
                }
            }
            return false;
        }
        proof {
            lemma_digits_val_snoc(v@, i as int);
        }
        acc = acc * 10 + ((c - 48) as u128);
        i = i + 1;
    }
    proof {
        assert(v@.take(v@.len() as int) =~= v@);
    }
    acc <= max as u128
}

/// Whether a byte vector is a nonempty run of ASCII digits.
fn digits_only(v: &Vec<u8>) -> (r: bool)
    ensures
        r == is_digits(v@),
{
    if v.len() == 0 {
        return false;
    }
    let mut i: usize = 0;
    while i < v.len()
        invariant
            i <= v@.len(),
            forall|m: int| 0 <= m < i ==> is_digit_b(v@[m]),
        decreases v@.len() - i,
    {
        let c = v[i];
        if !(48 <= c && c <= 57) {
            proof {
                assert(!is_digits(v@));
            }
            return false;
        }
        i = i + 1;
    }
    true
}

/// Whether a type list holds `Nil`.
fn has_nil(v: &Vec<VarType>) -> (r: bool)
    ensures
        r == contains_nil(deep_tys(v@)),
{
    proof {
        lemma_deep_tys_props(v@);
    }
    let mut i: usize = 0;
    while i < v.len()
        invariant
            i <= v@.len(),
            forall|m: int| 0 <= m < i ==> deep_tys(v@)[m] != GTy::Nil,
        decreases v@.len() - i,
    {
        let found = match v[i] {
            VarType::Nil => true,
            _ => false,
        };
        if found {
            proof {
                assert(deep_tys(v@)[i as int] == GTy::Nil);
            }
            return true;
        }
        proof {
            assert(v@[i as int].deep() != GTy::Nil);
        }
        i = i + 1;
    }
    false
}

impl Parser {
    /// Checks a token against the declared return type: whether the type is
    /// in the checkable numeric set, and whether the token is a numeric
    /// literal whose text parses as that width.
    pub fn validate_token_against_return_type(&self, token: &Token, ret_type: &VarType) -> (r: (bool, bool))
        ensures
            r.0 == is_checked_numeric(ret_type.deep()),
            r.1 == lit_fits(ret_type.deep(), token@),
    {
        let is_num = token.TT == TT::NUM;
        match ret_type {
            VarType::I32 => (true, is_num && match &token.value {
                Some(v) => digits_fit(v, 2147483647u64),
                None => false,
            }),
            VarType::I64 => (true, is_num && match &token.value {
                Some(v) => digits_fit(v, 9223372036854775807u64),
                None => false,
            }),
            VarType::U8 => (true, is_num && match &token.value {
                Some(v) => digits_fit(v, 255u64),
                None => false,
            }),
            VarType::F32 => (true, is_num && match &token.value {
                Some(v) => digits_only(v),
                None => false,
            }),
            VarType::F64 => (true, is_num && match &token.value {
                Some(v) => digits_only(v),
                None => false,
            }),
            _ => (false, false),
        }
    }

    /// Collects the tokens of a function body whose `{` was just consumed,
    /// up to the matching `}`, nested braces kept verbatim. Running out of
    /// input before the match raises `SyntaxErr(CloseBrace)`.
    pub fn collect_block_tokens(&mut self) -> (r: Vec<Token>)
        requires
            old(self).wf(),
            old(self).toks().len() < usize::MAX,
        ensures
            final(self).wf(),
            final(self).toks() == old(self).toks(),
            final(self).ast_model() == old(self).ast_model(),
            final(self).nested_spec() == old(self).nested_spec(),
            final(self).fatal_spec() == old(self).fatal_spec(),
            ({
                let be = brace_end(old(self).toks(), old(self).pos_spec(), 1);
                &&& tokens_view(r@) == old(self).toks().subrange(old(self).pos_spec(), be)
                &&& final(self).pos_spec() == (if be < old(self).toks().len() { be + 1 } else { old(self).toks().len() as int })
                &&& final(self).errs_model() == old(self).errs_model() + (if be < old(self).toks().len() {
                    Seq::<GErr>::empty()
                } else {
                    seq![gerr(ErrT::SyntaxErr(Expected::CloseBrace), eoi_tok(old(self).toks()))]
                })
            }),
    {
        let ghost toks = self.toks();
        let ghost p0 = self.pos as int;
        let ghost e0 = self.errs_model();
        let mut body: Vec<Token> = Vec::new();
        let mut depth: usize = 1;
        proof {
            assert(tokens_view(body@) =~= toks.subrange(p0, p0));
        }
        while self.pos < self.tokens.len() && !(self.cur.TT == TT::RCurlyB && depth == 1)
            invariant
                self.wf(),
                self.toks() == toks,
                self.errs_model() == e0,
                self.ast_model() == old(self).ast_model(),
                self.fatal_spec() == old(self).fatal_spec(),
                self.nested_spec() == old(self).nested_spec(),
                p0 <= self.pos_spec() <= toks.len(),
                1 <= depth,
                depth <= self.pos_spec() - p0 + 1,
                brace_end(toks, p0, 1) == brace_end(toks, self.pos_spec(), depth as int),
                tokens_view(body@) == toks.subrange(p0, self.pos_spec()),
            decreases toks.len() - self.pos_spec(),
        {
            let t = self.cur.clone();
            if t.TT == TT::LCurlyB {
                depth = depth + 1;
            } else if t.TT == TT::RCurlyB {
                depth = depth - 1;
            }
            body.push(t);
            self.mv();
            proof {
                assert(tokens_view(body@) =~= toks.subrange(p0, self.pos_spec()));
            }
        }
        if self.pos < self.tokens.len() {
            proof {
                assert(brace_end(toks, self.pos_spec(), depth as int) == self.pos_spec());
            }
            self.mv();
        } else {
            proof {
                assert(brace_end(toks, self.pos_spec(), depth as int) == toks.len());
            }
            let line = self.cur.line;
            let start = self.cur.start;
            let end = self.cur.end;
            self.add_err(ErrT::SyntaxErr(Expected::CloseBrace), line, start, end);
            proof {
                assert(self.cur@ == eoi_tok(toks));
            }
        }
        body
    }

    /// Return-type validation over a collected body: the first `ret` is
    /// checked against the declared type; without one, the last
    /// non-semicolon token is; a body with neither raises the fatal
    /// `RetTNF` at the function-name token and stops the parse.
    pub fn validate_return_type(&mut self, body: &Vec<Token>, ret_type: &VarType, name_tok: &Token)
        requires
            old(self).wf(),
        ensures
            final(self).wf(),
            final(self).toks() == old(self).toks(),
            final(self).pos_spec() == old(self).pos_spec(),
            final(self).ast_model() == old(self).ast_model(),
            final(self).nested_spec() == old(self).nested_spec(),
            ({
                let v = validate_spec(tokens_view(body@), ret_type.deep(), name_tok@);
                &&& final(self).errs_model() == old(self).errs_model() + v.errs
                &&& final(self).fatal_spec() == (old(self).fatal_spec() || v.fatal)
            }),
    {
        let ghost b = tokens_view(body@);
        let ghost v = validate_spec(b, ret_type.deep(), name_tok@);
        let mut i: usize = 0;
        while i < body.len() && !(body[i].TT == TT::Ret)
            invariant
                i <= body@.len(),
                first_ret(b, 0) == first_ret(b, i as int),
            decreases body@.len() - i,
        {
            proof {
                assert(b[i as int] == body@[i as int]@);
            }
            i = i + 1;
        }
        proof {
            if i < body@.len() {
                assert(b[i as int] == body@[i as int]@);
                assert(first_ret(b, 0) == i);
            } else {
                assert(first_ret(b, 0) == b.len());
            }
        }
        if i < body.len() {
            if i + 1 < body.len() {
                let vt = &body[i + 1];
                proof {
                    assert(b[i + 1] == body@[i + 1]@);
                }
                let checked = self.validate_token_against_return_type(vt, ret_type);
                if !checked.0 {
                    self.add_err(ErrT::RetTMisMatch(RetWhy::Unsupported), vt.line, vt.start, vt.end);
                } else if !checked.1 {
                    self.add_err(ErrT::RetTMisMatch(RetWhy::ValueMismatch), vt.line, vt.start, vt.end);
                } else {
                    proof {
                        assert(self.errs_model() =~= old(self).errs_model() + v.errs);
                    }
                }
            } else {
                let rt = &body[i];
                proof {
                    assert(b[i as int] == body@[i as int]@);
                }
                self.add_err(ErrT::RetTMisMatch(RetWhy::MissingValue), rt.line, rt.start, rt.end);
            }
        } else {
            let mut j: usize = body.len();
            while j > 0 && body[j - 1].TT == TT::SemiColon
                invariant
                    j <= body@.len(),
                    last_non_semi(b, b.len() - 1) == last_non_semi(b, j - 1),
                decreases j,
            {
                proof {
                    assert(b[j - 1] == body@[j - 1]@);
                }
                j = j - 1;
            }
            if j > 0 {
                let lt = &body[j - 1];
                proof {
                    assert(b[j - 1] == body@[j - 1]@);
                    assert(last_non_semi(b, b.len() - 1) == j - 1);
                }
                let checked = self.validate_token_against_return_type(lt, ret_type);
                if !checked.0 {
                    self.add_err(ErrT::RetTMisMatch(RetWhy::Unsupported), lt.line, lt.start, lt.end);
                } else if !checked.1 {
                    self.add_err(ErrT::RetTMisMatch(RetWhy::LastExprMismatch), lt.line, lt.start, lt.end);
                } else {
                    proof {
                        assert(self.errs_model() =~= old(self).errs_model() + v.errs);
                    }
                }
            } else {
                proof {
                    assert(last_non_semi(b, b.len() - 1) == -1);
                }
                self.add_err(ErrT::RetTNF, name_tok.line, name_tok.start, name_tok.end);
                self.fatal = true;
            }
        }
    }
}


/// Concatenation of sequences is associative.
pub proof fn lemma_assoc<T>(a: Seq<T>, b: Seq<T>, c: Seq<T>)
    ensures
        (a + b) + c == a + (b + c),
{
    assert((a + b) + c =~= a + (b + c));
}

impl Parser {
    /// The parameter-list phase: the cursor stands just past the `(`.
    #[verifier::rlimit(100)]
    fn parse_params(&mut self) -> (r: Vec<Var>)
        requires
            old(self).wf(),
        ensures
            final(self).wf(),
            final(self).toks() == old(self).toks(),
            final(self).ast_model() == old(self).ast_model(),
            final(self).fatal_spec() == old(self).fatal_spec(),
            final(self).nested_spec() == old(self).nested_spec(),
            ({
                let ps = params_spec(old(self).toks(), old(self).pos_spec(), PState::Start, None);
                &&& final(self).pos_spec() == ps.next
                &&& deep_vars(r@) == ps.vars
                &&& final(self).errs_model() == old(self).errs_model() + ps.errs
            }),
    {
        let ghost toks = self.toks();
        let ghost p0 = self.pos as int;
        let ghost e0 = self.errs_model();
        proof {
            lemma_params_next(toks, p0, PState::Start, None);
        }
        let ghost ps = params_spec(toks, p0, PState::Start, None);
        let mut params: Vec<Var> = Vec::new();
        let mut st = PState::Start;
        let mut pend: Option<VarType> = None;
        while self.pos < self.tokens.len() && !(self.cur.TT == TT::RsmallB)
            invariant
                self.wf(),
                self.toks() == toks,
                self.ast_model() == old(self).ast_model(),
                self.fatal_spec() == old(self).fatal_spec(),
                self.nested_spec() == old(self).nested_spec(),
                p0 <= self.pos_spec() <= toks.len(),
                ps.next == params_spec(toks, self.pos_spec(), st, opt_ty_view(pend)).next,
                ps.vars == deep_vars(params@) + params_spec(toks, self.pos_spec(), st, opt_ty_view(pend)).vars,
                e0 + ps.errs == self.errs_model() + params_spec(toks, self.pos_spec(), st, opt_ty_view(pend)).errs,
            decreases toks.len() - self.pos_spec(),
        {
            let ghost rec = params_spec(toks, self.pos_spec(), st, opt_ty_view(pend));
            let ghost gt = toks[self.pos_spec()];
            let t = self.cur.clone();
            proof {
                assert(t@ == gt);
            }
            match parse_type(&t) {
                Some(ty) => {
                    proof {
                        assert(type_of_tok(gt) == Some(ty.deep()));
                    }
                    if st == PState::Start || st == PState::WantType {
                        st = PState::WantName;
                        pend = Some(ty);
                    } else if st == PState::WantName {
                        self.add_err(ErrT::SyntaxErr(Expected::ParamName), t.line, t.start, t.end);
                    } else {
                        self.add_err(ErrT::SyntaxErr(Expected::ParamItem), t.line, t.start, t.end);
                    }
                    self.mv();
                }
                None => {
                    if t.TT == TT::Comma {
                        if st == PState::AfterParam {
                            st = PState::WantType;
                            pend = None;
                        } else {
                            self.add_err(ErrT::SyntaxErr(Expected::ParamItem), t.line, t.start, t.end);
                            st = PState::WantType;
                            pend = None;
                        }
                        self.mv();
                    } else if matches!(t.TT, TT::Ident(_)) {
                        if st == PState::WantName {
                            if t.TT == TT::Ident(IDType::Nil) {
                                let p = pend;
                                pend = None;
                                match p {
                                    Some(ty) => {
                                        let tl = t.line;
                                        let tst = t.start;
                                        let te = t.end;
                                        let nm: Vec<u8> = match t.value {
                                            Some(v) => v,
                                            None => {
                                                let mut u: Vec<u8> = Vec::new();
                                                u.push(95);
                                                u
                                            },
                                        };
                                        proof {
                                            assert(nm@ == tok_name(gt));
                                        }
                                        let var = Var { name: nm, var_type: ty, size: None };
                                        proof {
                                            lemma_deep_vars_push(params@, var);
                                        }
                                        params.push(var);
                                        st = PState::AfterParam;
                                    }
                                    None => {
                                        st = PState::AfterParam;
                                    }
                                }
                            } else {
                                self.add_err(ErrT::SyntaxErr(Expected::ParamName), t.line, t.start, t.end);
                            }
                        } else if st == PState::AfterParam {
                            self.add_err(ErrT::SyntaxErr(Expected::ParamItem), t.line, t.start, t.end);
                        } else {
                            self.add_err(ErrT::InvVT, t.line, t.start, t.end);
                            st = PState::WantName;
                            pend = None;
                        }
                        self.mv();
                    } else {
                        if st == PState::WantName {
                            self.add_err(ErrT::SyntaxErr(Expected::ParamName), t.line, t.start, t.end);
                        } else {
                            self.add_err(ErrT::SyntaxErr(Expected::ParamItem), t.line, t.start, t.end);
                        }
                        self.mv();
                    }
                }
            }
            proof {
                let rec2 = params_spec(toks, self.pos_spec(), st, opt_ty_view(pend));
                lemma_assoc(deep_vars(params@), rec2.vars, Seq::<GVar>::empty());
                assert(ps.vars =~= deep_vars(params@) + rec2.vars);
                assert(e0 + ps.errs =~= self.errs_model() + rec2.errs);
            }
        }
        if self.pos < self.tokens.len() {
            proof {
                assert(toks[self.pos_spec()].tt == TT::RsmallB);
            }
            let line = self.cur.line;
            let cs = self.cur.start;
            let ce = self.cur.end;
            if st == PState::WantType {
                self.add_err(ErrT::SyntaxErr(Expected::ParamItem), line, cs, ce);
            } else if st == PState::WantName {
                self.add_err(ErrT::SyntaxErr(Expected::ParamName), line, cs, ce);
            }
            self.mv();
        } else {
            let line = self.cur.line;
            let cs = self.cur.start;
            let ce = self.cur.end;
            proof {
                assert(self.cur@ == eoi_tok(toks));
            }
            self.add_err(ErrT::SyntaxErr(Expected::CloseParen), line, cs, ce);
        }
        proof {
            assert(self.pos_spec() == ps.next);
            assert(deep_vars(params@) =~= ps.vars);
            assert(self.errs_model() =~= e0 + ps.errs);
        }
        params
    }

    /// The return-clause phase: `@` and one type or a tuple of types.
    #[verifier::rlimit(100)]
    fn parse_ret_clause(&mut self, name_tok: &Token) -> (r: Vec<VarType>)
        requires
            old(self).wf(),
        ensures
            final(self).wf(),
            final(self).toks() == old(self).toks(),
            final(self).ast_model() == old(self).ast_model(),
            final(self).fatal_spec() == old(self).fatal_spec(),
            final(self).nested_spec() == old(self).nested_spec(),
            ({
                let rc = ret_clause_spec(old(self).toks(), old(self).pos_spec(), name_tok@);
                &&& final(self).pos_spec() == rc.next
                &&& deep_tys(r@) == rc.tys
                &&& final(self).errs_model() == old(self).errs_model() + rc.errs
            }),
    {
        let ghost toks = self.toks();
        let ghost p0 = self.pos as int;
        let ghost e0 = self.errs_model();
        let ghost rc = ret_clause_spec(toks, p0, name_tok@);
        let mut rts: Vec<VarType> = Vec::new();
        if self.pos < self.tokens.len() && self.cur.TT == TT::At {
            self.mv();
            if self.pos < self.tokens.len() && self.cur.TT == TT::LSmallB {
                self.mv();
                let ghost tp = ret_tuple_spec(toks, self.pos_spec());
                proof {
                    lemma_ret_tuple_next(toks, self.pos_spec());
                    assert(rc == tp);
                }
                let ghost e1 = self.errs_model();
                let mut halt = false;
                while !halt && self.pos < self.tokens.len() && !(self.cur.TT == TT::RsmallB)
                    invariant
                        self.wf(),
                        self.toks() == toks,
                        self.ast_model() == old(self).ast_model(),
                        self.fatal_spec() == old(self).fatal_spec(),
                        self.nested_spec() == old(self).nested_spec(),
                        0 <= self.pos_spec() <= toks.len(),
                        !halt ==> tp.next == ret_tuple_spec(toks, self.pos_spec()).next,
                        !halt ==> tp.tys == deep_tys(rts@) + ret_tuple_spec(toks, self.pos_spec()).tys,
                        !halt ==> e1 + tp.errs == self.errs_model() + ret_tuple_spec(toks, self.pos_spec()).errs,
                        halt ==> tp.next == self.pos_spec() && tp.tys == deep_tys(rts@) && e1 + tp.errs == self.errs_model(),
                    decreases toks.len() - self.pos_spec(), (if halt { 0int } else { 1int }),
                {
                    let t = self.cur.clone();
                    if t.TT == TT::Comma {
                        self.mv();
                    } else {
                        match parse_type(&t) {
                            Some(ty) => {
                                proof {
                                    lemma_deep_tys_push(rts@, ty);
                                }
                                rts.push(ty);
                                self.mv();
                            }
                            None => {
                                if matches!(t.TT, TT::Ident(_)) {
                                    self.add_err(ErrT::InvVT, t.line, t.start, t.end);
                                    self.mv();
                                } else {
                                    self.add_err(ErrT::SyntaxErr(Expected::RetTupleItem), t.line, t.start, t.end);
                                    halt = true;
                                }
                            }
                        }
                    }
                    proof {
                        if !halt {
                            let rec2 = ret_tuple_spec(toks, self.pos_spec());
                            assert(tp.tys =~= deep_tys(rts@) + rec2.tys);
                            assert(e1 + tp.errs =~= self.errs_model() + rec2.errs);
                        } else {
                            assert(deep_tys(rts@) + Seq::<GTy>::empty() =~= deep_tys(rts@));
                            assert(tp.tys =~= deep_tys(rts@));
                            assert(e1 + tp.errs =~= self.errs_model());
                        }
                    }
                }
                if !halt {
                    if self.pos < self.tokens.len() {
                        proof {
                            assert(toks[self.pos_spec()].tt == TT::RsmallB);
                            assert(deep_tys(rts@) + Seq::<GTy>::empty() =~= deep_tys(rts@));
                        }
                        self.mv();
                    } else {
                        proof {
                            assert(deep_tys(rts@) + Seq::<GTy>::empty() =~= deep_tys(rts@));
                        }
                    }
                }
            } else if self.pos < self.tokens.len() {
                let t = self.cur.clone();
                match parse_type(&t) {
                    Some(ty) => {
                        proof {
                            lemma_deep_tys_push(rts@, ty);
                            assert(deep_tys(rts@) =~= Seq::<GTy>::empty());
                        }
                        rts.push(ty);
                        proof {
                            assert(deep_tys(rts@) =~= seq![ty.deep()]);
                        }
                        self.mv();
                    }
                    None => {
                        self.add_err(ErrT::InvVT, t.line, t.start, t.end);
                        if matches!(t.TT, TT::Ident(_)) {
                            self.mv();
                        }
                    }
                }
            } else {
                // nothing follows the `@`: no type, no further diagnostic
            }
        } else {
            self.add_err(ErrT::MissingReturnType, name_tok.line, name_tok.start, name_tok.end);
        }
        proof {
            assert(self.pos_spec() == rc.next);
            assert(deep_tys(rts@) =~= rc.tys);
            assert(self.errs_model() =~= e0 + rc.errs);
        }
        rts
    }

    /// Parses one function declaration; the cursor stands just past the
    /// `fn` keyword. The node and diagnostics produced are exactly those of
    /// `parse_fn_spec` at this position.
    #[verifier::rlimit(100)]
    pub fn pfunc(&mut self)
        requires
            old(self).wf(),
            !old(self).fatal_spec(),
            1 <= old(self).pos_spec() <= old(self).toks().len(),
            old(self).toks().len() < usize::MAX,
        ensures
            final(self).wf(),
            final(self).toks() == old(self).toks(),
            final(self).nested_spec() == old(self).nested_spec(),
            ({
                let d = parse_fn_spec(old(self).toks(), old(self).pos_spec());
                &&& final(self).pos_spec() == d.next
                &&& final(self).ast_model() == old(self).ast_model() + (match d.node {
                    Some(f) => seq![GNode::FunDef(f)],
                    None => Seq::<GNode>::empty(),
                })
                &&& final(self).errs_model() == old(self).errs_model() + d.errs
                &&& final(self).fatal_spec() == (old(self).fatal_spec() || d.fatal)
            }),
        decreases old(self).tokens@.len(), 0int,
    {
        let ghost toks = self.toks();
        let ghost start = self.pos as int;
        let ghost d = parse_fn_spec(toks, start);
        let ghost a0 = self.ast_model();
        let ghost e0 = self.errs_model();
        proof {
            lemma_idents_end_bounds(toks, start);
        }
        let fnt = self.tokens[self.pos - 1].clone();
        proof {
            assert(tokens_view(self.tokens@)[start - 1] == self.tokens@[start - 1]@);
            assert(fnt@ == tok_at(toks, start - 1));
        }

        // phase 1: exactly one bare identifier names the function
        let mut cnt: usize = 0;
        let mut name_tok = Token::new(TT::Nil, 0, 0, 0);
        while self.pos < self.tokens.len() && self.cur.TT == TT::Ident(IDType::Nil)
            invariant
                self.wf(),
                self.toks() == toks,
                self.errs_model() == e0,
                self.ast_model() == a0,
                self.fatal_spec() == old(self).fatal_spec(),
                self.nested_spec() == old(self).nested_spec(),
                start <= self.pos_spec() <= toks.len(),
                cnt == self.pos_spec() - start,
                idents_end(toks, start) == idents_end(toks, self.pos_spec()),
                cnt >= 1 ==> name_tok@ == tok_at(toks, start),
            decreases toks.len() - self.pos_spec(),
        {
            if cnt == 0 {
                name_tok = self.cur.clone();
            }
            cnt = cnt + 1;
            self.mv();
        }
        let ghost j = idents_end(toks, start);
        proof {
            assert(j == self.pos_spec());
        }
        if cnt != 1 {
            self.add_err(ErrT::FuncNameNotFound, fnt.line, fnt.start, fnt.end);
            proof {
                assert(self.ast_model() =~= a0 + Seq::<GNode>::empty());
            }
            return;
        }
        if !(self.cur.TT == TT::LSmallB) {
            let line = self.cur.line;
            let cs = self.cur.start;
            let ce = self.cur.end;
            self.add_err(ErrT::ExpectedArgStart, line, cs, ce);
            proof {
                assert(self.cur@ == tok_at(toks, j));
                assert(self.ast_model() =~= a0 + Seq::<GNode>::empty());
            }
            return;
        }
        proof {
            assert(j < toks.len() && toks[j].tt == TT::LSmallB);
            assert(name_tok@ == toks[start]);
        }
        self.mv();

        // phase 3: the parameter list
        let ghost ps = params_spec(toks, j + 1, PState::Start, None);
        proof {
            lemma_params_next(toks, j + 1, PState::Start, None);
        }
        let params = self.parse_params();
        proof {
            assert(self.pos_spec() == ps.next);
            assert(deep_vars(params@) == ps.vars);
            assert(self.errs_model() == e0 + ps.errs);
        }

        // phase 4: the return clause
        let ghost rc = ret_clause_spec(toks, ps.next, toks[start]);
        let mut rts = self.parse_ret_clause(&name_tok);
        proof {
            assert(self.pos_spec() == rc.next);
            assert(deep_tys(rts@) == rc.tys);
            lemma_assoc(e0, ps.errs, rc.errs);
            assert(self.errs_model() =~= (e0 + ps.errs) + rc.errs);
        }

        // tuple well-formedness: `nil` may not stand beside other types
        let ghost tuple_err: Seq<GErr> = if rc.tys.len() > 1 && contains_nil(rc.tys) {
            seq![gerr(ErrT::TupleNil, toks[start])]
        } else {
            Seq::<GErr>::empty()
        };
        proof {
            lemma_deep_tys_props(rts@);
        }
        let nil_flagged = rts.len() > 1 && has_nil(&rts);
        if nil_flagged {
            self.add_err(ErrT::TupleNil, name_tok.line, name_tok.start, name_tok.end);
        }
        proof {
            assert(self.errs_model() =~= ((e0 + ps.errs) + rc.errs) + tuple_err);
        }

        // resolve the return type
        let ghost grt = resolve_ret(rc.tys);
        let rt: Option<VarType> = if rts.len() == 0 {
            None
        } else if rts.len() == 1 {
            let t0 = rts.remove(0);
            Some(t0)
        } else {
            Some(VarType::Tuple(rts))
        };
        proof {
            assert(opt_ty_view(rt) == grt);
        }

        let fname: Vec<u8> = match &name_tok.value {
            Some(v) => copy_bytes(v),
            None => {
                let mut u: Vec<u8> = Vec::new();
                u.push(95);
                u
            },
        };
        proof {
            assert(fname@ == tok_name(toks[start]));
        }
        proof {
            lemma_deep_vars_props(params@);
        }

        // phase 5: the body between matched braces
        if self.pos < self.tokens.len() && self.cur.TT == TT::LCurlyB {
            proof {
                assert(toks[rc.next].tt == TT::LCurlyB);
            }
            self.mv();
            let ghost bpos = rc.next;
            let ghost be = brace_end(toks, bpos + 1, 1);
            proof {
                lemma_brace_end_bounds(toks, bpos + 1, 1);
            }
            let body_toks = self.collect_block_tokens();
            let ghost bt = toks.subrange(bpos + 1, be);
            let ghost unterm: Seq<GErr> = if be < toks.len() {
                Seq::<GErr>::empty()
            } else {
                seq![gerr(ErrT::SyntaxErr(Expected::CloseBrace), eoi_tok(toks))]
            };
            proof {
                assert(tokens_view(body_toks@) == bt);
                assert(bt.len() < toks.len());
                assert(body_toks@.len() == bt.len());
                assert(self.errs_model() =~= (((e0 + ps.errs) + rc.errs) + tuple_err) + unterm);
            }
            let ghost sub = parse_prog_from(bt, 0);
            let subr = crate::parser::init::bootp(&body_toks, true);
            let sub_nodes = subr.0;
            let sub_errs = subr.1;
            let sub_fatal = subr.2;
            proof {
                assert(deep_nodes(sub_nodes@) == sub.nodes);
                assert(errs_view(sub_errs@) == sub.errs);
                assert(sub_fatal == sub.fatal);
            }
            // append the nested diagnostics in document order
            let ghost e2 = self.errs_model();
            let mut k: usize = 0;
            while k < sub_errs.len()
                invariant
                    self.wf(),
                    self.toks() == toks,
                    self.ast_model() == a0,
                    self.fatal_spec() == old(self).fatal_spec(),
                    self.nested_spec() == old(self).nested_spec(),
                    self.pos_spec() == (if be < toks.len() { be + 1 } else { toks.len() as int }),
                    k <= sub_errs@.len(),
                    self.errs_model() == e2 + errs_view(sub_errs@.take(k as int)),
                decreases sub_errs@.len() - k,
            {
                let e = sub_errs[k];
                self.add_err(e.et, e.line, e.start, e.end);
                k = k + 1;
                proof {
                    assert(errs_view(sub_errs@.take(k as int)) =~= errs_view(sub_errs@.take(k as int - 1)) + seq![perr_view(sub_errs@[k as int - 1])]);
                    assert(self.errs_model() =~= e2 + errs_view(sub_errs@.take(k as int)));
                }
            }
            proof {
                assert(sub_errs@.take(sub_errs@.len() as int) =~= sub_errs@);
                assert(self.errs_model() =~= ((((e0 + ps.errs) + rc.errs) + tuple_err) + unterm) + sub.errs);
            }
            if sub_fatal {
                self.fatal = true;
                proof {
                    assert(d.fatal);
                    assert(d.errs =~= ((((ps.errs + rc.errs) + tuple_err) + unterm) + sub.errs));
                    assert(self.errs_model() =~= e0 + d.errs);
                    assert(self.ast_model() =~= a0 + Seq::<GNode>::empty());
                }
                return;
            }
            // phase 6: return-type validation
            let ghost gval: GValid = match grt {
                Some(r) => if tuple_err.len() == 0 {
                    validate_spec(bt, r, toks[start])
                } else {
                    GValid { errs: Seq::<GErr>::empty(), fatal: false }
                },
                None => GValid { errs: Seq::<GErr>::empty(), fatal: false },
            };
            match &rt {
                Some(r) => {
                    if !nil_flagged {
                        self.validate_return_type(&body_toks, r, &name_tok);
                    }
                }
                None => {}
            }
            proof {
                assert(self.errs_model() =~= (((((e0 + ps.errs) + rc.errs) + tuple_err) + unterm) + sub.errs) + gval.errs);
                assert(self.fatal_spec() == gval.fatal);
            }
            if self.fatal {
                proof {
                    assert(d.fatal);
                    assert(d.errs =~= ((((ps.errs + rc.errs) + tuple_err) + unterm) + sub.errs) + gval.errs);
                    assert(self.errs_model() =~= e0 + d.errs);
                    assert(self.ast_model() =~= a0 + Seq::<GNode>::empty());
                }
                return;
            }
            let node = NodeT::FunDef(FunDef { name: fname, args: if params.len() == 0 { None } else { Some(params) }, body: sub_nodes, ret_type: rt });
            proof {
                assert(!d.fatal);
                assert(d.node is Some);
                let gf = d.node->Some_0;
                assert(node.deep() == GNode::FunDef(gf));
            }
            self.add_node(node);
            proof {
                let gf = d.node->Some_0;
                assert(d.errs =~= ((((ps.errs + rc.errs) + tuple_err) + unterm) + sub.errs) + gval.errs);
                assert(self.errs_model() =~= e0 + d.errs);
                assert(self.ast_model() =~= a0 + seq![GNode::FunDef(gf)]);
            }
        } else {
            let line = self.cur.line;
            let cs = self.cur.start;
            let ce = self.cur.end;
            proof {
                assert(self.cur@ == tok_at(toks, rc.next));
            }
            self.add_err(ErrT::SyntaxErr(Expected::OpenBrace), line, cs, ce);
            let node = NodeT::FunDef(FunDef { name: fname, args: if params.len() == 0 { None } else { Some(params) }, body: Vec::new(), ret_type: rt });
            proof {
                assert(deep_nodes(Seq::<NodeT>::empty()) =~= Seq::<GNode>::empty());
                assert(!d.fatal);
                assert(d.node is Some);
                let gf = d.node->Some_0;
                assert(node.deep() == GNode::FunDef(gf));
            }
            self.add_node(node);
            proof {
                let gf = d.node->Some_0;
                assert(d.errs =~= ((ps.errs + rc.errs) + tuple_err) + seq![gerr(ErrT::SyntaxErr(Expected::OpenBrace), tok_at(toks, rc.next))]);
                assert(self.errs_model() =~= e0 + d.errs);
                assert(self.ast_model() =~= a0 + seq![GNode::FunDef(gf)]);
            }
        }
    }
}

} // verus!
