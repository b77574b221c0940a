//! Mathematical model of the function parser: a recursive specification of
//! the nodes and diagnostics produced from a token stream. The executable
//! parser's contracts state that it computes exactly this model.
use vstd::prelude::*;
use crate::token::defs::{GTok, IDType, TT};
use crate::token::scan::{kw_char, kw_lazypage, kw_zeropage, is_digit_b};
use crate::ast::defs::{GTy, GVar, GFun, GNode};
use crate::err::def::{ErrT, Expected, RetWhy, PErr};

verus! {

/// Mathematical model of a diagnostic record.
pub ghost struct GErr {
    pub et: ErrT,
    pub line: int,
    pub start: int,
    pub end: int,
}

/// The model of a recorded diagnostic.
pub open spec fn perr_view(e: PErr) -> GErr {
    GErr { et: e.et, line: e.line as int, start: e.start as int, end: e.end as int }
}

/// The model of a recorded diagnostic list.
pub open spec fn errs_view(es: Seq<PErr>) -> Seq<GErr> {
    es.map_values(|e: PErr| perr_view(e))
}

/// The diagnostic `et` at the span of token `t`.
pub open spec fn gerr(et: ErrT, t: GTok) -> GErr {
    GErr { et, line: t.line, start: t.start, end: t.end }
}

/// The end-of-stream sentinel for a token list: kind `Nil`, with a
/// single-point span just past the last token, or the zero span for an
/// empty list.
pub open spec fn eoi_tok(toks: Seq<GTok>) -> GTok {
    if toks.len() == 0 {
        GTok { tt: TT::Nil, line: 0, start: 0, end: 0, value: None }
    } else {
        let l = toks[toks.len() - 1];
        GTok { tt: TT::Nil, line: l.line, start: l.end, end: l.end, value: None }
    }
}

/// The token at position `i`, or the sentinel at or past the end.
pub open spec fn tok_at(toks: Seq<GTok>, i: int) -> GTok {
    if 0 <= i < toks.len() {
        toks[i]
    } else {
        eoi_tok(toks)
    }
}

/// Whether a token is a bare (unquoted) identifier.
pub open spec fn is_bare_ident(t: GTok) -> bool {
    t.tt == TT::Ident(IDType::Nil)
}

/// Whether a token is an identifier of any quoting style.
pub open spec fn is_any_ident(t: GTok) -> bool {
    t.tt matches TT::Ident(_)
}

/// The name a token contributes: its text, or `_` when it carries none.
pub open spec fn tok_name(t: GTok) -> Seq<u8> {
    match t.value {
        Some(v) => v,
        None => seq![95u8],
    }
}

/// The type a token denotes in type position: the type keywords, plus the
/// bare identifiers `char`, `lazypage` and `zeropage`; `None` outside the
/// type vocabulary.
pub open spec fn type_of_tok(t: GTok) -> Option<GTy> {
    match t.tt {
        TT::I32 => Some(GTy::I32),
        TT::I64 => Some(GTy::I64),
        TT::U8 => Some(GTy::U8),
        TT::F32 => Some(GTy::F32),
        TT::F64 => Some(GTy::F64),
        TT::Nil => Some(GTy::Nil),
        TT::Ident(IDType::Nil) => match t.value {
            Some(v) => if v == kw_char() {
                Some(GTy::Char)
            } else if v == kw_lazypage() {
                Some(GTy::LazyPage)
            } else if v == kw_zeropage() {
                Some(GTy::ZeroPage)
            } else {
                None
            },
            None => None,
        },
        _ => None,
    }
}

// ---------------------------------------------------------------------------
// Phase 1: the function name
// ---------------------------------------------------------------------------

/// First position at or after `i` holding no bare identifier.
pub open spec fn idents_end(toks: Seq<GTok>, i: int) -> int
    decreases toks.len() - i,
{
    if i < 0 || i >= toks.len() || !is_bare_ident(toks[i]) {
        i
    } else {
        idents_end(toks, i + 1)
    }
}

pub proof fn lemma_idents_end_bounds(toks: Seq<GTok>, i: int)
    requires
        0 <= i <= toks.len(),
    ensures
        i <= idents_end(toks, i) <= toks.len(),
    decreases toks.len() - i,
{
    if i < toks.len() && is_bare_ident(toks[i]) {
        lemma_idents_end_bounds(toks, i + 1);
    }
}

// ---------------------------------------------------------------------------
// Phase 3: the parameter list
// ---------------------------------------------------------------------------

/// State of the parameter-list phase: at the start of the list, expecting a
/// type (right after a comma), expecting a parameter name (right after a
/// type), or right after a complete parameter.
#[derive(Debug, Clone, Copy, PartialEq, Eq, Structural)]
pub enum PState {
    Start,
    WantType,
    WantName,
    AfterParam,
}

/// Result of the parameter-list phase.
pub ghost struct GParams {
    pub next: int,
    pub vars: Seq<GVar>,
    pub errs: Seq<GErr>,
}

/// The parameter-list phase: alternates between a type token and a bare
/// identifier naming the parameter, separated by `,`, terminated by `)`.
/// An invalid type drops that parameter and scanning continues; other
/// malformed tokens raise `SyntaxErr` and are skipped (token-level
/// recovery). Running out of input raises `SyntaxErr(CloseParen)`.
pub open spec fn params_spec(toks: Seq<GTok>, i: int, st: PState, pend: Option<GTy>) -> GParams
    decreases toks.len() - i,
{
    if i < 0 || i >= toks.len() {
        GParams {
            next: toks.len() as int,
            vars: Seq::empty(),
            errs: seq![gerr(ErrT::SyntaxErr(Expected::CloseParen), eoi_tok(toks))],
        }
    } else {
        let t = toks[i];
        if t.tt == TT::RsmallB {
            let errs: Seq<GErr> = match st {
                PState::Start => Seq::empty(),
                PState::AfterParam => Seq::empty(),
                // trailing comma before `)`
                PState::WantType => seq![gerr(ErrT::SyntaxErr(Expected::ParamItem), t)],
                // a type with no name before `)`
                PState::WantName => seq![gerr(ErrT::SyntaxErr(Expected::ParamName), t)],
            };
            GParams { next: i + 1, vars: Seq::empty(), errs }
        } else if t.tt == TT::Comma {
            match st {
                PState::AfterParam => params_spec(toks, i + 1, PState::WantType, None),
                _ => {
                    let rest = params_spec(toks, i + 1, PState::WantType, None);
                    GParams {
                        next: rest.next,
                        vars: rest.vars,
                        errs: seq![gerr(ErrT::SyntaxErr(Expected::ParamItem), t)] + rest.errs,
                    }
                },
            }
        } else if type_of_tok(t) is Some {
            let ty = type_of_tok(t)->Some_0;
            match st {
                PState::Start | PState::WantType => params_spec(toks, i + 1, PState::WantName, Some(ty)),
                PState::WantName => {
                    // two types with no name between them
                    let rest = params_spec(toks, i + 1, st, pend);
                    GParams {
                        next: rest.next,
                        vars: rest.vars,
                        errs: seq![gerr(ErrT::SyntaxErr(Expected::ParamName), t)] + rest.errs,
                    }
                },
                PState::AfterParam => {
                    // missing comma
                    let rest = params_spec(toks, i + 1, st, pend);
                    GParams {
                        next: rest.next,
                        vars: rest.vars,
                        errs: seq![gerr(ErrT::SyntaxErr(Expected::ParamItem), t)] + rest.errs,
                    }
                },
            }
        } else if is_any_ident(t) {
            match st {
                PState::WantName => {
                    if is_bare_ident(t) {
                        match pend {
                            Some(ty) => {
                                let v = GVar { name: tok_name(t), var_type: ty, size: None };
                                let rest = params_spec(toks, i + 1, PState::AfterParam, None);
                                GParams { next: rest.next, vars: seq![v] + rest.vars, errs: rest.errs }
                            },
                            // the type was invalid: the parameter was
                            // already dropped with its own diagnostic
                            None => params_spec(toks, i + 1, PState::AfterParam, None),
                        }
                    } else {
                        let rest = params_spec(toks, i + 1, st, pend);
                        GParams {
                            next: rest.next,
                            vars: rest.vars,
                            errs: seq![gerr(ErrT::SyntaxErr(Expected::ParamName), t)] + rest.errs,
                        }
                    }
                },
                PState::Start | PState::WantType => {
                    // a type-position token outside the type vocabulary
                    let rest = params_spec(toks, i + 1, PState::WantName, None);
                    GParams {
                        next: rest.next,
                        vars: rest.vars,
                        errs: seq![gerr(ErrT::InvVT, t)] + rest.errs,
                    }
                },
                PState::AfterParam => {
                    let rest = params_spec(toks, i + 1, st, pend);
                    GParams {
                        next: rest.next,
                        vars: rest.vars,
                        errs: seq![gerr(ErrT::SyntaxErr(Expected::ParamItem), t)] + rest.errs,
                    }
                },
            }
        } else {
            let exp = if st == PState::WantName { Expected::ParamName } else { Expected::ParamItem };
            let rest = params_spec(toks, i + 1, st, pend);
            GParams {
                next: rest.next,
                vars: rest.vars,
                errs: seq![gerr(ErrT::SyntaxErr(exp), t)] + rest.errs,
            }
        }
    }
}

pub proof fn lemma_params_next(toks: Seq<GTok>, i: int, st: PState, pend: Option<GTy>)
    requires
        0 <= i <= toks.len(),
    ensures
        i <= params_spec(toks, i, st, pend).next <= toks.len(),
    decreases toks.len() - i,
{
    if i < toks.len() {
        let t = toks[i];
        if t.tt == TT::RsmallB {
        } else if t.tt == TT::Comma {
            lemma_params_next(toks, i + 1, PState::WantType, None);
        } else if type_of_tok(t) is Some {
            let ty = type_of_tok(t)->Some_0;
            lemma_params_next(toks, i + 1, PState::WantName, Some(ty));
            lemma_params_next(toks, i + 1, st, pend);
        } else if is_any_ident(t) {
            lemma_params_next(toks, i + 1, PState::AfterParam, None);
            lemma_params_next(toks, i + 1, PState::WantName, None);
            lemma_params_next(toks, i + 1, st, pend);
        } else {
            lemma_params_next(toks, i + 1, st, pend);
        }
    }
}

// ---------------------------------------------------------------------------
// Phase 4: the return clause
// ---------------------------------------------------------------------------

/// Result of the return-clause phase.
pub ghost struct GRet {
    pub next: int,
    pub has_at: bool,
    pub tys: Seq<GTy>,
    pub errs: Seq<GErr>,
}

/// A comma-separated tuple of type tokens after `@ (`, until `)`. Invalid
/// type tokens raise `InvVT` and are skipped; an unexpected token stops the
/// tuple without being consumed.
pub open spec fn ret_tuple_spec(toks: Seq<GTok>, i: int) -> GRet
    decreases toks.len() - i,
{
    if i < 0 || i >= toks.len() {
        GRet { next: toks.len() as int, has_at: true, tys: Seq::empty(), errs: Seq::empty() }
    } else {
        let t = toks[i];
        if t.tt == TT::RsmallB {
            GRet { next: i + 1, has_at: true, tys: Seq::empty(), errs: Seq::empty() }
        } else if t.tt == TT::Comma {
            ret_tuple_spec(toks, i + 1)
        } else if type_of_tok(t) is Some {
            let ty = type_of_tok(t)->Some_0;
            let rest = ret_tuple_spec(toks, i + 1);
            GRet { next: rest.next, has_at: true, tys: seq![ty] + rest.tys, errs: rest.errs }
        } else if is_any_ident(t) {
            let rest = ret_tuple_spec(toks, i + 1);
            GRet { next: rest.next, has_at: true, tys: rest.tys, errs: seq![gerr(ErrT::InvVT, t)] + rest.errs }
        } else {
            GRet { next: i, has_at: true, tys: Seq::empty(), errs: seq![gerr(ErrT::SyntaxErr(Expected::RetTupleItem), t)] }
        }
    }
}

pub proof fn lemma_ret_tuple_next(toks: Seq<GTok>, i: int)
    requires
        0 <= i <= toks.len(),
    ensures
        i <= ret_tuple_spec(toks, i).next <= toks.len(),
    decreases toks.len() - i,
{
    if i < toks.len() {
        lemma_ret_tuple_next(toks, i + 1);
    }
}

/// The return clause: `@` followed by one type token or a parenthesized
/// tuple of type tokens. A missing `@` raises `MissingReturnType` at the
/// function-name token and parsing continues. After `@`, a token outside
/// the type vocabulary raises `InvVT`; one that is no type-shaped token at
/// all raises `InvVT` at its span without being consumed, so that a `{`
/// there still opens the body.
pub open spec fn ret_clause_spec(toks: Seq<GTok>, i: int, name_tok: GTok) -> GRet {
    if 0 <= i < toks.len() && toks[i].tt == TT::At {
        let j = i + 1;
        if j < toks.len() && toks[j].tt == TT::LSmallB {
            ret_tuple_spec(toks, j + 1)
        } else if j < toks.len() && type_of_tok(toks[j]) is Some {
            GRet { next: j + 1, has_at: true, tys: seq![type_of_tok(toks[j])->Some_0], errs: Seq::empty() }
        } else if j < toks.len() && is_any_ident(toks[j]) {
            GRet { next: j + 1, has_at: true, tys: Seq::empty(), errs: seq![gerr(ErrT::InvVT, toks[j])] }
        } else if j < toks.len() {
            GRet { next: j, has_at: true, tys: Seq::empty(), errs: seq![gerr(ErrT::InvVT, toks[j])] }
        } else {
            GRet { next: j, has_at: true, tys: Seq::empty(), errs: Seq::empty() }
        }
    } else {
        GRet { next: i, has_at: false, tys: Seq::empty(), errs: seq![gerr(ErrT::MissingReturnType, name_tok)] }
    }
}

pub proof fn lemma_ret_clause_next(toks: Seq<GTok>, i: int, name_tok: GTok)
    requires
        0 <= i <= toks.len(),
    ensures
        i <= ret_clause_spec(toks, i, name_tok).next <= toks.len(),
{
    if 0 <= i < toks.len() && toks[i].tt == TT::At {
        let j = i + 1;
        if j < toks.len() && toks[j].tt == TT::LSmallB {
            lemma_ret_tuple_next(toks, j + 1);
        }
    }
}

/// Whether a resolved return-type list contains `Nil`.
pub open spec fn contains_nil(tys: Seq<GTy>) -> bool {
    exists|k: int| 0 <= k < tys.len() && tys[k] == GTy::Nil
}

/// The resolved return type: none, the sole type, or a tuple.
pub open spec fn resolve_ret(tys: Seq<GTy>) -> Option<GTy> {
    if tys.len() == 0 {
        None
    } else if tys.len() == 1 {
        Some(tys[0])
    } else {
        Some(GTy::Tuple(tys))
    }
}

// ---------------------------------------------------------------------------
// Phase 5: body extraction
// ---------------------------------------------------------------------------

/// The position of the `}` matching an already-consumed `{`, given the
/// current nesting `depth`; the length of the list if the input ends first.
pub open spec fn brace_end(toks: Seq<GTok>, i: int, depth: int) -> int
    decreases toks.len() - i,
{
    if i < 0 || i >= toks.len() {
        toks.len() as int
    } else if toks[i].tt == TT::LCurlyB {
        brace_end(toks, i + 1, depth + 1)
    } else if toks[i].tt == TT::RCurlyB {
        if depth <= 1 {
            i
        } else {
            brace_end(toks, i + 1, depth - 1)
        }
    } else {
        brace_end(toks, i + 1, depth)
    }
}

pub proof fn lemma_brace_end_bounds(toks: Seq<GTok>, i: int, depth: int)
    requires
        0 <= i <= toks.len(),
    ensures
        i <= brace_end(toks, i, depth) <= toks.len(),
    decreases toks.len() - i,
{
    if i < toks.len() {
        lemma_brace_end_bounds(toks, i + 1, depth + 1);
        lemma_brace_end_bounds(toks, i + 1, depth - 1);
        lemma_brace_end_bounds(toks, i + 1, depth);
    }
}

// ---------------------------------------------------------------------------
// Phase 6: return-type validation
// ---------------------------------------------------------------------------

/// Position of the first `ret` keyword at or after `i`, or the length.
pub open spec fn first_ret(body: Seq<GTok>, i: int) -> int
    decreases body.len() - i,
{
    if i < 0 || i >= body.len() {
        body.len() as int
    } else if body[i].tt == TT::Ret {
        i
    } else {
        first_ret(body, i + 1)
    }
}

/// Position of the last token at or before `i` that is no semicolon, or -1.
pub open spec fn last_non_semi(body: Seq<GTok>, i: int) -> int
    decreases i + 1,
{
    if i < 0 {
        -1
    } else if i >= body.len() {
        last_non_semi(body, body.len() - 1)
    } else if body[i].tt != TT::SemiColon {
        i
    } else {
        last_non_semi(body, i - 1)
    }
}

/// Whether a byte sequence is a nonempty run of ASCII digits.
pub open spec fn is_digits(v: Seq<u8>) -> bool {
    v.len() > 0 && forall|k: int| 0 <= k < v.len() ==> is_digit_b(v[k])
}

/// The decimal value of a digit run.
pub open spec fn digits_val(v: Seq<u8>) -> int
    decreases v.len(),
{
    if v.len() == 0 {
        0
    } else {
        digits_val(v.drop_last()) * 10 + (v[v.len() - 1] - 48)
    }
}

/// The return types the compatibility check can validate: the numeric set.
pub open spec fn is_checked_numeric(g: GTy) -> bool {
    g == GTy::I32 || g == GTy::I64 || g == GTy::U8 || g == GTy::F32 || g == GTy::F64
}

/// Whether a token is a numeric literal whose text parses as the declared
/// numeric width. The scanner recognizes only unsigned decimal digit runs,
/// so the check is a bound on the decimal value for the integer widths;
/// every digit run parses as a float.
pub open spec fn lit_fits(g: GTy, t: GTok) -> bool {
    t.tt == TT::NUM && match t.value {
        Some(v) => is_digits(v) && match g {
            GTy::I32 => digits_val(v) <= 0x7fffffff,
            GTy::I64 => digits_val(v) <= 0x7fffffffffffffff,
            GTy::U8 => digits_val(v) <= 255,
            GTy::F32 => true,
            GTy::F64 => true,
            _ => false,
        },
        None => false,
    }
}

/// Result of return-type validation.
pub ghost struct GValid {
    pub errs: Seq<GErr>,
    pub fatal: bool,
}

/// Return-type validation over a body's token range: the first `ret` is
/// checked against the declared type; without one, the last non-semicolon
/// token is; a body with neither is the fatal `RetTNF`, raised at the
/// function-name token.
pub open spec fn validate_spec(body: Seq<GTok>, rt: GTy, name_tok: GTok) -> GValid {
    let ri = first_ret(body, 0);
    if ri < body.len() {
        if ri + 1 < body.len() {
            let vt = body[ri + 1];
            if !is_checked_numeric(rt) {
                GValid { errs: seq![gerr(ErrT::RetTMisMatch(RetWhy::Unsupported), vt)], fatal: false }
            } else if lit_fits(rt, vt) {
                GValid { errs: Seq::empty(), fatal: false }
            } else {
                GValid { errs: seq![gerr(ErrT::RetTMisMatch(RetWhy::ValueMismatch), vt)], fatal: false }
            }
        } else {
            GValid { errs: seq![gerr(ErrT::RetTMisMatch(RetWhy::MissingValue), body[ri])], fatal: false }
        }
    } else {
        let li = last_non_semi(body, body.len() - 1);
        if li >= 0 {
            let lt = body[li];
            if !is_checked_numeric(rt) {
                GValid { errs: seq![gerr(ErrT::RetTMisMatch(RetWhy::Unsupported), lt)], fatal: false }
            } else if lit_fits(rt, lt) {
                GValid { errs: Seq::empty(), fatal: false }
            } else {
                GValid { errs: seq![gerr(ErrT::RetTMisMatch(RetWhy::LastExprMismatch), lt)], fatal: false }
            }
        } else {
            GValid { errs: seq![gerr(ErrT::RetTNF, name_tok)], fatal: true }
        }
    }
}

// ---------------------------------------------------------------------------
// A declaration, and a whole program
// ---------------------------------------------------------------------------

/// Result of parsing one function declaration.
pub ghost struct GDecl {
    pub next: int,
    pub node: Option<GFun>,
    pub errs: Seq<GErr>,
    pub fatal: bool,
}

/// Result of parsing a token range.
pub ghost struct GProg {
    pub nodes: Seq<GNode>,
    pub errs: Seq<GErr>,
    pub fatal: bool,
}

/// Parses one function declaration; `start` points just past the `fn`
/// keyword, whose token (for error spans) sits at `start - 1`.
///
/// Phases, strictly ordered: exactly one bare identifier names the function
/// (else `FuncNameNotFound` at the `fn` token and the declaration aborts);
/// `(` opens the parameter list (else `ExpectedArgStart` and the
/// declaration aborts); parameters; the return clause; the body between
/// matched braces, parsed recursively; return-type validation, run only
/// when a return type was resolved, the tuple is not nil-invalid, and a
/// body block was opened. The node is recorded in spite of non-fatal
/// diagnostics; only the two abort phases and a fatal `RetTNF` suppress it.
pub open spec fn parse_fn_spec(toks: Seq<GTok>, start: int) -> GDecl
    decreases toks.len(), toks.len() - start, 0int,
{
    let fn_tok = tok_at(toks, start - 1);
    let j = idents_end(toks, start);
    if j - start != 1 {
        GDecl { next: j, node: None, errs: seq![gerr(ErrT::FuncNameNotFound, fn_tok)], fatal: false }
    } else if !(j < toks.len() && toks[j].tt == TT::LSmallB) {
        GDecl { next: j, node: None, errs: seq![gerr(ErrT::ExpectedArgStart, tok_at(toks, j))], fatal: false }
    } else {
        let name_tok = toks[start];
        let ps = params_spec(toks, j + 1, PState::Start, None);
        let rc = ret_clause_spec(toks, ps.next, name_tok);
        let tuple_err: Seq<GErr> = if rc.tys.len() > 1 && contains_nil(rc.tys) {
            seq![gerr(ErrT::TupleNil, name_tok)]
        } else {
            Seq::empty()
        };
        let rt = resolve_ret(rc.tys);
        let bpos = rc.next;
        let args: Option<Seq<GVar>> = if ps.vars.len() == 0 { None } else { Some(ps.vars) };
        if 0 <= bpos && bpos < toks.len() && toks[bpos].tt == TT::LCurlyB {
            let be = brace_end(toks, bpos + 1, 1);
            let body_toks = toks.subrange(bpos + 1, be);
            let terminated = be < toks.len();
            let unterm_err: Seq<GErr> = if terminated {
                Seq::empty()
            } else {
                seq![gerr(ErrT::SyntaxErr(Expected::CloseBrace), eoi_tok(toks))]
            };
            let next = if terminated { be + 1 } else { toks.len() as int };
            let sub = if body_toks.len() < toks.len() {
                parse_prog_from(body_toks, 0)
            } else {
                GProg { nodes: Seq::empty(), errs: Seq::empty(), fatal: false }
            };
            if sub.fatal {
                GDecl { next, node: None, errs: ps.errs + rc.errs + tuple_err + unterm_err + sub.errs, fatal: true }
            } else {
                let val = match rt {
                    Some(r) => if tuple_err.len() == 0 {
                        validate_spec(body_toks, r, name_tok)
                    } else {
                        GValid { errs: Seq::empty(), fatal: false }
                    },
                    None => GValid { errs: Seq::empty(), fatal: false },
                };
                if val.fatal {
                    GDecl { next, node: None, errs: ps.errs + rc.errs + tuple_err + unterm_err + sub.errs + val.errs, fatal: true }
                } else {
                    let f = GFun { name: tok_name(name_tok), args, body: sub.nodes, ret_type: rt };
                    GDecl { next, node: Some(f), errs: ps.errs + rc.errs + tuple_err + unterm_err + sub.errs + val.errs, fatal: false }
                }
            }
        } else {
            // no body block: the function is still recorded, with an empty
            // body, and no validation runs
            let obrace_err = seq![gerr(ErrT::SyntaxErr(Expected::OpenBrace), tok_at(toks, bpos))];
            let f = GFun { name: tok_name(name_tok), args, body: Seq::empty(), ret_type: rt };
            GDecl { next: bpos, node: Some(f), errs: ps.errs + rc.errs + tuple_err + obrace_err, fatal: false }
        }
    }
}

/// Parses a token range from position `i` on: `fn` opens a declaration;
/// every other token is skipped. A fatal diagnostic stops the walk, keeping
/// what was collected before it.
pub open spec fn parse_prog_from(toks: Seq<GTok>, i: int) -> GProg
    decreases toks.len(), toks.len() - i, 1int,
{
    if i < 0 || i >= toks.len() {
        GProg { nodes: Seq::empty(), errs: Seq::empty(), fatal: false }
    } else if toks[i].tt == TT::FN {
        let d = parse_fn_spec(toks, i + 1);
        if d.fatal {
            GProg { nodes: Seq::empty(), errs: d.errs, fatal: true }
        } else {
            let nodes1: Seq<GNode> = match d.node {
                Some(f) => seq![GNode::FunDef(f)],
                None => Seq::empty(),
            };
            let nxt = if i + 1 <= d.next <= toks.len() { d.next } else { i + 1 };
            let rest = parse_prog_from(toks, nxt);
            GProg { nodes: nodes1 + rest.nodes, errs: d.errs + rest.errs, fatal: rest.fatal }
        }
    } else {
        parse_prog_from(toks, i + 1)
    }
}

/// The whole program parsed from a token list. The context flag mirrors the
/// recursive call for nested bodies; the present grammar recognizes the
/// same constructs, nested or not, so it does not change the result.
pub open spec fn parse_prog_spec(toks: Seq<GTok>, in_nested_context: bool) -> GProg {
    parse_prog_from(toks, 0)
}

pub proof fn lemma_parse_fn_next(toks: Seq<GTok>, start: int)
    requires
        0 <= start <= toks.len(),
    ensures
        start <= parse_fn_spec(toks, start).next <= toks.len(),
{
    lemma_idents_end_bounds(toks, start);
    let j = idents_end(toks, start);
    if j - start == 1 && j < toks.len() && toks[j].tt == TT::LSmallB {
        lemma_params_next(toks, j + 1, PState::Start, None);
        let ps = params_spec(toks, j + 1, PState::Start, None);
        let rc = ret_clause_spec(toks, ps.next, toks[start]);
        if 0 <= ps.next < toks.len() && toks[ps.next].tt == TT::At {
            let j = ps.next + 1;
            if j < toks.len() && toks[j].tt == TT::LSmallB {
                lemma_ret_tuple_next(toks, j + 1);
            }
        }
        assert(ps.next <= rc.next <= toks.len());
        if 0 <= rc.next && rc.next < toks.len() && toks[rc.next].tt == TT::LCurlyB {
            lemma_brace_end_bounds(toks, rc.next + 1, 1);
        }
    }
}

} // verus!
