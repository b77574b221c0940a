//! Laws of the parser, stated over its mathematical model and proved from
//! the definitions alone.
use vstd::prelude::*;
use crate::token::defs::{GTok, TT};
use crate::ast::defs::{GTy, GVar, GFun, GNode};
use crate::err::def::ErrT;
use crate::parser::spec::{
    GErr, gerr, tok_at, tok_name, type_of_tok, is_bare_ident, idents_end,
    PState, params_spec, ret_tuple_spec, ret_clause_spec, contains_nil, resolve_ret,
    brace_end, first_ret, lit_fits, is_checked_numeric, validate_spec, GValid,
    parse_fn_spec, parse_prog_from, parse_prog_spec,
};

verus! {

/// How many diagnostics of kind `TupleNil` a list holds.
pub open spec fn count_tuple_nil(es: Seq<GErr>) -> int
    decreases es.len(),
{
    if es.len() == 0 {
        0
    } else {
        (if es[0].et == ErrT::TupleNil { 1int } else { 0 }) + count_tuple_nil(es.drop_first())
    }
}

proof fn lemma_count_tn_concat(a: Seq<GErr>, b: Seq<GErr>)
    ensures
        count_tuple_nil(a + b) == count_tuple_nil(a) + count_tuple_nil(b),
    decreases a.len(),
{
    if a.len() == 0 {
        assert(a + b =~= b);
    } else {
        assert((a + b).drop_first() =~= a.drop_first() + b);
        assert((a + b)[0] == a[0]);
        lemma_count_tn_concat(a.drop_first(), b);
    }
}

proof fn lemma_count_tn_single(e: GErr)
    ensures
        count_tuple_nil(seq![e]) == (if e.et == ErrT::TupleNil { 1int } else { 0 }),
{
    assert(seq![e][0] == e);
    assert(seq![e].drop_first() =~= Seq::<GErr>::empty());
    assert(count_tuple_nil(Seq::<GErr>::empty()) == 0);
}

/// The parameter-list phase never raises `TupleNil`.
proof fn lemma_params_no_tn(toks: Seq<GTok>, i: int, st: PState, pend: Option<GTy>)
    ensures
        count_tuple_nil(params_spec(toks, i, st, pend).errs) == 0,
    decreases toks.len() - i,
{
    if i < 0 || i >= toks.len() {
        lemma_count_tn_single(gerr(ErrT::SyntaxErr(crate::err::def::Expected::CloseParen), crate::parser::spec::eoi_tok(toks)));
    } else {
        let t = toks[i];
        if t.tt == TT::RsmallB {
            let errs = params_spec(toks, i, st, pend).errs;
            if errs.len() > 0 {
                lemma_count_tn_single(errs[0]);
                assert(errs =~= seq![errs[0]]);
            }
        } else if t.tt == TT::Comma {
            lemma_params_no_tn(toks, i + 1, PState::WantType, None);
            lemma_count_tn_concat(seq![gerr(ErrT::SyntaxErr(crate::err::def::Expected::ParamItem), t)], params_spec(toks, i + 1, PState::WantType, None).errs);
            lemma_count_tn_single(gerr(ErrT::SyntaxErr(crate::err::def::Expected::ParamItem), t));
        } else if type_of_tok(t) is Some {
            let ty = type_of_tok(t)->Some_0;
            lemma_params_no_tn(toks, i + 1, PState::WantName, Some(ty));
            lemma_params_no_tn(toks, i + 1, st, pend);
            lemma_count_tn_concat(seq![gerr(ErrT::SyntaxErr(crate::err::def::Expected::ParamName), t)], params_spec(toks, i + 1, st, pend).errs);
            lemma_count_tn_single(gerr(ErrT::SyntaxErr(crate::err::def::Expected::ParamName), t));
            lemma_count_tn_concat(seq![gerr(ErrT::SyntaxErr(crate::err::def::Expected::ParamItem), t)], params_spec(toks, i + 1, st, pend).errs);
            lemma_count_tn_single(gerr(ErrT::SyntaxErr(crate::err::def::Expected::ParamItem), t));
        } else {
            lemma_params_no_tn(toks, i + 1, PState::AfterParam, None);
            lemma_params_no_tn(toks, i + 1, PState::WantName, None);
            lemma_params_no_tn(toks, i + 1, PState::WantType, None);
            lemma_params_no_tn(toks, i + 1, st, pend);
            let e1 = gerr(ErrT::SyntaxErr(crate::err::def::Expected::ParamName), t);
            let e2 = gerr(ErrT::SyntaxErr(crate::err::def::Expected::ParamItem), t);
            let e3 = gerr(ErrT::InvVT, t);
            lemma_count_tn_single(e1);
            lemma_count_tn_single(e2);
            lemma_count_tn_single(e3);
            lemma_count_tn_concat(seq![e1], params_spec(toks, i + 1, st, pend).errs);
            lemma_count_tn_concat(seq![e2], params_spec(toks, i + 1, st, pend).errs);
            lemma_count_tn_concat(seq![e3], params_spec(toks, i + 1, PState::WantName, None).errs);
        }
    }
}

/// The return-clause phase never raises `TupleNil`.
proof fn lemma_ret_tuple_no_tn(toks: Seq<GTok>, i: int)
    ensures
        count_tuple_nil(ret_tuple_spec(toks, i).errs) == 0,
    decreases toks.len() - i,
{
    if 0 <= i && i < toks.len() {
        let t = toks[i];
        lemma_ret_tuple_no_tn(toks, i + 1);
        let e1 = gerr(ErrT::InvVT, t);
        let e2 = gerr(ErrT::SyntaxErr(crate::err::def::Expected::RetTupleItem), t);
        lemma_count_tn_single(e1);
        lemma_count_tn_single(e2);
        lemma_count_tn_concat(seq![e1], ret_tuple_spec(toks, i + 1).errs);
        assert(seq![e2].drop_first() =~= Seq::<GErr>::empty());
    }
}

proof fn lemma_ret_clause_no_tn(toks: Seq<GTok>, i: int, name_tok: GTok)
    ensures
        count_tuple_nil(ret_clause_spec(toks, i, name_tok).errs) == 0,
{
    if 0 <= i < toks.len() && toks[i].tt == TT::At {
        let j = i + 1;
        if j < toks.len() && toks[j].tt == TT::LSmallB {
            lemma_ret_tuple_no_tn(toks, j + 1);
        } else if j < toks.len() {
            lemma_count_tn_single(gerr(ErrT::InvVT, toks[j]));
        }
    } else {
        lemma_count_tn_single(gerr(ErrT::MissingReturnType, name_tok));
    }
}

proof fn lemma_validate_no_tn(body: Seq<GTok>, rt: GTy, name_tok: GTok)
    ensures
        count_tuple_nil(validate_spec(body, rt, name_tok).errs) == 0,
{
    let v = validate_spec(body, rt, name_tok);
    if v.errs.len() > 0 {
        lemma_count_tn_single(v.errs[0]);
        assert(v.errs =~= seq![v.errs[0]]);
    }
}

/// A token range without `fn` parses to nothing.
proof fn lemma_prog_no_fn(ts: Seq<GTok>, i: int)
    requires
        forall|m: int| i <= m < ts.len() ==> ts[m].tt != TT::FN,
    ensures
        parse_prog_from(ts, i).nodes == Seq::<GNode>::empty(),
        parse_prog_from(ts, i).errs == Seq::<GErr>::empty(),
        !parse_prog_from(ts, i).fatal,
    decreases ts.len() - i,
{
    if 0 <= i && i < ts.len() {
        lemma_prog_no_fn(ts, i + 1);
    }
}

/// A flat region (no braces) followed by `}` closes the body there.
proof fn lemma_brace_end_flat(toks: Seq<GTok>, i: int, k: int)
    requires
        0 <= i <= k < toks.len(),
        forall|m: int| i <= m < k ==> toks[m].tt != TT::LCurlyB && toks[m].tt != TT::RCurlyB,
        toks[k].tt == TT::RCurlyB,
    ensures
        brace_end(toks, i, 1) == k,
    decreases k - i,
{
    if i < k {
        lemma_brace_end_flat(toks, i + 1, k);
    }
}

/// Law: a well-formed declaration `fn NAME ( ) @ TYPE { ret LITERAL }`,
/// whose literal parses as its declared numeric type, yields exactly one
/// function node — named after the bare identifier, with no parameters, an
/// empty body and that return type — and no diagnostic at all.
pub proof fn lemma_valid_decl(toks: Seq<GTok>, g: GTy)
    requires
        toks.len() == 10,
        toks[0].tt == TT::FN,
        is_bare_ident(toks[1]),
        toks[2].tt == TT::LSmallB,
        toks[3].tt == TT::RsmallB,
        toks[4].tt == TT::At,
        type_of_tok(toks[5]) == Some(g),
        is_checked_numeric(g),
        toks[6].tt == TT::LCurlyB,
        toks[7].tt == TT::Ret,
        lit_fits(g, toks[8]),
        toks[9].tt == TT::RCurlyB,
    ensures
        parse_prog_spec(toks, false).nodes == seq![GNode::FunDef(GFun {
            name: tok_name(toks[1]),
            args: None,
            body: Seq::<GNode>::empty(),
            ret_type: Some(g),
        })],
        parse_prog_spec(toks, false).errs == Seq::<GErr>::empty(),
        !parse_prog_spec(toks, false).fatal,
{
    assert(idents_end(toks, 2) == 2);
    assert(idents_end(toks, 1) == 2);
    let ps = params_spec(toks, 3, PState::Start, None);
    assert(ps.next == 4 && ps.vars =~= Seq::<GVar>::empty() && ps.errs =~= Seq::<GErr>::empty());
    let rc = ret_clause_spec(toks, 4, toks[1]);
    assert(toks[5].tt != TT::LSmallB);
    assert(rc.next == 6 && rc.tys =~= seq![g] && rc.errs =~= Seq::<GErr>::empty());
    assert(!(rc.tys.len() > 1));
    assert(resolve_ret(rc.tys) == Some(g));
    assert(brace_end(toks, 9, 1) == 9);
    assert(brace_end(toks, 8, 1) == 9);
    assert(brace_end(toks, 7, 1) == 9);
    let body = toks.subrange(7, 9);
    assert(body.len() == 2 && body[0] == toks[7] && body[1] == toks[8]);
    assert(body[1].tt == TT::NUM);
    assert(parse_prog_from(body, 2).nodes =~= Seq::<GNode>::empty());
    assert(parse_prog_from(body, 1) == parse_prog_from(body, 2));
    assert(parse_prog_from(body, 0) == parse_prog_from(body, 1));
    let sub = parse_prog_from(body, 0);
    assert(sub.nodes =~= Seq::<GNode>::empty());
    assert(first_ret(body, 0) == 0);
    let val = validate_spec(body, g, toks[1]);
    assert(val.errs =~= Seq::<GErr>::empty() && !val.fatal);
    let d = parse_fn_spec(toks, 1);
    assert(d.next == 10);
    assert(d.errs =~= Seq::<GErr>::empty());
    assert(!d.fatal);
    assert(d.node == Some(GFun {
        name: tok_name(toks[1]),
        args: None,
        body: Seq::<GNode>::empty(),
        ret_type: Some(g),
    }));
    let rest = parse_prog_from(toks, 10);
    assert(rest.nodes =~= Seq::<GNode>::empty() && rest.errs =~= Seq::<GErr>::empty());
    let p = parse_prog_from(toks, 0);
    assert(p.nodes =~= seq![GNode::FunDef(d.node->Some_0)]);
    assert(p.errs =~= Seq::<GErr>::empty());
    assert(!p.fatal);
}

/// Law: a declaration with no `@` clause still yields its function node,
/// with `ret_type` absent, exactly one `MissingReturnType` diagnostic at
/// the function-name token, and parsing continues past the declaration:
/// whatever follows the body contributes its own nodes and diagnostics
/// after it.
pub proof fn lemma_missing_return_type(toks: Seq<GTok>, n: int)
    requires
        0 <= n,
        toks.len() >= 6 + n,
        toks[0].tt == TT::FN,
        is_bare_ident(toks[1]),
        toks[2].tt == TT::LSmallB,
        toks[3].tt == TT::RsmallB,
        toks[4].tt == TT::LCurlyB,
        forall|m: int| 5 <= m < 5 + n ==> toks[m].tt != TT::LCurlyB && toks[m].tt != TT::RCurlyB
            && #[trigger] toks[m].tt != TT::FN,
        toks[5 + n].tt == TT::RCurlyB,
    ensures
        parse_prog_spec(toks, false).nodes == seq![GNode::FunDef(GFun {
            name: tok_name(toks[1]),
            args: None,
            body: parse_prog_from(toks.subrange(5, 5 + n), 0).nodes,
            ret_type: None,
        })] + parse_prog_from(toks, 6 + n).nodes,
        parse_prog_spec(toks, false).errs == seq![gerr(ErrT::MissingReturnType, toks[1])]
            + parse_prog_from(toks, 6 + n).errs,
        parse_prog_spec(toks, false).fatal == parse_prog_from(toks, 6 + n).fatal,
{
    assert(idents_end(toks, 2) == 2);
    assert(idents_end(toks, 1) == 2);
    let ps = params_spec(toks, 3, PState::Start, None);
    assert(ps.next == 4 && ps.vars =~= Seq::<GVar>::empty() && ps.errs =~= Seq::<GErr>::empty());
    let rc = ret_clause_spec(toks, 4, toks[1]);
    assert(rc.next == 4 && rc.tys =~= Seq::<GTy>::empty());
    assert(rc.errs =~= seq![gerr(ErrT::MissingReturnType, toks[1])]);
    assert(resolve_ret(rc.tys) is None);
    lemma_brace_end_flat(toks, 5, 5 + n);
    assert(brace_end(toks, 5, 1) == 5 + n);
    let body = toks.subrange(5, 5 + n);
    assert forall|m: int| 0 <= m < body.len() implies body[m].tt != TT::FN by {
        assert(body[m] == toks[5 + m]);
    }
    lemma_prog_no_fn(body, 0);
    let sub = parse_prog_from(body, 0);
    let d = parse_fn_spec(toks, 1);
    assert(d.next == 6 + n);
    assert(!d.fatal);
    assert(d.errs =~= seq![gerr(ErrT::MissingReturnType, toks[1])]);
    assert(d.node == Some(GFun {
        name: tok_name(toks[1]),
        args: None,
        body: sub.nodes,
        ret_type: None,
    }));
    let rest = parse_prog_from(toks, 6 + n);
    let p = parse_prog_from(toks, 0);
    assert(p.nodes =~= seq![GNode::FunDef(d.node->Some_0)] + rest.nodes);
    assert(p.errs =~= seq![gerr(ErrT::MissingReturnType, toks[1])] + rest.errs);
    assert(p.fatal == rest.fatal);
}

/// Law: a declaration whose parsed return-type list mixes `Nil` with at
/// least one other type raises `TupleNil` exactly once, whatever element
/// diagnostics the clause also produced — and a declaration whose list
/// does not, never raises it. Stated for declarations whose body spawns no
/// nested declaration: a nested one is accounted its own count by this
/// same law.
pub proof fn lemma_tuple_nil(toks: Seq<GTok>, start: int)
    requires
        1 <= start,
        start + 1 <= toks.len(),
        idents_end(toks, start) == start + 1,
        start + 1 < toks.len(),
        toks[start + 1].tt == TT::LSmallB,
        forall|m: int| start <= m < toks.len() ==> toks[m].tt != TT::FN,
    ensures
        ({
            let ps = params_spec(toks, start + 2, PState::Start, None);
            let rc = ret_clause_spec(toks, ps.next, toks[start]);
            count_tuple_nil(parse_fn_spec(toks, start).errs) == if rc.tys.len() > 1 && contains_nil(rc.tys) {
                1int
            } else {
                0
            }
        }),
{
    let j = start + 1;
    let ps = params_spec(toks, start + 2, PState::Start, None);
    let rc = ret_clause_spec(toks, ps.next, toks[start]);
    let nilbad = rc.tys.len() > 1 && contains_nil(rc.tys);
    let tuple_err: Seq<GErr> = if nilbad { seq![gerr(ErrT::TupleNil, toks[start])] } else { Seq::<GErr>::empty() };
    lemma_params_no_tn(toks, start + 2, PState::Start, None);
    lemma_ret_clause_no_tn(toks, ps.next, toks[start]);
    lemma_count_tn_concat(ps.errs, rc.errs);
    lemma_count_tn_concat(ps.errs + rc.errs, tuple_err);
    if nilbad {
        lemma_count_tn_single(gerr(ErrT::TupleNil, toks[start]));
    }
    assert(count_tuple_nil((ps.errs + rc.errs) + tuple_err) == if nilbad { 1int } else { 0 });
    let rt = resolve_ret(rc.tys);
    let bpos = rc.next;
    let d = parse_fn_spec(toks, start);
    crate::parser::spec::lemma_params_next(toks, start + 2, PState::Start, None);
    crate::parser::spec::lemma_ret_clause_next(toks, ps.next, toks[start]);
    if 0 <= bpos && bpos < toks.len() && toks[bpos].tt == TT::LCurlyB {
        crate::parser::spec::lemma_brace_end_bounds(toks, bpos + 1, 1);
        let be = brace_end(toks, bpos + 1, 1);
        let body = toks.subrange(bpos + 1, be);
        assert forall|m: int| 0 <= m < body.len() implies body[m].tt != TT::FN by {
            assert(body[m] == toks[bpos + 1 + m]);
        }
        lemma_prog_no_fn(body, 0);
        let sub = parse_prog_from(body, 0);
        let unterm: Seq<GErr> = if be < toks.len() { Seq::<GErr>::empty() } else {
            seq![gerr(ErrT::SyntaxErr(crate::err::def::Expected::CloseBrace), crate::parser::spec::eoi_tok(toks))]
        };
        let val: GValid = match rt {
            Some(r) => if tuple_err.len() == 0 { validate_spec(body, r, toks[start]) } else { GValid { errs: Seq::<GErr>::empty(), fatal: false } },
            None => GValid { errs: Seq::<GErr>::empty(), fatal: false },
        };
        match rt {
            Some(r) => {
                lemma_validate_no_tn(body, r, toks[start]);
            },
            None => {},
        }
        if unterm.len() > 0 {
            lemma_count_tn_single(unterm[0]);
            assert(unterm =~= seq![unterm[0]]);
        }
        lemma_count_tn_concat((ps.errs + rc.errs) + tuple_err, unterm);
        lemma_count_tn_concat(((ps.errs + rc.errs) + tuple_err) + unterm, sub.errs);
        lemma_count_tn_concat((((ps.errs + rc.errs) + tuple_err) + unterm) + sub.errs, val.errs);
        assert(d.errs == (((ps.errs + rc.errs) + tuple_err) + unterm) + sub.errs + val.errs
            || d.errs == (((ps.errs + rc.errs) + tuple_err) + unterm) + sub.errs);
        assert(count_tuple_nil(d.errs) == if nilbad { 1int } else { 0 });
    } else {
        let obrace = seq![gerr(ErrT::SyntaxErr(crate::err::def::Expected::OpenBrace), tok_at(toks, bpos))];
        lemma_count_tn_single(obrace[0]);
        assert(obrace =~= seq![obrace[0]]);
        lemma_count_tn_concat((ps.errs + rc.errs) + tuple_err, obrace);
        assert(count_tuple_nil(d.errs) == if nilbad { 1int } else { 0 });
    }
}

/// Law: the collected body of a declaration recurses correctly. The nested
/// parse of the tokens strictly between the matched braces supplies the
/// node's children, and its diagnostics stand in the declaration's list in
/// document order: after the diagnostics of the phases before the body,
/// before those of the return-type validation that follows it.
pub proof fn lemma_nested_body(toks: Seq<GTok>, start: int)
    requires
        1 <= start,
        start + 1 <= toks.len(),
        idents_end(toks, start) == start + 1,
        start + 1 < toks.len(),
        toks[start + 1].tt == TT::LSmallB,
        ({
            let ps = params_spec(toks, start + 2, PState::Start, None);
            let rc = ret_clause_spec(toks, ps.next, toks[start]);
            0 <= rc.next < toks.len() && toks[rc.next].tt == TT::LCurlyB
        }),
    ensures
        ({
            let ps = params_spec(toks, start + 2, PState::Start, None);
            let rc = ret_clause_spec(toks, ps.next, toks[start]);
            let nilbad = rc.tys.len() > 1 && contains_nil(rc.tys);
            let tuple_err: Seq<GErr> = if nilbad { seq![gerr(ErrT::TupleNil, toks[start])] } else { Seq::<GErr>::empty() };
            let be = brace_end(toks, rc.next + 1, 1);
            let body = toks.subrange(rc.next + 1, be);
            let unterm: Seq<GErr> = if be < toks.len() { Seq::<GErr>::empty() } else {
                seq![gerr(ErrT::SyntaxErr(crate::err::def::Expected::CloseBrace), crate::parser::spec::eoi_tok(toks))]
            };
            let sub = parse_prog_from(body, 0);
            let val: GValid = match resolve_ret(rc.tys) {
                Some(r) => if !nilbad { validate_spec(body, r, toks[start]) } else { GValid { errs: Seq::<GErr>::empty(), fatal: false } },
                None => GValid { errs: Seq::<GErr>::empty(), fatal: false },
            };
            let d = parse_fn_spec(toks, start);
            &&& (!sub.fatal && !val.fatal) ==> d.node == Some(GFun {
                name: tok_name(toks[start]),
                args: if ps.vars.len() == 0 { None } else { Some(ps.vars) },
                body: sub.nodes,
                ret_type: resolve_ret(rc.tys),
            })
            &&& !sub.fatal ==> d.errs == ((((ps.errs + rc.errs) + tuple_err) + unterm) + sub.errs) + val.errs
            &&& sub.fatal ==> d.errs == (((ps.errs + rc.errs) + tuple_err) + unterm) + sub.errs
            &&& d.fatal == (sub.fatal || val.fatal)
        }),
{
    let ps = params_spec(toks, start + 2, PState::Start, None);
    let rc = ret_clause_spec(toks, ps.next, toks[start]);
    let nilbad = rc.tys.len() > 1 && contains_nil(rc.tys);
    crate::parser::spec::lemma_params_next(toks, start + 2, PState::Start, None);
    crate::parser::spec::lemma_ret_clause_next(toks, ps.next, toks[start]);
    crate::parser::spec::lemma_brace_end_bounds(toks, rc.next + 1, 1);
    let be = brace_end(toks, rc.next + 1, 1);
    let body = toks.subrange(rc.next + 1, be);
    assert(body.len() < toks.len());
    let val0: GValid = match resolve_ret(rc.tys) {
        Some(r) => if !nilbad { validate_spec(body, r, toks[start]) } else { GValid { errs: Seq::<GErr>::empty(), fatal: false } },
        None => GValid { errs: Seq::<GErr>::empty(), fatal: false },
    };
    assert(parse_fn_spec(toks, start).fatal == (parse_prog_from(body, 0).fatal || val0.fatal));
}

} // verus!
