//! The scanner: a single left-to-right pass over the source bytes producing
//! the span-annotated token stream described by `scan_spec`. Scanning is
//! byte-oriented: the line counter is tracked internally and no end-of-line
//! token is emitted.
use vstd::prelude::*;
use crate::token::defs::{IDType, TT, Token, GTok};
use crate::token::scan::{
    is_nl, is_ws, is_digit_b, is_alpha_b, is_word_b, is_quote, is_punct, punct_tt,
    starts_line_comment, starts_block_comment, keyword_tt_spec,
    word_end, digits_end, quote_end, line_comment_end, block_comment_end,
    adv_line, adv_col, scan_spec,
    lemma_word_end_char, lemma_digits_end_char, lemma_quote_end_char,
    lemma_line_comment_end_char, lemma_block_comment_end_char,
    lemma_adv_snoc, lemma_adv_no_nl,
};

verus! {

/// The model of a scanned token vector.
pub open spec fn tokens_view(ts: Seq<Token>) -> Seq<GTok> {
    ts.map_values(|t: Token| t@)
}

proof fn lemma_view_push(ts: Seq<Token>, t: Token)
    ensures
        tokens_view(ts.push(t)) == tokens_view(ts) + seq![t@],
{
    assert(tokens_view(ts.push(t)) =~= tokens_view(ts) + seq![t@]);
}

/// Whether a byte may continue a word: an ASCII letter, digit, or underscore.
pub fn is_alphanumeric(c: u8) -> (r: bool)
    ensures
        r == is_word_b(c),
{
    (97 <= c && c <= 122) || (65 <= c && c <= 90) || (48 <= c && c <= 57) || c == 95
}

fn is_digit_e(c: u8) -> (r: bool)
    ensures
        r == is_digit_b(c),
{
    48 <= c && c <= 57
}

fn is_alpha_e(c: u8) -> (r: bool)
    ensures
        r == is_alpha_b(c),
{
    (97 <= c && c <= 122) || (65 <= c && c <= 90)
}

fn is_punct_e(c: u8) -> (r: bool)
    ensures
        r == is_punct(c),
{
    c == 40 || c == 41 || c == 123 || c == 125 || c == 91 || c == 93 || c == 44 || c == 59
        || c == 61 || c == 64 || c == 95
}

fn punct_tt_e(c: u8) -> (r: TT)
    ensures
        r == punct_tt(c),
{
    if c == 40 {
        TT::LSmallB
    } else if c == 41 {
        TT::RsmallB
    } else if c == 123 {
        TT::LCurlyB
    } else if c == 125 {
        TT::RCurlyB
    } else if c == 91 {
        TT::LBigB
    } else if c == 93 {
        TT::RBigB
    } else if c == 44 {
        TT::Comma
    } else if c == 59 {
        TT::SemiColon
    } else if c == 61 {
        TT::Eqs
    } else if c == 64 {
        TT::At
    } else {
        TT::Underscore
    }
}

/// Copies the byte range `[a, b)` of a slice into a fresh vector.
fn slice_to_vec(code: &[u8], a: usize, b: usize) -> (r: Vec<u8>)
    requires
        a <= b <= code@.len(),
    ensures
        r@ == code@.subrange(a as int, b as int),
{
    let mut out: Vec<u8> = Vec::new();
    let mut i: usize = a;
    while i < b
        invariant
            a <= i <= b,
            out@ == code@.subrange(a as int, i as int),
        decreases b - i,
    {
        out.push(code[i]);
        i = i + 1;
        proof {
            assert(out@ =~= code@.subrange(a as int, i as int));
        }
    }
    out
}

/// Looks a word up in the keyword table; unmatched words are bare
/// identifiers.
pub fn keyword_tt(s: &[u8]) -> (r: TT)
    ensures
        r == keyword_tt_spec(s@),
{
    let n = s.len();
    if n == 2 && s[0] == 102 && s[1] == 110 {
        proof { assert(s@ =~= crate::token::scan::kw_fn()); }
        TT::FN
    } else if n == 3 && s[0] == 114 && s[1] == 101 && s[2] == 116 {
        proof { assert(s@ =~= crate::token::scan::kw_ret()); }
        TT::Ret
    } else if n == 5 && s[0] == 99 && s[1] == 111 && s[2] == 110 && s[3] == 115 && s[4] == 116 {
        proof { assert(s@ =~= crate::token::scan::kw_const()); }
        TT::CONST
    } else if n == 6 && s[0] == 103 && s[1] == 108 && s[2] == 111 && s[3] == 98 && s[4] == 97 && s[5] == 108 {
        proof { assert(s@ =~= crate::token::scan::kw_global()); }
        TT::GLOBAL
    } else if n == 3 && s[0] == 105 && s[1] == 51 && s[2] == 50 {
        proof { assert(s@ =~= crate::token::scan::kw_i32()); }
        TT::I32
    } else if n == 3 && s[0] == 105 && s[1] == 54 && s[2] == 52 {
        proof { assert(s@ =~= crate::token::scan::kw_i64()); }
        TT::I64
    } else if n == 2 && s[0] == 117 && s[1] == 56 {
        proof { assert(s@ =~= crate::token::scan::kw_u8()); }
        TT::U8
    } else if n == 3 && s[0] == 102 && s[1] == 51 && s[2] == 50 {
        proof { assert(s@ =~= crate::token::scan::kw_f32()); }
        TT::F32
    } else if n == 3 && s[0] == 102 && s[1] == 54 && s[2] == 52 {
        proof { assert(s@ =~= crate::token::scan::kw_f64()); }
        TT::F64
    } else if n == 3 && s[0] == 110 && s[1] == 105 && s[2] == 108 {
        proof { assert(s@ =~= crate::token::scan::kw_nil()); }
        TT::Nil
    } else {
        TT::Ident(IDType::Nil)
    }
}

/// Scans the whole source buffer into a token stream; the result is exactly
/// the stream that `scan_spec` describes, starting at line 1, column 0.
#[verifier::rlimit(100)]
pub fn lex(code: &[u8]) -> (r: Vec<Token>)
    requires
        code@.len() < usize::MAX,
    ensures
        tokens_view(r@) == scan_spec(code@, 0, 1, 0),
{
    let ghost s = code@;
    let mut tokens: Vec<Token> = Vec::new();
    let mut index: usize = 0;
    let mut line: usize = 1;
    let mut col: usize = 0;

    while index < code.len()
        invariant
            index <= code@.len(),
            col <= index,
            line <= index + 1,
            scan_spec(s, 0, 1, 0) == tokens_view(tokens@) + scan_spec(s, index as int, line as int, col as int),
        decreases code@.len() - index,
    {
        let ghost pre = scan_spec(s, index as int, line as int, col as int);
        let c = code[index];
        if c == 10 {
            line = line + 1;
            col = 0;
            index = index + 1;
        } else if c == 32 || c == 13 || c == 9 {
            col = col + 1;
            index = index + 1;
        } else if is_punct_e(c) {
            let tok = Token::new(punct_tt_e(c), line, col, col + 1);
            proof {
                let t = GTok { tt: punct_tt(c), line: line as int, start: col as int, end: col as int + 1, value: None };
                assert(pre == seq![t] + scan_spec(s, index as int + 1, line as int, col as int + 1));
                lemma_view_push(tokens@, tok);
                assert(tok@ == t);
            }
            tokens.push(tok);
            col = col + 1;
            index = index + 1;
        } else if c == 47 && index + 1 < code.len() && code[index + 1] == 47 {
            // line comment: consume through the newline, if any
            let ghost i0 = index as int;
            let mut j = index + 2;
            while j < code.len() && code[j] != 10
                invariant
                    index + 2 <= j <= code@.len(),
                    forall|m: int| i0 <= m < j ==> s[m] != 10,
                decreases code@.len() - j,
            {
                j = j + 1;
            }
            proof {
                lemma_line_comment_end_char(s, i0, j as int);
            }
            if j < code.len() {
                proof {
                    let e = line_comment_end(s, i0);
                    lemma_adv_no_nl(s, i0, j as int, line as int, col as int);
                    lemma_adv_snoc(s, i0, j as int, line as int, col as int);
                    assert(e == j + 1);
                    assert(adv_line(s, i0, e, line as int) == line + 1);
                    assert(adv_col(s, i0, e, col as int) == 0);
                }
                index = j + 1;
                line = line + 1;
                col = 0;
            } else {
                proof {
                    assert(line_comment_end(s, i0) == s.len());
                    assert(scan_spec(s, s.len() as int, adv_line(s, i0, s.len() as int, line as int), adv_col(s, i0, s.len() as int, col as int)) =~= Seq::<GTok>::empty());
                    assert(scan_spec(s, j as int, line as int, col as int) =~= Seq::<GTok>::empty());
                }
                index = j;
            }
        } else if c == 47 && index + 1 < code.len() && code[index + 1] == 42 {
            // block comment: consume through the matching `*/`, tracking
            // embedded newlines
            let ghost i0 = index as int;
            let mut k = index + 2;
            let mut l2 = line;
            let mut c2 = col + 2;
            proof {
                lemma_adv_no_nl(s, i0, i0 + 2, line as int, col as int);
            }
            while k < code.len() && !(code[k] == 42 && k + 1 < code.len() && code[k + 1] == 47)
                invariant
                    index + 2 <= k <= code@.len(),
                    forall|m: int| i0 + 2 <= m < k ==> !(m + 1 < s.len() && #[trigger] s[m] == 42 && s[m + 1] == 47),
                    l2 == adv_line(s, i0, k as int, line as int),
                    c2 == adv_col(s, i0, k as int, col as int),
                    l2 <= k,
                    c2 <= k,
                decreases code@.len() - k,
            {
                proof {
                    lemma_adv_snoc(s, i0, k as int, line as int, col as int);
                }
                if code[k] == 10 {
                    l2 = l2 + 1;
                    c2 = 0;
                } else {
                    c2 = c2 + 1;
                }
                k = k + 1;
            }
            proof {
                lemma_block_comment_end_char(s, i0 + 2, k as int);
            }
            if k < code.len() {
                proof {
                    let e = block_comment_end(s, i0 + 2);
                    assert(e == k + 2);
                    lemma_adv_snoc(s, i0, k as int, line as int, col as int);
                    lemma_adv_snoc(s, i0, k as int + 1, line as int, col as int);
                    assert(adv_line(s, i0, e, line as int) == l2);
                    assert(adv_col(s, i0, e, col as int) == c2 + 2);
                }
                index = k + 2;
                line = l2;
                col = c2 + 2;
            } else {
                proof {
                    assert(block_comment_end(s, i0 + 2) == s.len());
                    assert(scan_spec(s, s.len() as int, adv_line(s, i0, s.len() as int, line as int), adv_col(s, i0, s.len() as int, col as int)) =~= Seq::<GTok>::empty());
                    assert(scan_spec(s, k as int, l2 as int, c2 as int) =~= Seq::<GTok>::empty());
                }
                index = k;
                line = l2;
                col = c2;
            }
        } else if c == 39 || c == 34 {
            // quoted identifier: runs to the matching quote, clamped to the
            // end of the input; the quotes stay part of the token text
            let q = c;
            let ghost i0 = index as int;
            let mut k = index + 1;
            let mut l2 = line;
            let mut c2 = col + 1;
            proof {
                lemma_adv_no_nl(s, i0, i0 + 1, line as int, col as int);
            }
            while k < code.len() && code[k] != q
                invariant
                    index + 1 <= k <= code@.len(),
                    forall|m: int| i0 + 1 <= m < k ==> s[m] != q,
                    l2 == adv_line(s, i0, k as int, line as int),
                    c2 == adv_col(s, i0, k as int, col as int),
                    l2 <= k,
                    c2 <= k,
                decreases code@.len() - k,
            {
                proof {
                    lemma_adv_snoc(s, i0, k as int, line as int, col as int);
                }
                if code[k] == 10 {
                    l2 = l2 + 1;
                    c2 = 0;
                } else {
                    c2 = c2 + 1;
                }
                k = k + 1;
            }
            proof {
                lemma_quote_end_char(s, i0 + 1, k as int, q);
            }
            let idt = if q == 39 { IDType::SQ } else { IDType::DQ };
            if k < code.len() {
                let j = k + 1;
                let value = slice_to_vec(code, index, j);
                let tok = Token { TT: TT::Ident(idt), line, start: col, end: col + (j - index), value: Some(value) };
                proof {
                    let e = quote_end(s, i0 + 1, q);
                    assert(e == j);
                    lemma_adv_snoc(s, i0, k as int, line as int, col as int);
                    assert(adv_line(s, i0, e, line as int) == l2);
                    assert(adv_col(s, i0, e, col as int) == c2 + 1);
                    let t = GTok { tt: TT::Ident(idt), line: line as int, start: col as int, end: col as int + (e - i0), value: Some(s.subrange(i0, e)) };
                    assert(pre == seq![t] + scan_spec(s, e, l2 as int, c2 as int + 1));
                    lemma_view_push(tokens@, tok);
                    assert(tok@ == t);
                }
                tokens.push(tok);
                index = j;
                line = l2;
                col = c2 + 1;
            } else {
                // unterminated: the token's end is clamped to end-of-input
                let value = slice_to_vec(code, index, k);
                let tok = Token { TT: TT::Ident(idt), line, start: col, end: col + (k - index), value: Some(value) };
                proof {
                    let e = quote_end(s, i0 + 1, q);
                    assert(e == s.len());
                    let t = GTok { tt: TT::Ident(idt), line: line as int, start: col as int, end: col as int + (e - i0), value: Some(s.subrange(i0, e)) };
                    assert(pre == seq![t] + scan_spec(s, e, adv_line(s, i0, e, line as int), adv_col(s, i0, e, col as int)));
                    assert(scan_spec(s, e, adv_line(s, i0, e, line as int), adv_col(s, i0, e, col as int)) =~= Seq::<GTok>::empty());
                    assert(scan_spec(s, k as int, l2 as int, c2 as int) =~= Seq::<GTok>::empty());
                    lemma_view_push(tokens@, tok);
                    assert(tok@ == t);
                }
                tokens.push(tok);
                index = k;
                line = l2;
                col = c2;
            }
        } else if is_digit_e(c) {
            // numeric literal: a maximal run of ASCII digits
            let ghost i0 = index as int;
            let mut j = index + 1;
            while j < code.len() && is_digit_e(code[j])
                invariant
                    index + 1 <= j <= code@.len(),
                    forall|m: int| i0 <= m < j ==> is_digit_b(s[m]),
                decreases code@.len() - j,
            {
                j = j + 1;
            }
            proof {
                lemma_digits_end_char(s, i0, j as int);
            }
            let value = slice_to_vec(code, index, j);
            let tok = Token { TT: TT::NUM, line, start: col, end: col + (j - index), value: Some(value) };
            proof {
                let t = GTok { tt: TT::NUM, line: line as int, start: col as int, end: col as int + (j - i0), value: Some(s.subrange(i0, j as int)) };
                assert(pre == seq![t] + scan_spec(s, j as int, line as int, col as int + (j - i0)));
                lemma_view_push(tokens@, tok);
                assert(tok@ == t);
            }
            tokens.push(tok);
            col = col + (j - index);
            index = j;
        } else if is_alpha_e(c) {
            // word: keyword or bare identifier
            let ghost i0 = index as int;
            let mut j = index + 1;
            while j < code.len() && is_alphanumeric(code[j])
                invariant
                    index + 1 <= j <= code@.len(),
                    forall|m: int| i0 <= m < j ==> is_word_b(s[m]),
                decreases code@.len() - j,
            {
                j = j + 1;
            }
            proof {
                lemma_word_end_char(s, i0, j as int);
            }
            let wvec = slice_to_vec(code, index, j);
            let tt = keyword_tt(wvec.as_slice());
            let value: Option<Vec<u8>> = if tt == TT::Ident(IDType::Nil) { Some(wvec) } else { None };
            let tok = Token { TT: tt, line, start: col, end: col + (j - index), value };
            proof {
                let w = s.subrange(i0, j as int);
                let stt = keyword_tt_spec(w);
                let sv: Option<Seq<u8>> = if stt == TT::Ident(IDType::Nil) { Some(w) } else { None };
                let t = GTok { tt: stt, line: line as int, start: col as int, end: col as int + (j - i0), value: sv };
                assert(pre == seq![t] + scan_spec(s, j as int, line as int, col as int + (j - i0)));
                lemma_view_push(tokens@, tok);
                assert(tok@ == t);
            }
            tokens.push(tok);
            col = col + (j - index);
            index = j;
        } else {
            // unrecognized byte: silently skipped
            proof {
                assert(!is_punct(c) && !is_quote(c) && !is_digit_b(c) && !is_alpha_b(c) && !is_nl(c) && !is_ws(c));
                assert(!starts_line_comment(s, index as int) && !starts_block_comment(s, index as int));
                assert(pre == scan_spec(s, index as int + 1, line as int, col as int + 1));
            }
            col = col + 1;
            index = index + 1;
        }
    }
    proof {
        assert(scan_spec(s, index as int, line as int, col as int) =~= Seq::<GTok>::empty());
        assert(tokens_view(tokens@) =~= tokens_view(tokens@) + scan_spec(s, index as int, line as int, col as int));
    }
    tokens
}

} // verus!
