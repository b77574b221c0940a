//! Mathematical model of the scanner: a recursive specification of the token
//! stream produced from a byte sequence, together with the text
//! reconstruction of that stream.
use vstd::prelude::*;
use crate::token::defs::{GTok, IDType, TT};

verus! {

// ---------------------------------------------------------------------------
// Byte classes
// ---------------------------------------------------------------------------

pub open spec fn is_nl(c: u8) -> bool {
    c == 10
}

/// Whitespace other than newline: space, carriage return, tab.
pub open spec fn is_ws(c: u8) -> bool {
    c == 32 || c == 13 || c == 9
}

pub open spec fn is_digit_b(c: u8) -> bool {
    48 <= c <= 57
}

pub open spec fn is_alpha_b(c: u8) -> bool {
    (97 <= c <= 122) || (65 <= c <= 90)
}

/// Bytes that may continue a word: letters, digits, underscore.
pub open spec fn is_word_b(c: u8) -> bool {
    is_alpha_b(c) || is_digit_b(c) || c == 95
}

pub open spec fn is_quote(c: u8) -> bool {
    c == 39 || c == 34
}

/// Single-byte punctuation bytes recognized by the scanner.
pub open spec fn is_punct(c: u8) -> bool {
    c == 40 || c == 41 || c == 123 || c == 125 || c == 91 || c == 93
        || c == 44 || c == 59 || c == 61 || c == 64 || c == 95
}

/// The token kind of a punctuation byte; meaningful only when `is_punct(c)`.
pub open spec fn punct_tt(c: u8) -> TT {
    if c == 40 {
        TT::LSmallB
    } else if c == 41 {
        TT::RsmallB
    } else if c == 123 {
        TT::LCurlyB
    } else if c == 125 {
        TT::RCurlyB
    } else if c == 91 {
        TT::LBigB
    } else if c == 93 {
        TT::RBigB
    } else if c == 44 {
        TT::Comma
    } else if c == 59 {
        TT::SemiColon
    } else if c == 61 {
        TT::Eqs
    } else if c == 64 {
        TT::At
    } else {
        TT::Underscore
    }
}

pub open spec fn starts_line_comment(s: Seq<u8>, i: int) -> bool {
    i + 1 < s.len() && s[i] == 47 && s[i + 1] == 47
}

pub open spec fn starts_block_comment(s: Seq<u8>, i: int) -> bool {
    i + 1 < s.len() && s[i] == 47 && s[i + 1] == 42
}

// ---------------------------------------------------------------------------
// Keyword texts
// ---------------------------------------------------------------------------

pub open spec fn kw_fn() -> Seq<u8> {
    seq![102, 110]
}

pub open spec fn kw_ret() -> Seq<u8> {
    seq![114, 101, 116]
}

pub open spec fn kw_const() -> Seq<u8> {
    seq![99, 111, 110, 115, 116]
}

pub open spec fn kw_global() -> Seq<u8> {
    seq![103, 108, 111, 98, 97, 108]
}

pub open spec fn kw_i32() -> Seq<u8> {
    seq![105, 51, 50]
}

pub open spec fn kw_i64() -> Seq<u8> {
    seq![105, 54, 52]
}

pub open spec fn kw_u8() -> Seq<u8> {
    seq![117, 56]
}

pub open spec fn kw_f32() -> Seq<u8> {
    seq![102, 51, 50]
}

pub open spec fn kw_f64() -> Seq<u8> {
    seq![102, 54, 52]
}

pub open spec fn kw_nil() -> Seq<u8> {
    seq![110, 105, 108]
}

/// Type names that are not keywords: they reach the parser as bare
/// identifiers with these texts.
pub open spec fn kw_char() -> Seq<u8> {
    seq![99, 104, 97, 114]
}

pub open spec fn kw_lazypage() -> Seq<u8> {
    seq![108, 97, 122, 121, 112, 97, 103, 101]
}

pub open spec fn kw_zeropage() -> Seq<u8> {
    seq![122, 101, 114, 111, 112, 97, 103, 101]
}

/// The kind a scanned word receives: a keyword kind when the text matches
/// the keyword table, a bare identifier otherwise.
pub open spec fn keyword_tt_spec(w: Seq<u8>) -> TT {
    if w == kw_fn() {
        TT::FN
    } else if w == kw_ret() {
        TT::Ret
    } else if w == kw_const() {
        TT::CONST
    } else if w == kw_global() {
        TT::GLOBAL
    } else if w == kw_i32() {
        TT::I32
    } else if w == kw_i64() {
        TT::I64
    } else if w == kw_u8() {
        TT::U8
    } else if w == kw_f32() {
        TT::F32
    } else if w == kw_f64() {
        TT::F64
    } else if w == kw_nil() {
        TT::Nil
    } else {
        TT::Ident(IDType::Nil)
    }
}

// ---------------------------------------------------------------------------
// Region end positions
// ---------------------------------------------------------------------------

/// First position at or after `i` that is not a word byte.
pub open spec fn word_end(s: Seq<u8>, i: int) -> int
    decreases s.len() - i,
{
    if i < 0 || i >= s.len() || !is_word_b(s[i]) {
        i
    } else {
        word_end(s, i + 1)
    }
}

/// First position at or after `i` that is not a digit.
pub open spec fn digits_end(s: Seq<u8>, i: int) -> int
    decreases s.len() - i,
{
    if i < 0 || i >= s.len() || !is_digit_b(s[i]) {
        i
    } else {
        digits_end(s, i + 1)
    }
}

/// End of a quoted identifier whose opening quote `q` sits just before `i`:
/// one past the next `q`, clamped to the end of the input.
pub open spec fn quote_end(s: Seq<u8>, i: int, q: u8) -> int
    decreases s.len() - i,
{
    if i < 0 || i >= s.len() {
        s.len() as int
    } else if s[i] == q {
        i + 1
    } else {
        quote_end(s, i + 1, q)
    }
}

/// End of a line comment starting at `i`: one past the next newline, clamped
/// to the end of the input.
pub open spec fn line_comment_end(s: Seq<u8>, i: int) -> int
    decreases s.len() - i,
{
    if i < 0 || i >= s.len() {
        s.len() as int
    } else if s[i] == 10 {
        i + 1
    } else {
        line_comment_end(s, i + 1)
    }
}

/// End of a block comment whose interior starts at `i` (just after `/*`):
/// two past the next `*/`, clamped to the end of the input.
pub open spec fn block_comment_end(s: Seq<u8>, i: int) -> int
    decreases s.len() - i,
{
    if i < 0 || i + 1 >= s.len() {
        s.len() as int
    } else if s[i] == 42 && s[i + 1] == 47 {
        i + 2
    } else {
        block_comment_end(s, i + 1)
    }
}

// ---------------------------------------------------------------------------
// Line and column bookkeeping
// ---------------------------------------------------------------------------

/// The line counter after reading bytes `[a, b)`, starting from `line`.
pub open spec fn adv_line(s: Seq<u8>, a: int, b: int, line: int) -> int
    decreases b - a,
{
    if a >= b {
        line
    } else {
        adv_line(s, a + 1, b, if s[a] == 10 { line + 1 } else { line })
    }
}

/// The column counter after reading bytes `[a, b)`, starting from `col`;
/// a newline resets it to zero.
pub open spec fn adv_col(s: Seq<u8>, a: int, b: int, col: int) -> int
    decreases b - a,
{
    if a >= b {
        col
    } else {
        adv_col(s, a + 1, b, if s[a] == 10 { 0 } else { col + 1 })
    }
}

// ---------------------------------------------------------------------------
// Bounds on the region end positions
// ---------------------------------------------------------------------------

pub proof fn lemma_word_end_bounds(s: Seq<u8>, i: int)
    requires
        0 <= i <= s.len(),
    ensures
        i <= word_end(s, i) <= s.len(),
    decreases s.len() - i,
{
    if i < s.len() && is_word_b(s[i]) {
        lemma_word_end_bounds(s, i + 1);
    }
}

pub proof fn lemma_digits_end_bounds(s: Seq<u8>, i: int)
    requires
        0 <= i <= s.len(),
    ensures
        i <= digits_end(s, i) <= s.len(),
    decreases s.len() - i,
{
    if i < s.len() && is_digit_b(s[i]) {
        lemma_digits_end_bounds(s, i + 1);
    }
}

pub proof fn lemma_quote_end_bounds(s: Seq<u8>, i: int, q: u8)
    requires
        0 <= i <= s.len(),
    ensures
        i <= quote_end(s, i, q) <= s.len(),
    decreases s.len() - i,
{
    if i < s.len() && s[i] != q {
        lemma_quote_end_bounds(s, i + 1, q);
    }
}

pub proof fn lemma_line_comment_end_bounds(s: Seq<u8>, i: int)
    requires
        0 <= i <= s.len(),
    ensures
        i <= line_comment_end(s, i) <= s.len(),
    decreases s.len() - i,
{
    if i < s.len() && s[i] != 10 {
        lemma_line_comment_end_bounds(s, i + 1);
    }
}

pub proof fn lemma_block_comment_end_bounds(s: Seq<u8>, i: int)
    requires
        0 <= i <= s.len(),
    ensures
        i <= block_comment_end(s, i) <= s.len(),
    decreases s.len() - i,
{
    if i + 1 < s.len() && !(s[i] == 42 && s[i + 1] == 47) {
        lemma_block_comment_end_bounds(s, i + 1);
    }
}

// ---------------------------------------------------------------------------
// The scanned token stream
// ---------------------------------------------------------------------------

/// The token stream scanned from `s` starting at position `i`, with the
/// current 1-based line and 0-based column. A token's span always covers its
/// byte length on its starting line.
pub open spec fn scan_spec(s: Seq<u8>, i: int, line: int, col: int) -> Seq<GTok>
    decreases s.len() - i,
        via scan_spec_dec
{
    if i < 0 || i >= s.len() {
        Seq::empty()
    } else {
        let c = s[i];
        if is_nl(c) {
            scan_spec(s, i + 1, line + 1, 0)
        } else if is_ws(c) {
            scan_spec(s, i + 1, line, col + 1)
        } else if is_punct(c) {
            seq![GTok { tt: punct_tt(c), line, start: col, end: col + 1, value: None }]
                + scan_spec(s, i + 1, line, col + 1)
        } else if starts_line_comment(s, i) {
            let j = line_comment_end(s, i);
            scan_spec(s, j, adv_line(s, i, j, line), adv_col(s, i, j, col))
        } else if starts_block_comment(s, i) {
            let j = block_comment_end(s, i + 2);
            scan_spec(s, j, adv_line(s, i, j, line), adv_col(s, i, j, col))
        } else if is_quote(c) {
            let j = quote_end(s, i + 1, c);
            let idt = if c == 39 { IDType::SQ } else { IDType::DQ };
            seq![GTok { tt: TT::Ident(idt), line, start: col, end: col + (j - i), value: Some(s.subrange(i, j)) }]
                + scan_spec(s, j, adv_line(s, i, j, line), adv_col(s, i, j, col))
        } else if is_digit_b(c) {
            let j = digits_end(s, i);
            seq![GTok { tt: TT::NUM, line, start: col, end: col + (j - i), value: Some(s.subrange(i, j)) }]
                + scan_spec(s, j, line, col + (j - i))
        } else if is_alpha_b(c) {
            let j = word_end(s, i);
            let w = s.subrange(i, j);
            let tt = keyword_tt_spec(w);
            let v: Option<Seq<u8>> = if tt == TT::Ident(IDType::Nil) { Some(w) } else { None };
            seq![GTok { tt, line, start: col, end: col + (j - i), value: v }]
                + scan_spec(s, j, line, col + (j - i))
        } else {
            scan_spec(s, i + 1, line, col + 1)
        }
    }
}

#[via_fn]
proof fn scan_spec_dec(s: Seq<u8>, i: int, line: int, col: int) {
    if 0 <= i && i < s.len() {
        let c = s[i];
        if starts_line_comment(s, i) {
            lemma_line_comment_end_bounds(s, i + 1);
        } else if starts_block_comment(s, i) {
            lemma_block_comment_end_bounds(s, i + 2);
        } else if is_quote(c) {
            lemma_quote_end_bounds(s, i + 1, c);
        } else if is_digit_b(c) {
            lemma_digits_end_bounds(s, i + 1);
        } else if is_alpha_b(c) {
            lemma_word_end_bounds(s, i + 1);
        }
    }
}

// ---------------------------------------------------------------------------
// Text reconstruction
// ---------------------------------------------------------------------------

/// The source text of one token: the raw text for identifiers and numeric
/// literals, the fixed spelling for keywords and punctuation. The sentinel
/// kind `TT::Nil` spells as the keyword `nil`, which is what the scanner
/// emits it for.
pub open spec fn tok_bytes(t: GTok) -> Seq<u8> {
    match t.tt {
        TT::Ident(_) => match t.value {
            Some(v) => v,
            None => Seq::empty(),
        },
        TT::NUM => match t.value {
            Some(v) => v,
            None => Seq::empty(),
        },
        TT::FN => kw_fn(),
        TT::Ret => kw_ret(),
        TT::CONST => kw_const(),
        TT::GLOBAL => kw_global(),
        TT::I32 => kw_i32(),
        TT::I64 => kw_i64(),
        TT::U8 => kw_u8(),
        TT::F32 => kw_f32(),
        TT::F64 => kw_f64(),
        TT::Nil => kw_nil(),
        TT::LSmallB => seq![40],
        TT::RsmallB => seq![41],
        TT::LCurlyB => seq![123],
        TT::RCurlyB => seq![125],
        TT::LBigB => seq![91],
        TT::RBigB => seq![93],
        TT::Comma => seq![44],
        TT::SemiColon => seq![59],
        TT::Eqs => seq![61],
        TT::At => seq![64],
        TT::Underscore => seq![95],
    }
}

/// Concatenation of the source texts of a token stream.
pub open spec fn toks_bytes(ts: Seq<GTok>) -> Seq<u8>
    decreases ts.len(),
{
    if ts.len() == 0 {
        Seq::empty()
    } else {
        tok_bytes(ts[0]) + toks_bytes(ts.drop_first())
    }
}

/// The text reconstruction of the scan of `s` from position `i`: exactly the
/// bytes covered by tokens, with whitespace, comments and unrecognized bytes
/// dropped.
pub open spec fn recon(s: Seq<u8>, i: int) -> Seq<u8>
    decreases s.len() - i,
        via recon_dec
{
    if i < 0 || i >= s.len() {
        Seq::empty()
    } else {
        let c = s[i];
        if is_nl(c) || is_ws(c) {
            recon(s, i + 1)
        } else if is_punct(c) {
            s.subrange(i, i + 1) + recon(s, i + 1)
        } else if starts_line_comment(s, i) {
            recon(s, line_comment_end(s, i))
        } else if starts_block_comment(s, i) {
            recon(s, block_comment_end(s, i + 2))
        } else if is_quote(c) {
            let j = quote_end(s, i + 1, c);
            s.subrange(i, j) + recon(s, j)
        } else if is_digit_b(c) {
            let j = digits_end(s, i);
            s.subrange(i, j) + recon(s, j)
        } else if is_alpha_b(c) {
            let j = word_end(s, i);
            s.subrange(i, j) + recon(s, j)
        } else {
            recon(s, i + 1)
        }
    }
}

#[via_fn]
proof fn recon_dec(s: Seq<u8>, i: int) {
    if 0 <= i && i < s.len() {
        let c = s[i];
        if starts_line_comment(s, i) {
            lemma_line_comment_end_bounds(s, i + 1);
        } else if starts_block_comment(s, i) {
            lemma_block_comment_end_bounds(s, i + 2);
        } else if is_quote(c) {
            lemma_quote_end_bounds(s, i + 1, c);
        } else if is_digit_b(c) {
            lemma_digits_end_bounds(s, i + 1);
        } else if is_alpha_b(c) {
            lemma_word_end_bounds(s, i + 1);
        }
    }
}

/// The texts of the scanned token stream are exactly the reconstruction:
/// spans and line/column bookkeeping have no bearing on the texts.
pub proof fn lemma_scan_texts(s: Seq<u8>, i: int, line: int, col: int)
    ensures
        toks_bytes(scan_spec(s, i, line, col)) == recon(s, i),
    decreases s.len() - i,
{
    if i < 0 || i >= s.len() {
    } else {
        let c = s[i];
        if is_nl(c) {
            lemma_scan_texts(s, i + 1, line + 1, 0);
        } else if is_ws(c) {
            lemma_scan_texts(s, i + 1, line, col + 1);
        } else if is_punct(c) {
            let t = GTok { tt: punct_tt(c), line, start: col, end: col + 1, value: None };
            let rest = scan_spec(s, i + 1, line, col + 1);
            lemma_scan_texts(s, i + 1, line, col + 1);
            assert((seq![t] + rest)[0] == t);
            assert((seq![t] + rest).drop_first() =~= rest);
            assert(tok_bytes(t) =~= s.subrange(i, i + 1));
        } else if starts_line_comment(s, i) {
            lemma_line_comment_end_bounds(s, i + 1);
            lemma_scan_texts(s, line_comment_end(s, i), adv_line(s, i, line_comment_end(s, i), line), adv_col(s, i, line_comment_end(s, i), col));
        } else if starts_block_comment(s, i) {
            lemma_block_comment_end_bounds(s, i + 2);
            let j = block_comment_end(s, i + 2);
            lemma_scan_texts(s, j, adv_line(s, i, j, line), adv_col(s, i, j, col));
        } else if is_quote(c) {
            lemma_quote_end_bounds(s, i + 1, c);
            let j = quote_end(s, i + 1, c);
            let idt = if c == 39 { IDType::SQ } else { IDType::DQ };
            let t = GTok { tt: TT::Ident(idt), line, start: col, end: col + (j - i), value: Some(s.subrange(i, j)) };
            let rest = scan_spec(s, j, adv_line(s, i, j, line), adv_col(s, i, j, col));
            lemma_scan_texts(s, j, adv_line(s, i, j, line), adv_col(s, i, j, col));
            assert((seq![t] + rest)[0] == t);
            assert((seq![t] + rest).drop_first() =~= rest);
        } else if is_digit_b(c) {
            lemma_digits_end_bounds(s, i + 1);
            let j = digits_end(s, i);
            let t = GTok { tt: TT::NUM, line, start: col, end: col + (j - i), value: Some(s.subrange(i, j)) };
            let rest = scan_spec(s, j, line, col + (j - i));
            lemma_scan_texts(s, j, line, col + (j - i));
            assert((seq![t] + rest)[0] == t);
            assert((seq![t] + rest).drop_first() =~= rest);
        } else if is_alpha_b(c) {
            lemma_word_end_bounds(s, i + 1);
            let j = word_end(s, i);
            let w = s.subrange(i, j);
            let tt = keyword_tt_spec(w);
            let v: Option<Seq<u8>> = if tt == TT::Ident(IDType::Nil) { Some(w) } else { None };
            let t = GTok { tt, line, start: col, end: col + (j - i), value: v };
            let rest = scan_spec(s, j, line, col + (j - i));
            lemma_scan_texts(s, j, line, col + (j - i));
            assert((seq![t] + rest)[0] == t);
            assert((seq![t] + rest).drop_first() =~= rest);
            assert(tok_bytes(t) == w);
        } else {
            lemma_scan_texts(s, i + 1, line, col + 1);
        }
    }
}


// ---------------------------------------------------------------------------
// Characterizations of the region end positions, and facts about the
// line/column bookkeeping, used to verify the scanner's loops.
// ---------------------------------------------------------------------------

pub proof fn lemma_word_end_char(s: Seq<u8>, i: int, k: int)
    requires
        0 <= i <= k <= s.len(),
        forall|m: int| i <= m < k ==> is_word_b(s[m]),
        k == s.len() || !is_word_b(s[k]),
    ensures
        word_end(s, i) == k,
    decreases k - i,
{
    if i < k {
        lemma_word_end_char(s, i + 1, k);
    }
}

pub proof fn lemma_digits_end_char(s: Seq<u8>, i: int, k: int)
    requires
        0 <= i <= k <= s.len(),
        forall|m: int| i <= m < k ==> is_digit_b(s[m]),
        k == s.len() || !is_digit_b(s[k]),
    ensures
        digits_end(s, i) == k,
    decreases k - i,
{
    if i < k {
        lemma_digits_end_char(s, i + 1, k);
    }
}

pub proof fn lemma_quote_end_char(s: Seq<u8>, i: int, k: int, q: u8)
    requires
        0 <= i <= k <= s.len(),
        forall|m: int| i <= m < k ==> s[m] != q,
        k == s.len() || s[k] == q,
    ensures
        quote_end(s, i, q) == if k < s.len() { k + 1 } else { s.len() as int },
    decreases k - i,
{
    if i < k {
        lemma_quote_end_char(s, i + 1, k, q);
    }
}

pub proof fn lemma_line_comment_end_char(s: Seq<u8>, i: int, k: int)
    requires
        0 <= i <= k <= s.len(),
        forall|m: int| i <= m < k ==> s[m] != 10,
        k == s.len() || s[k] == 10,
    ensures
        line_comment_end(s, i) == if k < s.len() { k + 1 } else { s.len() as int },
    decreases k - i,
{
    if i < k {
        lemma_line_comment_end_char(s, i + 1, k);
    }
}

pub proof fn lemma_block_comment_end_char(s: Seq<u8>, i: int, k: int)
    requires
        0 <= i <= k <= s.len(),
        forall|m: int| i <= m < k ==> !(m + 1 < s.len() && #[trigger] s[m] == 42 && s[m + 1] == 47),
        k + 1 >= s.len() || (s[k] == 42 && s[k + 1] == 47),
    ensures
        block_comment_end(s, i) == if k + 1 < s.len() { k + 2 } else { s.len() as int },
    decreases k - i,
{
    if i < k && i + 1 < s.len() {
        lemma_block_comment_end_char(s, i + 1, k);
    }
}

/// Reading one more byte: the line counter grows on a newline, the column
/// counter resets on a newline and grows otherwise.
pub proof fn lemma_adv_snoc(s: Seq<u8>, a: int, b: int, line: int, col: int)
    requires
        a <= b,
    ensures
        adv_line(s, a, b + 1, line) == if s[b] == 10 { adv_line(s, a, b, line) + 1 } else { adv_line(s, a, b, line) },
        adv_col(s, a, b + 1, col) == if s[b] == 10 { 0int } else { adv_col(s, a, b, col) + 1 },
    decreases b - a,
{
    if a < b {
        if s[a] == 10 {
            lemma_adv_snoc(s, a + 1, b, line + 1, 0);
        } else {
            lemma_adv_snoc(s, a + 1, b, line, col + 1);
        }
    } else {
        let l1 = if s[a] == 10 { line + 1 } else { line };
        let c1 = if s[a] == 10 { 0int } else { col + 1 };
        assert(adv_line(s, a, b + 1, line) == adv_line(s, a + 1, b + 1, l1));
        assert(adv_line(s, a + 1, b + 1, l1) == l1);
        assert(adv_col(s, a, b + 1, col) == adv_col(s, a + 1, b + 1, c1));
        assert(adv_col(s, a + 1, b + 1, c1) == c1);
    }
}

/// Over a newline-free range the line counter is unchanged and the column
/// counter grows by the range's length.
pub proof fn lemma_adv_no_nl(s: Seq<u8>, a: int, b: int, line: int, col: int)
    requires
        a <= b,
        forall|m: int| a <= m < b ==> s[m] != 10,
    ensures
        adv_line(s, a, b, line) == line,
        adv_col(s, a, b, col) == col + (b - a),
    decreases b - a,
{
    if a < b {
        lemma_adv_no_nl(s, a + 1, b, line, col + 1);
    }
}


/// The column counter never goes negative.
pub proof fn lemma_adv_col_nonneg(s: Seq<u8>, a: int, b: int, col: int)
    requires
        col >= 0,
    ensures
        adv_col(s, a, b, col) >= 0,
    decreases b - a,
{
    if a < b {
        if s[a] == 10 {
            lemma_adv_col_nonneg(s, a + 1, b, 0);
        } else {
            lemma_adv_col_nonneg(s, a + 1, b, col + 1);
        }
    }
}

/// Every scanned token has a well-formed span: a nonnegative start column
/// and a strictly larger end column (width at least one).
pub proof fn lemma_scan_spans(s: Seq<u8>, i: int, line: int, col: int)
    requires
        0 <= i,
        0 <= col,
    ensures
        forall|k: int| 0 <= k < scan_spec(s, i, line, col).len()
            ==> 0 <= #[trigger] scan_spec(s, i, line, col)[k].start
                < scan_spec(s, i, line, col)[k].end,
    decreases s.len() - i,
{
    if i >= s.len() {
    } else {
        let c = s[i];
        if is_nl(c) {
            lemma_scan_spans(s, i + 1, line + 1, 0);
        } else if is_ws(c) {
            lemma_scan_spans(s, i + 1, line, col + 1);
        } else if is_punct(c) {
            lemma_scan_spans(s, i + 1, line, col + 1);
        } else if starts_line_comment(s, i) {
            let j = line_comment_end(s, i);
            lemma_line_comment_end_bounds(s, i + 1);
            lemma_adv_col_nonneg(s, i, j, col);
            lemma_scan_spans(s, j, adv_line(s, i, j, line), adv_col(s, i, j, col));
        } else if starts_block_comment(s, i) {
            let j = block_comment_end(s, i + 2);
            lemma_block_comment_end_bounds(s, i + 2);
            lemma_adv_col_nonneg(s, i, j, col);
            lemma_scan_spans(s, j, adv_line(s, i, j, line), adv_col(s, i, j, col));
        } else if is_quote(c) {
            let j = quote_end(s, i + 1, c);
            lemma_quote_end_bounds(s, i + 1, c);
            lemma_adv_col_nonneg(s, i, j, col);
            lemma_scan_spans(s, j, adv_line(s, i, j, line), adv_col(s, i, j, col));
        } else if is_digit_b(c) {
            let j = digits_end(s, i);
            lemma_digits_end_bounds(s, i + 1);
            lemma_scan_spans(s, j, line, col + (j - i));
        } else if is_alpha_b(c) {
            let j = word_end(s, i);
            lemma_word_end_bounds(s, i + 1);
            lemma_scan_spans(s, j, line, col + (j - i));
        } else {
            lemma_scan_spans(s, i + 1, line, col + 1);
        }
    }
}

} // verus!
