//! Stability of the scanner's text reconstruction: scanning the
//! concatenation of the token texts of a scan reproduces that concatenation
//! exactly. Whitespace, comments and unrecognized bytes are gone after one
//! scan, and what remains is a fixed point of scanning-then-reconstructing.
use vstd::prelude::*;
use crate::token::scan::{
    is_digit_b, is_alpha_b, is_word_b, is_quote, is_punct, is_nl, is_ws,
    starts_line_comment, starts_block_comment,
    word_end, digits_end, quote_end, line_comment_end, block_comment_end,
    recon, scan_spec, toks_bytes,
    lemma_word_end_bounds, lemma_digits_end_bounds, lemma_quote_end_bounds,
    lemma_line_comment_end_bounds, lemma_block_comment_end_bounds,
    lemma_word_end_char, lemma_digits_end_char, lemma_quote_end_char,
    lemma_scan_texts,
};

verus! {

// ---------------------------------------------------------------------------
// Canonical byte sequences: those tiled exactly by token-shaped slices
// ---------------------------------------------------------------------------

/// Holds when the bytes of `r` from position `i` on are tiled by token
/// shapes: digit runs, word runs, punctuation bytes, and quoted regions,
/// with no whitespace, comment or unrecognized byte in between. The scanner
/// reads such a suffix back as tokens covering every byte.
pub open spec fn canon(r: Seq<u8>, i: int) -> bool
    decreases r.len() - i,
        via canon_dec
{
    if i < 0 {
        false
    } else if i >= r.len() {
        true
    } else {
        let c = r[i];
        if is_digit_b(c) {
            canon(r, digits_end(r, i))
        } else if is_alpha_b(c) {
            canon(r, word_end(r, i))
        } else if is_punct(c) {
            canon(r, i + 1)
        } else if is_quote(c) {
            canon(r, quote_end(r, i + 1, c))
        } else {
            false
        }
    }
}

#[via_fn]
proof fn canon_dec(r: Seq<u8>, i: int) {
    if 0 <= i && i < r.len() {
        let c = r[i];
        if is_digit_b(c) {
            lemma_digits_end_bounds(r, i + 1);
        } else if is_alpha_b(c) {
            lemma_word_end_bounds(r, i + 1);
        } else if is_quote(c) {
            lemma_quote_end_bounds(r, i + 1, c);
        }
    }
}

// ---------------------------------------------------------------------------
// Properties of the region end positions
// ---------------------------------------------------------------------------

proof fn lemma_digits_end_props(r: Seq<u8>, x: int)
    requires
        0 <= x <= r.len(),
    ensures
        x <= digits_end(r, x) <= r.len(),
        forall|m: int| x <= m < digits_end(r, x) ==> is_digit_b(r[m]),
        digits_end(r, x) == r.len() || !is_digit_b(r[digits_end(r, x)]),
    decreases r.len() - x,
{
    if x < r.len() && is_digit_b(r[x]) {
        lemma_digits_end_props(r, x + 1);
    }
}

proof fn lemma_word_end_props(r: Seq<u8>, x: int)
    requires
        0 <= x <= r.len(),
    ensures
        x <= word_end(r, x) <= r.len(),
        forall|m: int| x <= m < word_end(r, x) ==> is_word_b(r[m]),
        word_end(r, x) == r.len() || !is_word_b(r[word_end(r, x)]),
    decreases r.len() - x,
{
    if x < r.len() && is_word_b(r[x]) {
        lemma_word_end_props(r, x + 1);
    }
}

proof fn lemma_quote_end_props(r: Seq<u8>, x: int, q: u8)
    requires
        0 <= x <= r.len(),
    ensures
        x <= quote_end(r, x, q) <= r.len(),
        forall|m: int| x <= m < quote_end(r, x, q) - 1 ==> r[m] != q,
        (x <= quote_end(r, x, q) - 1 < r.len() && r[quote_end(r, x, q) - 1] == q)
            || (quote_end(r, x, q) == r.len() && forall|m: int| x <= m < r.len() ==> r[m] != q),
    decreases r.len() - x,
{
    if x < r.len() && r[x] != q {
        lemma_quote_end_props(r, x + 1, q);
    }
}

/// A digit run starting at or after `p` cannot pass a non-digit boundary `w`.
proof fn lemma_digits_end_ub(r: Seq<u8>, p: int, w: int)
    requires
        0 <= p <= w <= r.len(),
        w == r.len() || !is_digit_b(r[w]),
    ensures
        digits_end(r, p) <= w,
    decreases w - p,
{
    if p < w && is_digit_b(r[p]) {
        lemma_digits_end_ub(r, p + 1, w);
    }
}

// ---------------------------------------------------------------------------
// Shift lemmas: the predicates read only the suffix they start in
// ---------------------------------------------------------------------------

proof fn lemma_digits_end_shift(t: Seq<u8>, r: Seq<u8>, x: int)
    requires
        0 <= x <= r.len(),
    ensures
        digits_end(t + r, t.len() + x) == t.len() + digits_end(r, x),
    decreases r.len() - x,
{
    if x < r.len() {
        assert((t + r)[t.len() + x] == r[x]);
        if is_digit_b(r[x]) {
            lemma_digits_end_shift(t, r, x + 1);
        }
    }
}

proof fn lemma_word_end_shift(t: Seq<u8>, r: Seq<u8>, x: int)
    requires
        0 <= x <= r.len(),
    ensures
        word_end(t + r, t.len() + x) == t.len() + word_end(r, x),
    decreases r.len() - x,
{
    if x < r.len() {
        assert((t + r)[t.len() + x] == r[x]);
        if is_word_b(r[x]) {
            lemma_word_end_shift(t, r, x + 1);
        }
    }
}

proof fn lemma_quote_end_shift(t: Seq<u8>, r: Seq<u8>, x: int, q: u8)
    requires
        0 <= x <= r.len(),
    ensures
        quote_end(t + r, t.len() + x, q) == t.len() + quote_end(r, x, q),
    decreases r.len() - x,
{
    if x < r.len() {
        assert((t + r)[t.len() + x] == r[x]);
        if r[x] != q {
            lemma_quote_end_shift(t, r, x + 1, q);
        }
    }
}

proof fn lemma_canon_shift(t: Seq<u8>, r: Seq<u8>, x: int)
    requires
        0 <= x <= r.len(),
    ensures
        canon(t + r, t.len() + x) == canon(r, x),
    decreases r.len() - x,
{
    let u = t + r;
    if x < r.len() {
        let c = r[x];
        assert(u[t.len() + x] == c);
        if is_digit_b(c) {
            lemma_digits_end_props(r, x);
            lemma_digits_end_shift(t, r, x);
            lemma_canon_shift(t, r, digits_end(r, x));
        } else if is_alpha_b(c) {
            lemma_word_end_props(r, x);
            lemma_word_end_shift(t, r, x);
            lemma_canon_shift(t, r, word_end(r, x));
        } else if is_punct(c) {
            lemma_canon_shift(t, r, x + 1);
        } else if is_quote(c) {
            lemma_quote_end_props(r, x + 1, c);
            lemma_quote_end_shift(t, r, x + 1, c);
            lemma_canon_shift(t, r, quote_end(r, x + 1, c));
        }
    }
}

// ---------------------------------------------------------------------------
// Entering a canonical sequence at the end of a word-byte run
// ---------------------------------------------------------------------------

/// A canonical tiling never straddles the end of a maximal word-byte run:
/// if all of `[p, w)` are word bytes and `w` is a boundary, some tile edge
/// falls exactly on `w`.
proof fn lemma_canon_peel(r: Seq<u8>, p: int, w: int)
    requires
        0 <= p <= w <= r.len(),
        canon(r, p),
        forall|m: int| p <= m < w ==> is_word_b(r[m]),
        w == r.len() || !is_word_b(r[w]),
    ensures
        canon(r, w),
    decreases w - p,
{
    if p < w {
        let c = r[p];
        if is_digit_b(c) {
            lemma_digits_end_props(r, p);
            lemma_digits_end_ub(r, p, w);
            lemma_canon_peel(r, digits_end(r, p), w);
        } else if is_alpha_b(c) {
            lemma_word_end_char(r, p, w);
        } else {
            // a word byte that is neither digit nor letter: the underscore,
            // which tiles as a single punctuation byte
            assert(c == 95);
            lemma_canon_peel(r, p + 1, w);
        }
    }
}

// ---------------------------------------------------------------------------
// A canonical sequence reconstructs to itself
// ---------------------------------------------------------------------------

proof fn lemma_canon_recon(r: Seq<u8>, i: int)
    requires
        0 <= i <= r.len(),
        canon(r, i),
    ensures
        recon(r, i) == r.skip(i),
    decreases r.len() - i,
{
    if i >= r.len() {
        assert(recon(r, i) =~= r.skip(i));
    } else {
        let c = r[i];
        if is_digit_b(c) {
            let j = digits_end(r, i);
            lemma_digits_end_props(r, i);
            assert(j > i);
            lemma_canon_recon(r, j);
            assert(recon(r, i) =~= r.skip(i));
        } else if is_alpha_b(c) {
            let j = word_end(r, i);
            lemma_word_end_props(r, i);
            assert(j > i);
            lemma_canon_recon(r, j);
            assert(recon(r, i) =~= r.skip(i));
        } else if is_punct(c) {
            lemma_canon_recon(r, i + 1);
            assert(recon(r, i) =~= r.skip(i));
        } else {
            assert(is_quote(c));
            let j = quote_end(r, i + 1, c);
            lemma_quote_end_props(r, i + 1, c);
            assert(j > i);
            lemma_canon_recon(r, j);
            assert(recon(r, i) =~= r.skip(i));
        }
    }
}

// ---------------------------------------------------------------------------
// Every reconstruction is canonical
// ---------------------------------------------------------------------------

proof fn lemma_recon_canon(s: Seq<u8>, i: int)
    requires
        0 <= i <= s.len(),
    ensures
        canon(recon(s, i), 0),
    decreases s.len() - i,
{
    if i >= s.len() {
    } else {
        let c = s[i];
        if is_nl(c) || is_ws(c) {
            lemma_recon_canon(s, i + 1);
        } else if is_punct(c) {
            let t = s.subrange(i, i + 1);
            let rest = recon(s, i + 1);
            lemma_recon_canon(s, i + 1);
            let u = t + rest;
            assert(u[0] == c);
            lemma_canon_shift(t, rest, 0);
            assert(canon(u, 1));
            assert(canon(u, 0));
        } else if starts_line_comment(s, i) {
            lemma_line_comment_end_bounds(s, i + 1);
            lemma_recon_canon(s, line_comment_end(s, i));
        } else if starts_block_comment(s, i) {
            lemma_block_comment_end_bounds(s, i + 2);
            lemma_recon_canon(s, block_comment_end(s, i + 2));
        } else if is_quote(c) {
            let j = quote_end(s, i + 1, c);
            lemma_quote_end_props(s, i + 1, c);
            let t = s.subrange(i, j);
            let rest = recon(s, j);
            lemma_recon_canon(s, j);
            let u = t + rest;
            assert(u[0] == c);
            if i + 1 <= j - 1 < s.len() && s[j - 1] == c {
                // terminated: the closing quote is the tile's last byte
                assert(t.len() >= 2);
                assert(forall|m: int| 1 <= m < t.len() - 1 ==> u[m] == s[i + m] && u[m] != c);
                assert(u[t.len() - 1] == s[j - 1]);
                lemma_quote_end_char(u, 1, t.len() as int - 1, c);
                assert(quote_end(u, 1, c) == t.len());
                lemma_canon_shift(t, rest, 0);
                assert(canon(u, t.len() as int));
                assert(canon(u, 0));
            } else {
                // unterminated: the tile runs to the end of the input and no
                // further tokens follow it
                assert(j == s.len());
                assert(forall|m: int| i + 1 <= m < s.len() ==> s[m] != c);
                assert(rest =~= Seq::<u8>::empty());
                assert(forall|m: int| 1 <= m < u.len() ==> u[m] == s[i + m] && u[m] != c);
                lemma_quote_end_char(u, 1, u.len() as int, c);
                assert(quote_end(u, 1, c) == u.len());
                assert(canon(u, u.len() as int));
                assert(canon(u, 0));
            }
        } else if is_digit_b(c) {
            let j = digits_end(s, i);
            lemma_digits_end_props(s, i);
            let t = s.subrange(i, j);
            let rest = recon(s, j);
            lemma_recon_canon(s, j);
            let u = t + rest;
            assert(u[0] == c);
            let d = digits_end(rest, 0);
            lemma_digits_end_props(rest, 0);
            assert(forall|m: int| 0 <= m < t.len() ==> u[m] == s[i + m] && is_digit_b(u[m]));
            assert(forall|m: int| t.len() <= m < t.len() + d ==> u[m] == rest[m - t.len()] && is_digit_b(u[m]));
            assert(t.len() + d == u.len() || !is_digit_b(u[t.len() + d]));
            lemma_digits_end_char(u, 0, t.len() + d);
            assert(digits_end(u, 0) == t.len() + d);
            lemma_canon_shift(t, rest, d);
            // the tail of the run is itself tile-aligned in `rest`
            if d > 0 {
                assert(is_digit_b(rest[0]));
                assert(canon(rest, d));
            }
            assert(canon(u, t.len() + d));
            assert(canon(u, 0));
        } else if is_alpha_b(c) {
            let j = word_end(s, i);
            lemma_word_end_props(s, i);
            let t = s.subrange(i, j);
            let rest = recon(s, j);
            lemma_recon_canon(s, j);
            let u = t + rest;
            assert(u[0] == c);
            let w = word_end(rest, 0);
            lemma_word_end_props(rest, 0);
            assert(forall|m: int| 0 <= m < t.len() ==> u[m] == s[i + m] && is_word_b(u[m]));
            assert(forall|m: int| t.len() <= m < t.len() + w ==> u[m] == rest[m - t.len()] && is_word_b(u[m]));
            assert(t.len() + w == u.len() || !is_word_b(u[t.len() + w]));
            lemma_word_end_char(u, 0, t.len() + w);
            assert(word_end(u, 0) == t.len() + w);
            lemma_canon_peel(rest, 0, w);
            lemma_canon_shift(t, rest, w);
            assert(canon(u, t.len() + w));
            assert(canon(u, 0));
        } else {
            lemma_recon_canon(s, i + 1);
        }
    }
}

// ---------------------------------------------------------------------------
// The law
// ---------------------------------------------------------------------------

/// The concatenated source texts of the token stream scanned from `s`.
pub open spec fn scan_text(s: Seq<u8>) -> Seq<u8> {
    toks_bytes(scan_spec(s, 0, 1, 0))
}

/// Law: re-scanning the scanner's own token text reconstruction reproduces
/// it exactly. One scan drops whitespace, comments and unrecognized bytes;
/// what remains is a fixed point of scanning-then-reconstructing, even
/// though the token boundaries of the second scan may differ.
pub proof fn lemma_rescan_stable(s: Seq<u8>)
    ensures
        scan_text(scan_text(s)) == scan_text(s),
{
    lemma_scan_texts(s, 0, 1, 0);
    let r = recon(s, 0);
    lemma_scan_texts(r, 0, 1, 0);
    lemma_recon_canon(s, 0);
    lemma_canon_recon(r, 0);
    assert(r.skip(0) =~= r);
}

} // verus!
