//! Support for rendering diagnostics: extracting a source line by index and
//! building the caret line that underlines a column range. The surrounding
//! presentation (colors, frames, message texts) lives outside the library.
use vstd::prelude::*;

verus! {

/// Index one past the first newline at or after `i`, clamped to the end.
pub open spec fn line_break(s: Seq<u8>, i: int) -> int
    decreases s.len() - i,
{
    if i < 0 || i >= s.len() {
        s.len() as int
    } else if s[i] == 10 {
        i + 1
    } else {
        line_break(s, i + 1)
    }
}

proof fn lemma_line_break_bounds(s: Seq<u8>, i: int)
    requires
        0 <= i <= s.len(),
    ensures
        i <= line_break(s, i) <= s.len(),
    decreases s.len() - i,
{
    if i < s.len() && s[i] != 10 {
        lemma_line_break_bounds(s, i + 1);
    }
}

proof fn lemma_line_break_char(s: Seq<u8>, i: int, k: int)
    requires
        0 <= i <= k <= s.len(),
        forall|m: int| i <= m < k ==> s[m] != 10,
        k == s.len() || s[k] == 10,
    ensures
        line_break(s, i) == if k < s.len() { k + 1 } else { s.len() as int },
    decreases k - i,
{
    if i < k {
        lemma_line_break_char(s, i + 1, k);
    }
}

/// The text of the 0-based `n`-th line of `s`: the bytes up to its line
/// ending, with a terminating `\n` or `\r\n` stripped; a line index past the
/// input yields an empty line.
pub open spec fn line_text(s: Seq<u8>, n: int) -> Seq<u8>
    decreases s.len(), n,
        via line_text_dec
{
    if s.len() == 0 {
        Seq::empty()
    } else {
        let e = line_break(s, 0);
        if n <= 0 {
            if 1 <= e <= s.len() && s[e - 1] == 10 {
                if 2 <= e && s[e - 2] == 13 {
                    s.subrange(0, e - 2)
                } else {
                    s.subrange(0, e - 1)
                }
            } else {
                s.subrange(0, e)
            }
        } else {
            line_text(s.skip(e), n - 1)
        }
    }
}

#[via_fn]
proof fn line_text_dec(s: Seq<u8>, n: int) {
    if s.len() > 0 {
        lemma_line_break_bounds(s, 0);
        if s[0] == 10 {
        } else {
            lemma_line_break_bounds(s, 1);
        }
        assert(line_break(s, 0) >= 1);
    }
}

fn copy_range(code: &[u8], a: usize, b: usize) -> (r: Vec<u8>)
    requires
        a <= b <= code@.len(),
    ensures
        r@ == code@.subrange(a as int, b as int),
{
    let mut out: Vec<u8> = Vec::new();
    let mut i: usize = a;
    while i < b
        invariant
            a <= i <= b,
            out@ == code@.subrange(a as int, i as int),
        decreases b - i,
    {
        out.push(code[i]);
        i = i + 1;
        proof {
            assert(out@ =~= code@.subrange(a as int, i as int));
        }
    }
    out
}

/// Finds the first newline at or after `start`, returning its index, or the
/// input length if there is none.
fn find_break(code: &[u8], start: usize) -> (j: usize)
    requires
        start <= code@.len(),
    ensures
        start <= j <= code@.len(),
        forall|m: int| start <= m < j ==> code@[m] != 10,
        j == code@.len() || code@[j as int] == 10,
{
    let mut j = start;
    while j < code.len() && code[j] != 10
        invariant
            start <= j <= code@.len(),
            forall|m: int| start <= m < j ==> code@[m] != 10,
        decreases code@.len() - j,
    {
        j = j + 1;
    }
    j
}

/// Extracts the 0-based `n`-th line of the source, as the renderer slices it
/// when drawing a source excerpt.
pub fn source_line(code: &[u8], n: usize) -> (r: Vec<u8>)
    ensures
        r@ == line_text(code@, n as int),
{
    let ghost s = code@;
    let mut start: usize = 0;
    let mut k: usize = n;
    proof {
        assert(s.skip(0) =~= s);
    }
    while k > 0
        invariant
            start <= s.len(),
            line_text(s, n as int) == line_text(s.skip(start as int), k as int),
        decreases k,
    {
        let ghost rem = s.skip(start as int);
        let j = find_break(code, start);
        proof {
            assert forall|m: int| 0 <= m < j - start implies rem[m] != 10 by {
                assert(rem[m] == s[start + m]);
            }
            if (j as int) < s.len() {
                assert(rem[j - start] == s[j as int]);
            }
            lemma_line_break_char(rem, 0, j - start);
        }
        let newstart = if j < code.len() { j + 1 } else { j };
        proof {
            assert(line_break(rem, 0) == newstart - start);
            if rem.len() == 0 {
                // past the end: every further line is empty
                assert(line_text(rem, k as int) == line_text(rem, k - 1));
                assert(rem.skip(0) =~= rem);
            }
            assert(s.skip(start as int).skip(newstart - start) =~= s.skip(newstart as int));
        }
        start = newstart;
        k = k - 1;
    }
    // now the answer is line 0 of the suffix at `start`
    let ghost rem = s.skip(start as int);
    let j = find_break(code, start);
    proof {
        assert forall|m: int| 0 <= m < j - start implies rem[m] != 10 by {
            assert(rem[m] == s[start + m]);
        }
        if (j as int) < s.len() {
            assert(rem[j - start] == s[j as int]);
        }
        lemma_line_break_char(rem, 0, j - start);
    }
    if j < code.len() {
        // line ends in a newline; strip it, and a carriage return before it
        if j > start && code[j - 1] == 13 {
            let r = copy_range(code, start, j - 1);
            proof {
                assert(rem.subrange(0, j - 1 - start) =~= s.subrange(start as int, j - 1));
            }
            r
        } else {
            let r = copy_range(code, start, j);
            proof {
                assert(rem.subrange(0, j - start) =~= s.subrange(start as int, j as int));
            }
            r
        }
    } else {
        // last line, no terminator
        let r = copy_range(code, start, j);
        proof {
            if rem.len() == 0 {
                assert(rem.subrange(0, 0) =~= s.subrange(start as int, start as int));
            }
            assert(rem.subrange(0, j - start) =~= s.subrange(start as int, j as int));
        }
        r
    }
}

/// Builds the caret line for a source excerpt: one byte per column, `^`
/// under the columns of the half-open range `[start, end)`, spaces
/// elsewhere.
pub fn pointer_line(len: usize, start: usize, end: usize) -> (r: Vec<u8>)
    ensures
        r@.len() == len as int,
        forall|i: int| 0 <= i < len ==> r@[i] == (if start <= i < end { 94u8 } else { 32u8 }),
{
    let mut out: Vec<u8> = Vec::new();
    let mut i: usize = 0;
    while i < len
        invariant
            i <= len,
            out@.len() == i as int,
            forall|m: int| 0 <= m < i ==> out@[m] == (if start <= m < end { 94u8 } else { 32u8 }),
        decreases len - i,
    {
        if start <= i && i < end {
            out.push(94);
        } else {
            out.push(32);
        }
        i = i + 1;
    }
    out
}

} // verus!
