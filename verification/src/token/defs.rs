use vstd::prelude::*;

verus! {

/// Quoting style of an identifier token: double-quoted, single-quoted, or a
/// bare (unquoted) word. A function name must be a bare identifier, so the
/// parser distinguishes `Nil` (bare) from the quoted styles.
#[derive(Debug, Clone, Copy, PartialEq, Eq, Structural)]
pub enum IDType {
    DQ,
    SQ,
    Nil,
}

/// The closed set of token kinds: structural punctuation, keywords (with the
/// primitive type names), identifiers parameterized by quoting style, numeric
/// literals, and `Nil`, which doubles as the keyword `nil` in scanner output
/// and as the end-of-stream sentinel inside the parser.
#[derive(Debug, Clone, Copy, PartialEq, Eq, Structural)]
pub enum TT {
    FN,
    Ident(IDType),
    LSmallB,
    LCurlyB,
    LBigB,
    RsmallB,
    RCurlyB,
    RBigB,
    Eqs,
    At,
    Comma,
    I32,
    NUM,
    I64,
    U8,
    F32,
    F64,
    Ret,
    Underscore,
    CONST,
    GLOBAL,
    SemiColon,
    Nil,
}

/// Mathematical model of a token: the kind, the 1-based line, the 0-based
/// half-open column range, and the raw text for identifiers and numeric
/// literals (`None` for punctuation, keywords and the sentinel).
pub ghost struct GTok {
    pub tt: TT,
    pub line: int,
    pub start: int,
    pub end: int,
    pub value: Option<Seq<u8>>,
}

/// A scanned token. `value` holds the raw source bytes for identifiers
/// (quotes kept for quoted identifiers) and numeric literals; punctuation and
/// keywords carry no text. Spans satisfy `start <= end`.
#[allow(non_snake_case)]
pub struct Token {
    pub TT: TT,
    pub line: usize,
    pub start: usize,
    pub end: usize,
    pub value: Option<Vec<u8>>,
}

impl View for Token {
    type V = GTok;

    open spec fn view(&self) -> GTok {
        GTok {
            tt: self.TT,
            line: self.line as int,
            start: self.start as int,
            end: self.end as int,
            value: match self.value {
                Some(v) => Some(v@),
                None => None,
            },
        }
    }
}

/// Copies a byte vector; used by `Token::clone`.
pub fn copy_bytes(v: &Vec<u8>) -> (r: Vec<u8>)
    ensures
        r@ == v@,
{
    let mut out: Vec<u8> = Vec::new();
    let mut i: usize = 0;
    while i < v.len()
        invariant
            i <= v.len(),
            out@ == v@.subrange(0, i as int),
        decreases v.len() - i,
    {
        out.push(v[i]);
        i = i + 1;
        proof {
            assert(out@ =~= v@.subrange(0, i as int));
        }
    }
    proof {
        assert(v@.subrange(0, v.len() as int) =~= v@);
    }
    out
}

/// Compares two byte slices for equality of contents.
pub fn bytes_eq(a: &[u8], b: &[u8]) -> (r: bool)
    ensures
        r == (a@ == b@),
{
    if a.len() != b.len() {
        proof {
            assert(a@ != b@);
        }
        return false;
    }
    let mut i: usize = 0;
    while i < a.len()
        invariant
            i <= a.len(),
            a@.len() == b@.len(),
            forall|k: int| 0 <= k < i ==> a@[k] == b@[k],
        decreases a.len() - i,
    {
        if a[i] != b[i] {
            return false;
        }
        i = i + 1;
    }
    proof {
        assert(a@ =~= b@);
    }
    true
}

impl Clone for Token {
    /// Clones a token; the copy has the same model.
    fn clone(&self) -> (r: Token)
        ensures
            r@ == self@,
    {
        Token {
            TT: self.TT,
            line: self.line,
            start: self.start,
            end: self.end,
            value: match &self.value {
                Some(v) => Some(copy_bytes(v)),
                None => None,
            },
        }
    }
}

impl PartialEq for Token {
    /// Two tokens are equal when their models are equal.
    fn eq(&self, other: &Token) -> (r: bool)
    {
        let kinds_eq = self.TT == other.TT && self.line == other.line
            && self.start == other.start && self.end == other.end;
        if !kinds_eq {
            return false;
        }
        match (&self.value, &other.value) {
            (None, None) => true,
            (Some(a), Some(b)) => bytes_eq(a.as_slice(), b.as_slice()),
            _ => false,
        }
    }
}

impl vstd::std_specs::cmp::PartialEqSpecImpl for Token {
    open spec fn obeys_eq_spec() -> bool {
        true
    }

    open spec fn eq_spec(&self, other: &Token) -> bool {
        self@ == other@
    }
}

#[allow(non_snake_case)]
impl Token {
    /// Builds a token with no text, as the scanner does for punctuation and
    /// keywords.
    pub fn new(TT: TT, line: usize, start: usize, end: usize) -> (r: Self)
        ensures
            r@ == (GTok { tt: TT, line: line as int, start: start as int, end: end as int, value: None }),
    {
        Self { TT, line, start, end, value: None }
    }
}

} // verus!
