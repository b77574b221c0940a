use sip_front::token::defs::{IDType, Token, TT};
use sip_front::token::lexer::{is_alphanumeric, keyword_tt, lex};

/// The source text a token stands for: its own text for identifiers and
/// numeric literals, the fixed spelling for keywords and punctuation.
fn token_text(t: &Token) -> Vec<u8> {
    match (&t.TT, &t.value) {
        (TT::Ident(_), Some(v)) => v.clone(),
        (TT::NUM, Some(v)) => v.clone(),
        (TT::FN, _) => b"fn".to_vec(),
        (TT::Ret, _) => b"ret".to_vec(),
        (TT::CONST, _) => b"const".to_vec(),
        (TT::GLOBAL, _) => b"global".to_vec(),
        (TT::I32, _) => b"i32".to_vec(),
        (TT::I64, _) => b"i64".to_vec(),
        (TT::U8, _) => b"u8".to_vec(),
        (TT::F32, _) => b"f32".to_vec(),
        (TT::F64, _) => b"f64".to_vec(),
        (TT::Nil, _) => b"nil".to_vec(),
        (TT::LSmallB, _) => b"(".to_vec(),
        (TT::RsmallB, _) => b")".to_vec(),
        (TT::LCurlyB, _) => b"{".to_vec(),
        (TT::RCurlyB, _) => b"}".to_vec(),
        (TT::LBigB, _) => b"[".to_vec(),
        (TT::RBigB, _) => b"]".to_vec(),
        (TT::Comma, _) => b",".to_vec(),
        (TT::SemiColon, _) => b";".to_vec(),
        (TT::Eqs, _) => b"=".to_vec(),
        (TT::At, _) => b"@".to_vec(),
        (TT::Underscore, _) => b"_".to_vec(),
        _ => Vec::new(),
    }
}

fn reconstruct(tokens: &[Token]) -> Vec<u8> {
    let mut out = Vec::new();
    for t in tokens {
        out.extend_from_slice(&token_text(t));
    }
    out
}

fn kinds(tokens: &[Token]) -> Vec<TT> {
    tokens.iter().map(|t| t.TT).collect()
}

#[test]
fn lex_keywords_and_punctuation() {
    let toks = lex(b"fn ret const global i32 i64 u8 f32 f64 nil ( ) { } [ ] , ; = @ _");
    assert_eq!(
        kinds(&toks),
        vec![
            TT::FN,
            TT::Ret,
            TT::CONST,
            TT::GLOBAL,
            TT::I32,
            TT::I64,
            TT::U8,
            TT::F32,
            TT::F64,
            TT::Nil,
            TT::LSmallB,
            TT::RsmallB,
            TT::LCurlyB,
            TT::RCurlyB,
            TT::LBigB,
            TT::RBigB,
            TT::Comma,
            TT::SemiColon,
            TT::Eqs,
            TT::At,
            TT::Underscore,
        ]
    );
    // keywords and punctuation carry no text
    for t in &toks {
        assert_eq!(t.value, None);
    }
}

#[test]
fn lex_identifiers_and_numbers() {
    let toks = lex(b"add x_1 42 007");
    assert_eq!(toks.len(), 4);
    assert_eq!(toks[0].TT, TT::Ident(IDType::Nil));
    assert_eq!(toks[0].value, Some(b"add".to_vec()));
    assert_eq!(toks[1].TT, TT::Ident(IDType::Nil));
    assert_eq!(toks[1].value, Some(b"x_1".to_vec()));
    assert_eq!(toks[2].TT, TT::NUM);
    assert_eq!(toks[2].value, Some(b"42".to_vec()));
    assert_eq!(toks[3].TT, TT::NUM);
    assert_eq!(toks[3].value, Some(b"007".to_vec()));
}

#[test]
fn lex_spans_lines_and_columns() {
    // lines are 1-based; columns are 0-based half-open byte ranges
    let toks = lex(b"fn a\n  bb 12");
    assert_eq!(toks.len(), 4);
    assert_eq!((toks[0].line, toks[0].start, toks[0].end), (1, 0, 2));
    assert_eq!((toks[1].line, toks[1].start, toks[1].end), (1, 3, 4));
    assert_eq!((toks[2].line, toks[2].start, toks[2].end), (2, 2, 4));
    assert_eq!((toks[3].line, toks[3].start, toks[3].end), (2, 5, 7));
}

#[test]
fn lex_line_comment() {
    let toks = lex(b"fn // all of this vanishes\nname");
    assert_eq!(kinds(&toks), vec![TT::FN, TT::Ident(IDType::Nil)]);
    assert_eq!(toks[1].value, Some(b"name".to_vec()));
    assert_eq!(toks[1].line, 2);
    assert_eq!(toks[1].start, 0);
}

#[test]
fn lex_block_comment_tracks_lines() {
    let toks = lex(b"fn /* one\ntwo\nthree */ name");
    assert_eq!(kinds(&toks), vec![TT::FN, TT::Ident(IDType::Nil)]);
    assert_eq!(toks[1].line, 3);
    assert_eq!(toks[1].start, 9);
}

#[test]
fn lex_unterminated_block_comment_runs_out() {
    let toks = lex(b"fn /* never closed");
    assert_eq!(kinds(&toks), vec![TT::FN]);
}

#[test]
fn lex_quoted_identifiers_keep_quotes() {
    let toks = lex(b"'ab' \"cd\"");
    assert_eq!(toks.len(), 2);
    assert_eq!(toks[0].TT, TT::Ident(IDType::SQ));
    assert_eq!(toks[0].value, Some(b"'ab'".to_vec()));
    assert_eq!(toks[1].TT, TT::Ident(IDType::DQ));
    assert_eq!(toks[1].value, Some(b"\"cd\"".to_vec()));
}

#[test]
fn lex_unterminated_quote_clamps_to_end() {
    let toks = lex(b"x \"abc");
    assert_eq!(toks.len(), 2);
    assert_eq!(toks[1].TT, TT::Ident(IDType::DQ));
    assert_eq!(toks[1].value, Some(b"\"abc".to_vec()));
    assert_eq!((toks[1].start, toks[1].end), (2, 6));
}

#[test]
fn lex_skips_unknown_bytes() {
    let toks = lex(b"a # $ b");
    assert_eq!(kinds(&toks), vec![TT::Ident(IDType::Nil), TT::Ident(IDType::Nil)]);
}

#[test]
fn lex_underscore_is_punctuation_but_continues_words() {
    let toks = lex(b"_ab a_b");
    assert_eq!(kinds(&toks), vec![TT::Underscore, TT::Ident(IDType::Nil), TT::Ident(IDType::Nil)]);
    assert_eq!(toks[1].value, Some(b"ab".to_vec()));
    assert_eq!(toks[2].value, Some(b"a_b".to_vec()));
}

#[test]
fn rescan_reconstruction_is_stable() {
    // one scan drops whitespace, comments and junk; re-scanning the
    // reconstruction reproduces it byte for byte
    let src: &[u8] = b"fn add(i32 a) @ i32 { // c\n ret 5 } /* x */ 'q z' # 12ab";
    let first = reconstruct(&lex(src));
    let second = reconstruct(&lex(&first));
    assert_eq!(first, second);
}

#[test]
fn rescan_merges_tokens_but_keeps_text() {
    // "fn add" reconstructs to "fnadd", which re-scans as one identifier
    // with the same text
    let first = reconstruct(&lex(b"fn add"));
    assert_eq!(first, b"fnadd".to_vec());
    let again = lex(&first);
    assert_eq!(again.len(), 1);
    assert_eq!(again[0].TT, TT::Ident(IDType::Nil));
    assert_eq!(reconstruct(&again), first);
}

#[test]
fn keyword_lookup() {
    assert_eq!(keyword_tt(b"fn"), TT::FN);
    assert_eq!(keyword_tt(b"ret"), TT::Ret);
    assert_eq!(keyword_tt(b"nil"), TT::Nil);
    assert_eq!(keyword_tt(b"u8"), TT::U8);
    assert_eq!(keyword_tt(b"other"), TT::Ident(IDType::Nil));
    assert_eq!(keyword_tt(b"char"), TT::Ident(IDType::Nil));
}

#[test]
fn alphanumeric_classification() {
    assert!(is_alphanumeric(b'a'));
    assert!(is_alphanumeric(b'Z'));
    assert!(is_alphanumeric(b'7'));
    assert!(is_alphanumeric(b'_'));
    assert!(!is_alphanumeric(b' '));
    assert!(!is_alphanumeric(b'@'));
}

#[test]
fn token_new_has_no_text() {
    let t = Token::new(TT::At, 3, 7, 8);
    assert_eq!(t.TT, TT::At);
    assert_eq!((t.line, t.start, t.end), (3, 7, 8));
    assert_eq!(t.value, None);
}

#[test]
fn token_equality_and_clone() {
    let toks = lex(b"abc abc abd");
    assert_eq!(toks[0].TT, toks[1].TT);
    assert!(toks[0].value == toks[1].value);
    let c = toks[2].clone();
    assert!(c == toks[2]);
    assert!(!(toks[0] == toks[2]));
}
