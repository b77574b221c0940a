use sip_front::ast::defs::{NodeT, Var, VarType};
use sip_front::err::def::{ErrT, Expected, RetWhy};
use sip_front::parser::init::bootp;
use sip_front::parser::Parser;
use sip_front::token::defs::{IDType, Token, TT};
use sip_front::token::lexer::lex;

fn parse_src(src: &[u8]) -> (Vec<NodeT>, Vec<sip_front::err::def::PErr>, bool) {
    bootp(&lex(src), false)
}

fn only_fun(nodes: &[NodeT]) -> &sip_front::ast::defs::FunDef {
    assert_eq!(nodes.len(), 1);
    match &nodes[0] {
        NodeT::FunDef(f) => f,
        _ => panic!("expected a function node"),
    }
}

fn kinds(errs: &[sip_front::err::def::PErr]) -> Vec<ErrT> {
    errs.iter().map(|e| e.et).collect()
}

#[test]
fn valid_function_with_params() {
    // `fn add(i32 a, i32 b) @ i32 { ret 5 }` parses to exactly one node
    // and no diagnostics
    let (nodes, errs, fatal) = parse_src(b"fn add(i32 a, i32 b) @ i32 { ret 5 }");
    assert!(!fatal);
    assert_eq!(errs.len(), 0);
    let f = only_fun(&nodes);
    assert_eq!(f.name, b"add".to_vec());
    assert_eq!(
        f.args,
        Some(vec![
            Var { name: b"a".to_vec(), var_type: VarType::I32, size: None },
            Var { name: b"b".to_vec(), var_type: VarType::I32, size: None },
        ])
    );
    assert_eq!(f.ret_type, Some(VarType::I32));
    assert_eq!(f.body.len(), 0);
}

#[test]
fn valid_function_no_params() {
    let (nodes, errs, fatal) = parse_src(b"fn main() @ i64 { ret 9223372036854775807 }");
    assert!(!fatal);
    assert_eq!(errs.len(), 0);
    let f = only_fun(&nodes);
    assert_eq!(f.name, b"main".to_vec());
    assert_eq!(f.args, None);
    assert_eq!(f.ret_type, Some(VarType::I64));
}

#[test]
fn u8_overflow_is_a_mismatch() {
    // 999 does not fit in 8 bits: the node is still recorded, with one
    // mismatch diagnostic
    let (nodes, errs, fatal) = parse_src(b"fn bad() @ u8 { ret 999 }");
    assert!(!fatal);
    let f = only_fun(&nodes);
    assert_eq!(f.ret_type, Some(VarType::U8));
    assert_eq!(kinds(&errs), vec![ErrT::RetTMisMatch(RetWhy::ValueMismatch)]);
}

#[test]
fn u8_boundary_fits() {
    let (_, errs, _) = parse_src(b"fn ok() @ u8 { ret 255 }");
    assert_eq!(errs.len(), 0);
    let (_, errs, _) = parse_src(b"fn bad() @ u8 { ret 256 }");
    assert_eq!(kinds(&errs), vec![ErrT::RetTMisMatch(RetWhy::ValueMismatch)]);
}

#[test]
fn i32_boundary() {
    let (_, errs, _) = parse_src(b"fn ok() @ i32 { ret 2147483647 }");
    assert_eq!(errs.len(), 0);
    let (_, errs, _) = parse_src(b"fn bad() @ i32 { ret 2147483648 }");
    assert_eq!(kinds(&errs), vec![ErrT::RetTMisMatch(RetWhy::ValueMismatch)]);
}

#[test]
fn floats_accept_any_digit_run() {
    let (_, errs, _) = parse_src(b"fn ok() @ f32 { ret 340282366920938463463374607431768211456 }");
    assert_eq!(errs.len(), 0);
    let (_, errs, _) = parse_src(b"fn ok() @ f64 { ret 0 }");
    assert_eq!(errs.len(), 0);
}

#[test]
fn missing_name_skips_declaration() {
    // `fn () @ i32 { ret 1 }`: no node at all, one diagnostic, and the
    // walk resumes cleanly after the aborted declaration
    let (nodes, errs, fatal) = parse_src(b"fn () @ i32 { ret 1 }");
    assert!(!fatal);
    assert_eq!(nodes.len(), 0);
    assert_eq!(kinds(&errs), vec![ErrT::FuncNameNotFound]);
    // the error points at the `fn` keyword
    assert_eq!((errs[0].line, errs[0].start, errs[0].end), (1, 0, 2));
}

#[test]
fn missing_name_recovers_to_next_declaration() {
    let (nodes, errs, fatal) = parse_src(b"fn () @ i32 { ret 1 } fn ok() @ i32 { ret 2 }");
    assert!(!fatal);
    assert_eq!(kinds(&errs), vec![ErrT::FuncNameNotFound]);
    let f = only_fun(&nodes);
    assert_eq!(f.name, b"ok".to_vec());
}

#[test]
fn quoted_name_is_rejected() {
    let (nodes, errs, _) = parse_src(b"fn 'q'() @ i32 { ret 1 }");
    assert_eq!(nodes.len(), 0);
    assert_eq!(kinds(&errs), vec![ErrT::FuncNameNotFound]);
}

#[test]
fn two_names_are_rejected() {
    let (nodes, errs, _) = parse_src(b"fn one two() @ i32 { ret 1 }");
    assert_eq!(nodes.len(), 0);
    assert_eq!(kinds(&errs), vec![ErrT::FuncNameNotFound]);
}

#[test]
fn missing_paren_skips_declaration() {
    let (nodes, errs, _) = parse_src(b"fn f @ i32 { ret 1 }");
    assert_eq!(nodes.len(), 0);
    assert_eq!(kinds(&errs), vec![ErrT::ExpectedArgStart]);
}

#[test]
fn missing_return_clause_is_recorded_not_fatal() {
    // the declaration is kept, with no resolved return type and exactly
    // one diagnostic, and parsing continues past it
    let (nodes, errs, fatal) = parse_src(b"fn f() { ret 1 } fn g() @ i32 { ret 2 }");
    assert!(!fatal);
    assert_eq!(nodes.len(), 2);
    match &nodes[0] {
        NodeT::FunDef(f) => {
            assert_eq!(f.name, b"f".to_vec());
            assert_eq!(f.ret_type, None);
        }
        _ => panic!("expected a function node"),
    }
    assert_eq!(kinds(&errs), vec![ErrT::MissingReturnType]);
    // the diagnostic points at the function-name token
    assert_eq!((errs[0].start, errs[0].end), (3, 4));
}

#[test]
fn invalid_param_type_drops_parameter() {
    let (nodes, errs, _) = parse_src(b"fn f(foo a) @ i32 { ret 1 }");
    let f = only_fun(&nodes);
    assert_eq!(f.args, None);
    assert_eq!(kinds(&errs), vec![ErrT::InvVT]);
}

#[test]
fn page_types_are_valid_parameter_types() {
    let (nodes, errs, _) = parse_src(b"fn f(lazypage p, zeropage q, char c, nil n) @ i32 { ret 1 }");
    assert_eq!(errs.len(), 0);
    let f = only_fun(&nodes);
    let args = f.args.as_ref().unwrap();
    assert_eq!(args.len(), 4);
    assert_eq!(args[0].var_type, VarType::LazyPage);
    assert_eq!(args[1].var_type, VarType::ZeroPage);
    assert_eq!(args[2].var_type, VarType::Char);
    assert_eq!(args[3].var_type, VarType::Nil);
    assert!(args.iter().all(|a| a.size == None));
}

#[test]
fn trailing_comma_is_a_syntax_error() {
    let (nodes, errs, _) = parse_src(b"fn f(i32 a,) @ i32 { ret 1 }");
    let f = only_fun(&nodes);
    assert_eq!(f.args.as_ref().unwrap().len(), 1);
    assert_eq!(kinds(&errs), vec![ErrT::SyntaxErr(Expected::ParamItem)]);
}

#[test]
fn two_types_in_a_row_are_a_syntax_error() {
    let (_, errs, _) = parse_src(b"fn f(i32 i64 a) @ i32 { ret 1 }");
    // the second type is skipped; the parameter keeps the first type
    assert_eq!(kinds(&errs), vec![ErrT::SyntaxErr(Expected::ParamName)]);
}

#[test]
fn unexpected_end_in_params() {
    let (nodes, errs, _) = parse_src(b"fn f(");
    // the list never closes; the later phases then miss their tokens too
    assert_eq!(
        kinds(&errs),
        vec![
            ErrT::SyntaxErr(Expected::CloseParen),
            ErrT::MissingReturnType,
            ErrT::SyntaxErr(Expected::OpenBrace),
        ]
    );
    let f = only_fun(&nodes);
    assert_eq!(f.ret_type, None);
    assert_eq!(f.body.len(), 0);
}

#[test]
fn tuple_return_type() {
    let (nodes, errs, _) = parse_src(b"fn f() @ (i32, i64) { 7 }");
    let f = only_fun(&nodes);
    assert_eq!(f.ret_type, Some(VarType::Tuple(vec![VarType::I32, VarType::I64])));
    // a tuple is outside the checkable numeric set
    assert_eq!(kinds(&errs), vec![ErrT::RetTMisMatch(RetWhy::Unsupported)]);
}

#[test]
fn valid_tuple_with_empty_body_is_fatal() {
    // a valid tuple is still validated; a body with nothing to check is
    // the fatal case
    let (nodes, errs, fatal) = parse_src(b"fn f() @ (i32, i64) { }");
    assert!(fatal);
    assert_eq!(nodes.len(), 0);
    assert_eq!(kinds(&errs), vec![ErrT::RetTNF]);
}

#[test]
fn tuple_mixing_nil_raises_exactly_one_tuple_nil() {
    // the tuple is still resolved — invalid — and flagged once, at the
    // function-name token; validation does not run on it
    let (nodes, errs, fatal) = parse_src(b"fn f() @ (i32, nil) { }");
    assert!(!fatal);
    let f = only_fun(&nodes);
    assert_eq!(f.ret_type, Some(VarType::Tuple(vec![VarType::I32, VarType::Nil])));
    assert_eq!(kinds(&errs), vec![ErrT::TupleNil]);
    assert_eq!((errs[0].start, errs[0].end), (3, 4));
}

#[test]
fn tuple_nil_raised_beside_element_diagnostics() {
    let (_, errs, _) = parse_src(b"fn f() @ (i32, wat, nil) { }");
    assert_eq!(kinds(&errs), vec![ErrT::InvVT, ErrT::TupleNil]);
}

#[test]
fn sole_nil_return_is_no_tuple_error() {
    let (nodes, errs, _) = parse_src(b"fn f() @ nil { 1 }");
    let f = only_fun(&nodes);
    assert_eq!(f.ret_type, Some(VarType::Nil));
    // `nil` is outside the checkable numeric set
    assert_eq!(kinds(&errs), vec![ErrT::RetTMisMatch(RetWhy::Unsupported)]);
}

#[test]
fn unsupported_return_type_checked_against_ret() {
    let (_, errs, _) = parse_src(b"fn f() @ char { ret 1 }");
    assert_eq!(kinds(&errs), vec![ErrT::RetTMisMatch(RetWhy::Unsupported)]);
}

#[test]
fn ret_without_value() {
    let (_, errs, _) = parse_src(b"fn f() @ i32 { ret }");
    assert_eq!(kinds(&errs), vec![ErrT::RetTMisMatch(RetWhy::MissingValue)]);
}

#[test]
fn last_expression_checked_without_ret() {
    let (_, errs, _) = parse_src(b"fn f() @ i32 { 42 }");
    assert_eq!(errs.len(), 0);
    let (_, errs, _) = parse_src(b"fn f() @ i32 { foo }");
    assert_eq!(kinds(&errs), vec![ErrT::RetTMisMatch(RetWhy::LastExprMismatch)]);
}

#[test]
fn semicolons_are_skipped_for_last_expression() {
    let (_, errs, _) = parse_src(b"fn f() @ i32 { 42 ; ; }");
    assert_eq!(errs.len(), 0);
}

#[test]
fn empty_body_is_fatal() {
    // a body with neither a return statement nor a trailing expression
    // stops the whole parse
    let (nodes, errs, fatal) = parse_src(b"fn f() @ i32 { ; } fn g() @ i32 { ret 1 }");
    assert!(fatal);
    assert_eq!(nodes.len(), 0);
    assert_eq!(kinds(&errs), vec![ErrT::RetTNF]);
}

#[test]
fn unterminated_body_is_a_syntax_error() {
    let (nodes, errs, _) = parse_src(b"fn f() @ i32 { ret 1");
    let f = only_fun(&nodes);
    assert_eq!(f.ret_type, Some(VarType::I32));
    assert_eq!(kinds(&errs), vec![ErrT::SyntaxErr(Expected::CloseBrace)]);
}

#[test]
fn missing_body_is_a_syntax_error() {
    let (nodes, errs, _) = parse_src(b"fn f() @ i32 ret 1");
    let f = only_fun(&nodes);
    assert_eq!(f.body.len(), 0);
    assert_eq!(kinds(&errs), vec![ErrT::SyntaxErr(Expected::OpenBrace)]);
}

#[test]
fn bad_token_stops_return_tuple() {
    let (nodes, errs, _) = parse_src(b"fn f() @ (i32, 5) { ret 1 }");
    let f = only_fun(&nodes);
    assert_eq!(f.ret_type, Some(VarType::I32));
    assert_eq!(
        kinds(&errs),
        vec![ErrT::SyntaxErr(Expected::RetTupleItem), ErrT::SyntaxErr(Expected::OpenBrace)]
    );
}

#[test]
fn nested_declaration_becomes_child_node() {
    let (nodes, errs, fatal) = parse_src(b"fn outer() @ i32 { fn inner() @ i32 { ret 1 } ret 2 }");
    assert!(!fatal);
    assert_eq!(errs.len(), 0);
    let outer = only_fun(&nodes);
    assert_eq!(outer.name, b"outer".to_vec());
    assert_eq!(outer.body.len(), 1);
    match &outer.body[0] {
        NodeT::FunDef(inner) => {
            assert_eq!(inner.name, b"inner".to_vec());
            assert_eq!(inner.ret_type, Some(VarType::I32));
            assert_eq!(inner.body.len(), 0);
        }
        _ => panic!("expected the nested declaration as a child node"),
    }
}

#[test]
fn nested_diagnostics_come_before_outer_validation() {
    // the inner declaration's mismatch is appended before the outer
    // declaration's own validation diagnostic
    let (nodes, errs, fatal) = parse_src(b"fn outer() @ char { fn inner() @ u8 { ret 300 } ret 2 }");
    assert!(!fatal);
    assert_eq!(nodes.len(), 1);
    assert_eq!(
        kinds(&errs),
        vec![ErrT::RetTMisMatch(RetWhy::ValueMismatch), ErrT::RetTMisMatch(RetWhy::Unsupported)]
    );
}

#[test]
fn two_declarations_in_order() {
    let (nodes, errs, _) = parse_src(b"fn a() @ i32 { ret 1 } fn b() @ i64 { ret 2 }");
    assert_eq!(errs.len(), 0);
    assert_eq!(nodes.len(), 2);
    match (&nodes[0], &nodes[1]) {
        (NodeT::FunDef(a), NodeT::FunDef(b)) => {
            assert_eq!(a.name, b"a".to_vec());
            assert_eq!(b.name, b"b".to_vec());
        }
        _ => panic!("expected two function nodes"),
    }
}

#[test]
fn stray_tokens_are_skipped_at_top_level() {
    let (nodes, errs, _) = parse_src(b"= ; 12 fn f() @ i32 { ret 1 } ]");
    assert_eq!(errs.len(), 0);
    assert_eq!(nodes.len(), 1);
}

#[test]
fn parser_cursor_api() {
    let toks = lex(b"fn f ( )");
    let mut p = Parser::new(toks);
    assert_eq!(p.current().TT, TT::FN);
    assert_eq!(p.peek().unwrap().TT, TT::Ident(IDType::Nil));
    p.mv();
    assert_eq!(p.current().TT, TT::Ident(IDType::Nil));
    assert!(p.look_back(1).unwrap().TT == TT::FN);
    let expected = p.current().clone();
    assert!(p.eat(&expected));
    assert_eq!(p.current().TT, TT::LSmallB);
    assert!(!p.eat(&expected));
    p.privdrop();
    assert_eq!(p.current().TT, TT::LSmallB);
    assert!(p.look_back(1).is_none());
    // past the end the cursor reports the sentinel
    p.mv();
    p.mv();
    p.mv();
    assert_eq!(p.current().TT, TT::Nil);
    assert!(!p.erroccur());
    assert!(!p.had_fatal());
}

#[test]
fn parse_method_matches_bootp() {
    let src: &[u8] = b"fn f() @ u8 { ret 300 }";
    let mut p = Parser::new(lex(src));
    p.parse();
    let (nodes, errs, fatal) = parse_src(src);
    assert_eq!(*p.get_ast(), nodes);
    assert_eq!(p.errs, errs);
    assert_eq!(p.had_fatal(), fatal);
}

#[test]
fn nested_context_flag_parses_alike() {
    let toks = lex(b"fn f() @ i32 { ret 1 }");
    let (n1, e1, f1) = bootp(&toks, false);
    let (n2, e2, f2) = bootp(&toks, true);
    assert_eq!(n1, n2);
    assert_eq!(e1, e2);
    assert_eq!(f1, f2);
}
