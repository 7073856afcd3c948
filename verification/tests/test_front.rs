use std::cell::Cell;

use ploy::ast::AstNodeKind;
use ploy::combinator::{alt, cut, many0, many1, opt, tag};
use ploy::error::{FrontEndError, FrontEndErrorKind, ParseErrorKind, Severity, SyntaxErrorKind};
use ploy::lexer::tokenize;
use ploy::module::{Module, ModuleJob};
use ploy::opts::Opts;
use ploy::parsers::{parse_atom, parse_number, parse_program};
use ploy::sources::{Lines, PathSearcher, SourceFile, SourceOrigin};
use ploy::span::Span;
use ploy::symbols::{SymbolResolutionBarrier, SymbolScopeId};
use ploy::symboltree::{SymbolError, SymbolTree};
use ploy::tokens::TokenKind;

fn source(text: &str) -> SourceFile {
    SourceFile::new(text.to_owned(), SourceOrigin::Text)
}

fn build(text: &str) -> Result<Module, FrontEndError> {
    let job = ModuleJob::new(Opts::default(), source(text));
    Module::build(job)
}

#[test]
fn lexer_classifies_tokens() {
    let sf = source("(def a 10 0x1f 0b101 \"hi\" :kw) ; comment\n[x]");
    let toks = tokenize(&sf);
    let kinds: Vec<TokenKind> = toks.iter().map(|t| t.kind).collect();
    assert_eq!(
        kinds,
        vec![
            TokenKind::OpenBracket,
            TokenKind::Identifier,
            TokenKind::Identifier,
            TokenKind::DecNumber,
            TokenKind::HexNumber,
            TokenKind::BinNumber,
            TokenKind::QuotedString,
            TokenKind::KeyWord,
            TokenKind::CloseBracket,
            TokenKind::OpenSquareBracket,
            TokenKind::Identifier,
            TokenKind::CloseSquareBracket,
        ]
    );
    assert_eq!(toks[1].extra.get_text(), "def");
}

#[test]
fn span_operations_are_bounds_checked() {
    let sf = source("a b c");
    let toks = tokenize(&sf);
    let span = Span::from_slice(&toks);
    assert_eq!(span.len(), 3);
    assert!(span.take(3).is_ok());
    assert_eq!(span.take(4).unwrap_err(), ParseErrorKind::TookTooMany);
    assert_eq!(span.drop(4).unwrap_err(), ParseErrorKind::SkippedTooMany);
    assert_eq!(span.split(4).unwrap_err(), ParseErrorKind::IllegalSplitIndex);
    let dropped = span.drop(2).unwrap();
    assert_eq!(dropped.position, 2);
    assert_eq!(dropped.len(), 1);
    let (rest, taken) = span.split(1).unwrap();
    assert_eq!(taken.len(), 1);
    assert_eq!(rest.position, 1);
}

// many0 never fails on inputs where its parser fails without committing:
// the failed attempt ends the repetition and the matches so far are kept
#[test]
fn many0_never_fails() {
    let sf = source("1 2 3 x y");
    let toks = tokenize(&sf);
    let span = Span::from_slice(&toks);
    let r = many0(parse_number, span);
    let (rest, matched) = r.unwrap();
    assert_eq!(matched.len(), 3);
    assert_eq!(rest.len(), 2);

    let sf2 = source("x y");
    let toks2 = tokenize(&sf2);
    let r2 = many0(parse_number, Span::from_slice(&toks2));
    let (rest2, matched2) = r2.unwrap();
    assert_eq!(matched2.len(), 0);
    assert_eq!(rest2.len(), 2);
}

#[test]
fn many1_needs_one() {
    let sf = source("x");
    let toks = tokenize(&sf);
    let r = many1(parse_number, Span::from_slice(&toks));
    let e = r.unwrap_err();
    assert_eq!(
        e.kind,
        FrontEndErrorKind::ParseError(ParseErrorKind::NeededOneOrMore)
    );
    assert_eq!(e.severity, Severity::Error);
}

// cut passes successes through unchanged and escalates every failure to
// fatal, whatever the severity it had
#[test]
fn cut_escalates_to_fatal() {
    let sf = source("x");
    let toks = tokenize(&sf);
    let span = Span::from_slice(&toks);
    let plain = parse_number(span).unwrap_err();
    assert_eq!(plain.severity, Severity::Error);
    let hard = cut(parse_number, span).unwrap_err();
    assert_eq!(hard.severity, Severity::Fatal);
    assert_eq!(hard.kind, plain.kind);

    let sf2 = source("7");
    let toks2 = tokenize(&sf2);
    let span2 = Span::from_slice(&toks2);
    let (_, node) = cut(parse_number, span2).unwrap();
    assert_eq!(node.kind, AstNodeKind::Number);
}

// when the first alternative fails fatally, alternation returns that
// failure and never tries the second branch
#[test]
fn alt_stops_on_fatal() {
    let sf = source("x");
    let toks = tokenize(&sf);
    let span = Span::from_slice(&toks);
    let spied = Cell::new(false);
    let spy = |i| {
        spied.set(true);
        parse_number(i)
    };
    let hard = |i| cut(parse_number, i);
    let r = alt(hard, spy, span);
    let e = r.unwrap_err();
    assert_eq!(e.severity, Severity::Fatal);
    assert!(!spied.get());

    // after a plain failure the second branch decides
    let r2 = alt(parse_number, spy, span);
    assert!(spied.get());
    assert!(r2.is_err());
}

#[test]
fn opt_turns_plain_failure_into_none() {
    let sf = source("x");
    let toks = tokenize(&sf);
    let span = Span::from_slice(&toks);
    let (rest, v) = opt(parse_number, span).unwrap();
    assert!(v.is_none());
    assert_eq!(rest.len(), 1);
}

#[test]
fn tag_matches_kind_sequences() {
    let sf = source("()");
    let toks = tokenize(&sf);
    let span = Span::from_slice(&toks);
    let kinds = [TokenKind::OpenBracket, TokenKind::CloseBracket];
    let (rest, m) = tag(&kinds, span).unwrap();
    assert_eq!(rest.len(), 0);
    assert_eq!(m.len(), 2);
    let wrong = [TokenKind::OpenBrace];
    let e = tag(&wrong, span).unwrap_err();
    assert_eq!(e.kind, FrontEndErrorKind::ParseError(ParseErrorKind::NoMatch));
    assert_eq!(e.severity, Severity::Error);
}

// an unterminated committed form reports one fatal "expected closing
// bracket" error, not a generic no-match
#[test]
fn unterminated_if_is_fatal() {
    let sf = source("(if a b");
    let toks = tokenize(&sf);
    let span = Span::from_slice(&toks);
    let e = parse_program(span).unwrap_err();
    assert_eq!(e.severity, Severity::Fatal);
    match e.kind {
        FrontEndErrorKind::SyntaxError(SyntaxErrorKind::Expected(what)) => {
            assert_eq!(what, "closing bracket ')'");
        },
        other => panic!("unexpected error kind {:?}", other),
    }
}

#[test]
fn atom_orders_alternatives() {
    let sf = source("()");
    let toks = tokenize(&sf);
    let (_, node) = parse_atom(Span::from_slice(&toks)).unwrap();
    assert_eq!(node.kind, AstNodeKind::Null);
}

// a symbol bound in an intermediate scope resolves from a nested one; a
// symbol bound only in the nested scope does not resolve from above
#[test]
fn nested_scopes_resolve_upward_only() {
    let mut t: SymbolTree<i64> = SymbolTree::new();
    let s1 = t.insert_new_table("a", 0, SymbolResolutionBarrier::Global);
    let s2 = t.insert_new_table("b", s1, SymbolResolutionBarrier::Global);
    let x = t.create_symbol_in_scope(s1, "x").unwrap();
    let y = t.create_symbol_in_scope(s2, "y").unwrap();

    let found = t.resolve_label("x", s2, SymbolResolutionBarrier::Global).unwrap();
    assert_eq!(found, x);
    assert_eq!(found.scope_id, s1);

    let missing = t.resolve_label("y", s1, SymbolResolutionBarrier::Global);
    assert_eq!(missing.unwrap_err(), SymbolError::NotFound);
    assert_eq!(y.scope_id, s2);
}

// a non-global barrier on the way up blocks resolution even though an
// ancestor scope holds the name
#[test]
fn barrier_blocks_resolution() {
    let mut t: SymbolTree<i64> = SymbolTree::new();
    let _x = t.create_symbol_in_scope(0, "x").unwrap();
    let sb = t.insert_new_table("m", 0, SymbolResolutionBarrier::Local);
    let inner = t.insert_new_table("i", sb, SymbolResolutionBarrier::Global);

    let blocked = t.resolve_label("x", inner, SymbolResolutionBarrier::Global);
    assert_eq!(blocked.unwrap_err(), SymbolError::NotFound);

    // the same lookup from outside the barrier still succeeds
    let ok = t.resolve_label("x", 0, SymbolResolutionBarrier::Global);
    assert!(ok.is_ok());
}

// binding the same name twice in one scope fails the second time and
// leaves the table exactly as it was
#[test]
fn duplicate_symbol_leaves_table_unchanged() {
    let mut t: SymbolTree<i64> = SymbolTree::new();
    let first = t.create_symbol_in_scope(0, "x").unwrap();
    let before = t.scopes[0].table.names.len();
    let second = t.create_symbol_in_scope(0, "x");
    assert_eq!(second.unwrap_err(), SymbolError::AlreadyDefined);
    assert_eq!(t.scopes[0].table.names.len(), before);
    let still = t.resolve_label("x", 0, SymbolResolutionBarrier::Global).unwrap();
    assert_eq!(still, first);
}

// `(define x 10)` lowers to an assign-symbol node whose sole child is the
// number; `x` is resolvable afterwards in the enclosing scope
#[test]
fn define_lowers_to_assign_symbol() {
    let m = build("(define x 10)").unwrap();
    let root = m.ast.get_root_id();
    let kids = m.ast.get_children(root).unwrap().clone();
    assert_eq!(kids.len(), 1);
    let def = kids[0];
    let sid = match &m.ast.get_node(def).unwrap().kind {
        AstNodeKind::AssignSymbol(sid) => *sid,
        other => panic!("expected an assign-symbol node, got {:?}", other),
    };
    let def_kids = m.ast.get_children(def).unwrap().clone();
    assert_eq!(def_kids.len(), 1);
    assert_eq!(m.ast.get_node(def_kids[0]).unwrap().kind, AstNodeKind::Number);
    let resolved = m.syms.resolve_label("x", 0, SymbolResolutionBarrier::Global).unwrap();
    assert_eq!(resolved, sid);
}

// `(if a b)` lowers to a typed payload whose false-branch slot is absent
#[test]
fn if_without_false_branch_lowers() {
    let m = build("(define a 1) (define b 2) (if a b)").unwrap();
    let root = m.ast.get_root_id();
    let kids = m.ast.get_children(root).unwrap().clone();
    let if_id = kids[2];
    match &m.ast.get_node(if_id).unwrap().kind {
        AstNodeKind::IfExpr(d) => {
            assert!(d.if_false.is_none());
            assert_eq!(
                m.ast.get_children(if_id).unwrap().as_slice(),
                &[d.predicate, d.if_true]
            );
        },
        other => panic!("expected a typed if node, got {:?}", other),
    }
}

// `(fn [a] a)` lowers so the body reference resolves to the symbol created
// for the lambda's own parameter, not an outer binding of the same name
#[test]
fn lambda_body_resolves_to_own_parameter() {
    let m = build("(define a 1) (fn [a] a)").unwrap();
    let mut resolved: Vec<SymbolScopeId> = Vec::new();
    let mut assigned: Vec<SymbolScopeId> = Vec::new();
    for id in 0..m.ast.nodes.len() {
        match &m.ast.get_node(id).unwrap().kind {
            AstNodeKind::ResolvedSymbol(sid) => resolved.push(*sid),
            AstNodeKind::AssignSymbol(sid) => assigned.push(*sid),
            _ => {},
        }
    }
    // the lambda's parameter and its body reference share one symbol, which
    // lives in the lambda's own scope, not the root scope of the define
    assert_eq!(assigned.len(), 1);
    assert_eq!(assigned[0].scope_id, 0);
    let inner: Vec<&SymbolScopeId> =
        resolved.iter().filter(|sid| sid.scope_id != 0).collect();
    assert_eq!(inner.len(), 2);
    assert_eq!(inner[0], inner[1]);
}

#[test]
fn undefined_symbol_aborts_lowering() {
    let e = build("(if a b)").err().unwrap();
    match e.kind {
        FrontEndErrorKind::SyntaxError(SyntaxErrorKind::UndefinedSymbol(name)) => {
            assert_eq!(name, "a");
        },
        other => panic!("unexpected error kind {:?}", other),
    }
}

#[test]
fn duplicate_parameter_aborts_lowering() {
    let e = build("(fn [a a] 1)").err().unwrap();
    match e.kind {
        FrontEndErrorKind::SyntaxError(SyntaxErrorKind::DuplicateSymbol(name)) => {
            assert_eq!(name, "a");
        },
        other => panic!("unexpected error kind {:?}", other),
    }
}

#[test]
fn severity_never_deescalates() {
    let e = FrontEndError::from_error_kind(
        ParseErrorKind::NoMatch,
        Severity::Fatal,
        ploy::tokens::TextSpan::new(0, 0),
    );
    let e2 = e.set_severity(Severity::Error);
    assert_eq!(e2.severity, Severity::Fatal);
}

#[test]
fn lines_map_offsets_to_locations() {
    let l = Lines::new("ab\ncd");
    let loc = l.get_location_from_offset(0).unwrap();
    assert_eq!((loc.line, loc.col), (0, 0));
    let loc2 = l.get_location_from_offset(4).unwrap();
    assert_eq!(loc2.line, 1);
    assert!(l.get_location_from_offset(9).is_none());
    assert!(l.get_line_range(0).is_some());
    assert!(l.get_line_range(5).is_none());
}

#[test]
fn path_searcher_holds_each_path_once() {
    let mut p = PathSearcher::new();
    assert!(p.add_path(".").is_ok());
    assert!(p.add_path(".").is_err());
    assert!(p.add_path("src").is_ok());
    assert!(p.remove_path(".").is_ok());
    assert!(p.remove_path(".").is_err());
}

#[test]
fn application_lowers_with_callee_and_args() {
    let m = build("(define f 1) (define a 2) (f a a)").unwrap();
    let root = m.ast.get_root_id();
    let kids = m.ast.get_children(root).unwrap().clone();
    let app = kids[2];
    match &m.ast.get_node(app).unwrap().kind {
        AstNodeKind::ApplicationExpr(d) => {
            assert_eq!(d.args.len(), 2);
            let all = m.ast.get_children(app).unwrap().clone();
            assert_eq!(all[0], d.func);
            assert_eq!(&all[1..], d.args.as_slice());
        },
        other => panic!("expected a typed application node, got {:?}", other),
    }
}

#[test]
fn scopes_cover_every_node() {
    let m = build("(let [a 10] a)").unwrap();
    for id in 0..m.ast.nodes.len() {
        let s = m.get_scope_for_node(id).unwrap();
        assert!((s as usize) < m.syms.scopes.len());
    }
    // the let's binding lives in a scope below the root
    let mut saw_inner = false;
    for id in 0..m.ast.nodes.len() {
        if let AstNodeKind::ResolvedSymbol(sid) = &m.ast.get_node(id).unwrap().kind {
            if sid.scope_id != 0 {
                saw_inner = true;
            }
        }
    }
    assert!(saw_inner);
}

#[test]
fn committed_if_with_missing_branch_is_fatal() {
    let sf = source("(if a)");
    let toks = tokenize(&sf);
    let e = parse_program(Span::from_slice(&toks)).err().unwrap();
    assert_eq!(e.severity, Severity::Fatal);
}

#[test]
fn committed_if_with_extra_argument_is_fatal() {
    let sf = source("(if a b c d)");
    let toks = tokenize(&sf);
    let e = parse_program(Span::from_slice(&toks)).err().unwrap();
    assert_eq!(e.severity, Severity::Fatal);
    assert!(matches!(
        e.kind,
        FrontEndErrorKind::SyntaxError(SyntaxErrorKind::Expected(_))
    ));
}

#[test]
fn errors_carry_source_ranges() {
    let e = build("(define x 10) (boom)").err().unwrap();
    assert!(matches!(
        e.kind,
        FrontEndErrorKind::SyntaxError(SyntaxErrorKind::UndefinedSymbol(_))
    ));
    // the range points at the characters of `boom` itself
    assert_eq!(e.pos.start, 15);
    assert_eq!(e.pos.len, 4);
}

#[test]
fn quote_and_fqn_tokens() {
    let sf = source("'(a) ns::item 'c'");
    let toks = tokenize(&sf);
    let kinds: Vec<TokenKind> = toks.iter().map(|t| t.kind).collect();
    assert_eq!(
        kinds,
        vec![
            TokenKind::Quote,
            TokenKind::OpenBracket,
            TokenKind::Identifier,
            TokenKind::CloseBracket,
            TokenKind::FqnIdentifier,
            TokenKind::Char,
        ]
    );
}
