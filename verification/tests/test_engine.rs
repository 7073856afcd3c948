use ploy::ast::AstNodeKind;
use ploy::combinator::{
    all, any, is_a, many_until, not, pair, preceded, sep_pair, succeeded, until, wrapped,
    wrapped_cut,
};
use ploy::error::{FrontEndErrorKind, ParseErrorKind, Severity};
use ploy::lexer::{tokenize, Token};
use ploy::parsers::{parse_arg, parse_keyword, parse_number, parse_symbol};
use ploy::sources::{SourceFile, SourceLoader, SourceOrigin, SourcesError};
use ploy::span::Span;
use ploy::symbols::SymbolResolutionBarrier;
use ploy::symboltree::{SymbolError, SymbolTree};
use ploy::utils::get_highest_bit;
use ploy::tokens::TokenKind;

fn source(text: &str) -> SourceFile {
    SourceFile::new(text.to_owned(), SourceOrigin::Text)
}

#[test]
fn pair_threads_remaining_input() {
    let sf = source("1 x rest");
    let toks = tokenize(&sf);
    let span = Span::from_slice(&toks);
    let (rest, (a, b)) = pair(parse_number, parse_symbol, span).unwrap();
    assert_eq!(a.kind, AstNodeKind::Number);
    assert_eq!(b.kind, AstNodeKind::Symbol);
    assert_eq!(rest.len(), 1);

    // the first sub-failure propagates unchanged
    let sf2 = source("x 1");
    let toks2 = tokenize(&sf2);
    let e = pair(parse_number, parse_symbol, Span::from_slice(&toks2)).unwrap_err();
    assert_eq!(e.severity, Severity::Error);
}

#[test]
fn preceded_and_succeeded_pick_one_side() {
    let sf = source("1 x");
    let toks = tokenize(&sf);
    let span = Span::from_slice(&toks);
    let (_, kept) = preceded(parse_number, parse_symbol, span).unwrap();
    assert_eq!(kept.kind, AstNodeKind::Symbol);
    let (_, kept2) = succeeded(parse_number, parse_symbol, span).unwrap();
    assert_eq!(kept2.kind, AstNodeKind::Number);
}

#[test]
fn sep_pair_skips_the_separator() {
    let sf = source("1 : x");
    let toks = tokenize(&sf);
    let span = Span::from_slice(&toks);
    let kinds = [TokenKind::Colon];
    let colon = |i| ploy::combinator::tag(&kinds, i);
    let (rest, (a, b)) = sep_pair(parse_number, colon, parse_symbol, span).unwrap();
    assert_eq!(a.kind, AstNodeKind::Number);
    assert_eq!(b.kind, AstNodeKind::Symbol);
    assert_eq!(rest.len(), 0);
}

#[test]
fn not_succeeds_exactly_on_failure() {
    let sf = source("x");
    let toks = tokenize(&sf);
    let span = Span::from_slice(&toks);
    let (rest, _) = not(parse_number, span).unwrap();
    assert_eq!(rest.len(), 1);
    let e = not(parse_symbol, span).unwrap_err();
    assert_eq!(e.kind, FrontEndErrorKind::ParseError(ParseErrorKind::NoMatch));
}

#[test]
fn all_requires_everything_consumed() {
    let sf = source("7");
    let toks = tokenize(&sf);
    let (rest, _) = all(parse_number, Span::from_slice(&toks)).unwrap();
    assert_eq!(rest.len(), 0);

    let sf2 = source("7 x");
    let toks2 = tokenize(&sf2);
    let e = all(parse_number, Span::from_slice(&toks2)).unwrap_err();
    assert_eq!(
        e.kind,
        FrontEndErrorKind::ParseError(ParseErrorKind::UnconsumedInput)
    );
    assert_eq!(e.severity, Severity::Fatal);
}

#[test]
fn any_takes_one_token() {
    let sf = source("x y");
    let toks = tokenize(&sf);
    let span = Span::from_slice(&toks);
    let (rest, m) = any(span).unwrap();
    assert_eq!(m.len(), 1);
    assert_eq!(rest.position, 1);
    let empty = rest.drop(1).unwrap();
    assert!(any(empty).is_err());
}

#[test]
fn is_a_matches_kind_sets() {
    let sf = source("0x10");
    let toks = tokenize(&sf);
    let span = Span::from_slice(&toks);
    let kinds = [TokenKind::DecNumber, TokenKind::HexNumber, TokenKind::BinNumber];
    let (rest, k) = is_a(&kinds, span).unwrap();
    assert_eq!(k, TokenKind::HexNumber);
    assert_eq!(rest.len(), 0);
    let wrong = [TokenKind::Identifier];
    assert!(is_a(&wrong, span).is_err());
}

#[test]
fn until_splits_before_the_predicate() {
    let sf = source("a b ] c");
    let toks = tokenize(&sf);
    let span = Span::from_slice(&toks);
    let at_close = |t: Token| matches!(t.kind, TokenKind::CloseSquareBracket);
    let (rest, taken) = until(at_close, span).unwrap();
    assert_eq!(taken.len(), 2);
    assert_eq!(rest.len(), 2);

    let sf2 = source("a b c");
    let toks2 = tokenize(&sf2);
    let e = until(at_close, Span::from_slice(&toks2)).unwrap_err();
    assert_eq!(
        e.kind,
        FrontEndErrorKind::ParseError(ParseErrorKind::UntilNotMatched)
    );
}

#[test]
fn many_until_stops_before_the_terminator() {
    let sf = source("a b c ]");
    let toks = tokenize(&sf);
    let span = Span::from_slice(&toks);
    let close_kinds = [TokenKind::CloseSquareBracket];
    let close = |i| ploy::combinator::tag(&close_kinds, i);
    let (rest, matched) = many_until(parse_arg, close, span).unwrap();
    assert_eq!(matched.len(), 3);
    assert_eq!(rest.len(), 1);

    // running out of input before the terminator is its own failure
    let sf2 = source("a b c");
    let toks2 = tokenize(&sf2);
    let e = many_until(parse_arg, close, Span::from_slice(&toks2)).unwrap_err();
    assert_eq!(
        e.kind,
        FrontEndErrorKind::ParseError(ParseErrorKind::UntilNotMatched)
    );
}

#[test]
fn wrapped_needs_both_tags() {
    let sf = source("( :kw )");
    let toks = tokenize(&sf);
    let span = Span::from_slice(&toks);
    let (rest, v) = wrapped(
        TokenKind::OpenBracket,
        parse_keyword,
        TokenKind::CloseBracket,
        span,
    )
    .unwrap();
    assert_eq!(v.kind, AstNodeKind::KeyWord);
    assert_eq!(rest.len(), 0);

    let sf2 = source("( :kw");
    let toks2 = tokenize(&sf2);
    let e = wrapped(
        TokenKind::OpenBracket,
        parse_keyword,
        TokenKind::CloseBracket,
        Span::from_slice(&toks2),
    )
    .unwrap_err();
    assert_eq!(e.severity, Severity::Error);
}

#[test]
fn wrapped_cut_escalates_a_missing_closer() {
    let sf = source("( :kw");
    let toks = tokenize(&sf);
    let e = wrapped_cut(
        TokenKind::OpenBracket,
        parse_keyword,
        TokenKind::CloseBracket,
        Span::from_slice(&toks),
    )
    .unwrap_err();
    assert_eq!(e.severity, Severity::Fatal);
    assert_eq!(
        e.kind,
        FrontEndErrorKind::ParseError(ParseErrorKind::MissingWrapTerminator)
    );
}

#[test]
fn source_loader_files_each_name_once() {
    let mut loader = SourceLoader::new();
    let id = loader.add_file("main.ploy", "(define x 1)".to_owned()).unwrap();
    assert_eq!(loader.get_source_file_id("main.ploy"), Some(id));
    assert!(loader.get_source_file(id).is_some());
    assert!(loader.get_source_file_from_name("main.ploy").is_some());
    assert!(loader.get_source_file_from_name("other.ploy").is_none());
    let again = loader.add_file("main.ploy", "x".to_owned());
    assert_eq!(again.unwrap_err(), SourcesError::SourceIsAlreadyInDatabase);
}

#[test]
fn highest_bit_boundaries() {
    assert_eq!(get_highest_bit::<u64>(1), Some(0));
    assert_eq!(get_highest_bit::<u64>(u64::MAX), Some(63));
    assert_eq!(get_highest_bit::<u128>(1u128 << 100), Some(100));
    assert_eq!(get_highest_bit::<u128>(0), None);
}

#[test]
fn scope_paths_resolve_by_name() {
    let mut t: SymbolTree<i64> = SymbolTree::new();
    let a = t.insert_new_table("a", 0, SymbolResolutionBarrier::Global);
    let b = t.insert_new_table("b", a, SymbolResolutionBarrier::Global);
    let _x = t.create_symbol_in_scope(b, "x").unwrap();

    assert_eq!(t.get_scope_id("a::b"), Ok(b));
    assert_eq!(t.get_scope_id("::a::b"), Ok(b));
    assert_eq!(t.get_sub_scope_id("b", a), Ok(b));
    assert_eq!(t.get_scope_id("a::nope"), Err(SymbolError::NoValue));

    let info = t.get_symbol_info_from_scoped_name("::a::b::x").unwrap();
    assert_eq!(info.name, "x");
    assert_eq!(info.symbol_id.scope_id, b);
    let info2 = t.get_symbol_info("x", b).unwrap();
    assert_eq!(info2.symbol_id, info.symbol_id);
}

#[test]
fn symbol_values_can_be_bound_later() {
    let mut t: SymbolTree<i64> = SymbolTree::new();
    let x = t.create_symbol_in_scope(0, "x").unwrap();
    assert!(t.set_symbol_for_id(x, 42).is_ok());
    let info = t.get_symbol_info_from_id(x).unwrap();
    assert_eq!(info.value, Some(42));
    let found = t.resolve_label("x", 0, SymbolResolutionBarrier::Global).unwrap();
    assert_eq!(found, x);
}

#[test]
fn create_or_get_scope_is_idempotent() {
    let mut t: SymbolTree<i64> = SymbolTree::new();
    let first = t.create_or_get_scope_for_parent("m", 0).unwrap();
    let scopes_after_first = t.scopes.len();
    let second = t.create_or_get_scope_for_parent("m", 0).unwrap();
    assert_eq!(first, second);
    assert_eq!(t.scopes.len(), scopes_after_first);
    let other = t.create_or_get_scope_for_parent("n", 0).unwrap();
    assert_ne!(other, first);
}
