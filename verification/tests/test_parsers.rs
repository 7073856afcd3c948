use ploy::ast::{to_ast, Ast, AstNodeKind};
use ploy::ast::AstNodeKind::{
    Application, Arg, Args, Bool, KeyWord, KeyWordPair, Lambda, LambdaBody, LetArgs, Null,
    Number, Pair, QuotedString, Symbol,
};
use ploy::error::FrontEndError;
use ploy::lexer::tokenize;
use ploy::parsenode::ParseNode;
use ploy::parsers::{
    parse_args, parse_block, parse_define, parse_if, parse_keyword_pair, parse_lambda,
    parse_lambda_body, parse_let, parse_map, parse_meta, parse_pair,
};
use ploy::sources::{SourceFile, SourceOrigin};
use ploy::span::Span;

type ParserFn = for<'a> fn(Span<'a>) -> Result<(Span<'a>, ParseNode), FrontEndError>;

fn as_ast(text: &str, p: ParserFn) -> Result<Ast, FrontEndError> {
    let source_file = SourceFile::new(text.to_owned(), SourceOrigin::Text);
    let holder = source_file.clone();
    let tokes = tokenize(&holder);
    let span = Span::from_slice(&tokes);
    let (_rest, matched) = p(span)?;
    let ast = Ast::new(matched, &tokes, source_file);
    Ok(ast)
}

fn kids_kinds(ast: &Ast) -> Vec<AstNodeKind> {
    let root = ast.get_root_id();
    let kids = ast.get_children(root).unwrap();
    kids.iter().map(|id| ast.get_node(*id).unwrap().kind.clone()).collect()
}

fn check_node(ast: &Ast, k: AstNodeKind, kids: &[AstNodeKind]) {
    let root = ast.get_root_id();
    let root_kind = ast.get_node(root).unwrap().kind.clone();
    let kk = kids_kinds(ast);
    println!("Node: {:?} : {:?}", root_kind, kk);
    assert_eq!(root_kind, k);
    assert_eq!(kids, kk.as_slice());
}

fn test_parser(
    p: ParserFn,
    text: &str,
    kind: AstNodeKind,
    kids: &[AstNodeKind],
) -> Result<(), FrontEndError> {
    let ast = as_ast(text, p)?;
    check_node(&ast, kind, kids);
    Ok(())
}

fn test_parsers(
    p: ParserFn,
    kind: AstNodeKind,
    data: &[(&str, Vec<AstNodeKind>)],
) -> Result<(), FrontEndError> {
    for (text, kids) in data.iter() {
        test_parser(p, text, kind.clone(), kids)?;
    }
    Ok(())
}

#[test]
fn test_lamda_body() -> Result<(), FrontEndError> {

    let test = vec![
        ("([a b] a b)", vec![Args, Symbol, Symbol]),
        ("([])", vec![Args]),
        ("([a b c] \"xxxxx\")", vec![Args, QuotedString]),
    ];

    test_parsers(parse_lambda_body, AstNodeKind::LambdaBody, &test)
}

#[test]
fn test_multi_lambda_body() -> Result<(), FrontEndError> {
    let text = "([a b] a) ([a b] a)";
    let _ast = as_ast(text, parse_block)?;
    Ok(())
}

#[test]
fn test_define() -> Result<(), FrontEndError> {

    let test = vec![
        ("(def a b)", vec![Arg, Symbol]),
        ("(define x (fn[a] 12))", vec![Arg, Lambda]),
        ("(define y ())", vec![Arg, Null]),
        ("(define  ^{:test b :spam \"hello\"} y  ())", vec![Arg, Null]),
    ];

    test_parsers(parse_define, AstNodeKind::Define, &test)
}

#[test]
fn test_pair() -> Result<(), FrontEndError> {
    let test = vec![(":keword a", vec![KeyWord, Symbol])];
    test_parsers(parse_pair, AstNodeKind::Pair, &test)
}

#[test]
fn test_meta() -> Result<(), FrontEndError> {

    let test = vec![("^{}", vec![]), ("^{:name \"hello!\"}", vec![KeyWordPair])];

    test_parsers(parse_meta, AstNodeKind::MetaData, &test)
}

#[test]
fn test_keyword_pair() -> Result<(), FrontEndError> {

    let test = vec![
        (":keword a", vec![KeyWord, Symbol]),
        (":whoops \"Hello there!\"", vec![KeyWord, QuotedString]),
    ];

    test_parsers(parse_keyword_pair, AstNodeKind::KeyWordPair, &test)
}

#[test]
fn test_map() -> Result<(), FrontEndError> {

    let test = vec![("{}", vec![]), ("{ :keword a (hello) b}", vec![Pair, Pair])];

    test_parsers(parse_map, AstNodeKind::MapForm, &test)
}

#[test]
fn test_if() -> Result<(), FrontEndError> {

    let test = vec![
        ("(if a b)", vec![Symbol, Symbol]),
        ("(if :a b :a)", vec![KeyWord, Symbol, KeyWord]),
        ("(if a b 12)", vec![Symbol, Symbol, Number]),
        ("(if a b (x a))", vec![Symbol, Symbol, Application]),
        ("(if a b ())", vec![Symbol, Symbol, Null]),
    ];

    test_parsers(parse_if, AstNodeKind::If, &test)
}

#[test]
fn test_let() -> Result<(), FrontEndError> {

    let test = vec![("(let [a 10] (println a) true)", vec![LetArgs, Application, Bool])];

    test_parsers(parse_let, AstNodeKind::Let, &test)
}

#[test]
fn test_lambda() -> Result<(), FrontEndError> {

    let test = vec![
        ("(fn ( [x a a] 1 ) ( [x a a] 1 )   )", vec![LambdaBody, LambdaBody]),
        ("(fn [x a a]  )", vec![LambdaBody]),
        ("(fn [a b x] (print b) )", vec![LambdaBody]),
        ("(fn [a b x] (print b) (print c) '() :test)", vec![LambdaBody]),
    ];

    test_parsers(parse_lambda, AstNodeKind::Lambda, &test)
}

#[test]
fn test_args() -> Result<(), FrontEndError> {

    let test = vec![
        ("[]", vec![]),
        ("[a b c]", vec![Arg, Arg, Arg]),
        ("[z]", vec![Arg]),
    ];

    test_parsers(parse_args, AstNodeKind::Args, &test)
}

#[test]
fn test_program_roundtrip() -> Result<(), FrontEndError> {
    let text = "(define x 10) (if x 1 2)";
    let source_file = SourceFile::new(text.to_owned(), SourceOrigin::Text);
    let holder = source_file.clone();
    let tokes = tokenize(&holder);
    let total = tokes.len();
    let ast = to_ast(&tokes, source_file)?;
    let root = ast.get_root_id();
    let root_node = ast.get_node(root).unwrap();
    assert_eq!(root_node.kind, AstNodeKind::Program);
    assert_eq!(root_node.token_range.start, 0);
    assert_eq!(root_node.token_range.len, total);
    // the top-level forms tile the program's token range: no gaps, no overlaps
    let kids = ast.get_children(root).unwrap();
    let mut at = 0;
    for id in kids.iter() {
        let n = ast.get_node(*id).unwrap();
        assert_eq!(n.token_range.start, at);
        at = n.token_range.start + n.token_range.len;
    }
    assert_eq!(at, total);
    Ok(())
}
