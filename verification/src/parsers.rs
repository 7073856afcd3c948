//! The grammar layer: one production per syntax form, built from the
//! combinator engine, each producing a parse node whose token range covers
//! exactly the tokens it consumed.
//!
//! Keyword-led forms commit with `cut` right after their unambiguous lead
//! tokens, so that malformed input inside them is reported as a fatal,
//! located error instead of silently falling through to the next
//! alternative.

use vstd::prelude::*;

use crate::ast::AstNodeKind;
use crate::combinator::{is_a, many0, opt, p_progress, parse_chain, tag};
use crate::error::{FrontEndError, FrontEndErrorKind, ParseErrorKind, PResult, Severity,
    SyntaxErrorKind};
use crate::parsenode::{NodeBuilder, ParseNode};
use crate::span::{get_text_range, Span};
use crate::tokens::TokenKind;
use crate::types::Type;

verus! {

/// The node covers exactly the tokens between the start of `input` and the
/// start of `rest`, and is well-formed.
pub open spec fn good_node<'a>(input: Span<'a>, rest: Span<'a>, node: ParseNode) -> bool {
    &&& node.wf()
    &&& node.range.start == input.position
    &&& node.spec_end() == rest.position
}

/// What every production guarantees on success: it consumed at least one
/// token, left a well-formed suffix of its input, and built a node covering
/// exactly what it consumed.
pub open spec fn prod_ok<'a>(input: Span<'a>, rest: Span<'a>, node: ParseNode) -> bool {
    &&& rest.suffix_of(input)
    &&& rest.wf()
    &&& rest.span@.len() < input.span@.len()
    &&& good_node(input, rest, node)
}

/// Every success of `p` builds a node covering exactly the consumed tokens.
pub open spec fn p_node_exact<'a, F: Fn(Span<'a>) -> PResult<'a, ParseNode>>(p: F) -> bool {
    forall|s: Span<'a>, rest: Span<'a>, node: ParseNode|
        #[trigger] call_ensures(p, (s,), Ok((rest, node))) ==> good_node(s, rest, node)
}

/// Nodes produced by a chain of `p` successes tile the consumed range: each
/// is well-formed, the first starts where the chain started, each next one
/// starts where the previous ended, the last ends where the chain ended,
/// and they are ordered without overlap.
pub proof fn lemma_chain_nodes<'a, F: Fn(Span<'a>) -> PResult<'a, ParseNode>>(
    p: F,
    from: Span<'a>,
    to: Span<'a>,
    out: Seq<ParseNode>,
)
    requires
        p_progress(p),
        p_node_exact(p),
        parse_chain(p, from, to, out),
    ensures
        out.len() == 0 ==> to == from,
        out.len() > 0 ==> out[0].range.start == from.position,
        out.len() > 0 ==> out[out.len() - 1].spec_end() == to.position,
        forall|k: int| 0 < k < out.len() ==> (#[trigger] out[k]).range.start == out[k - 1].spec_end(),
        forall|k: int|
            0 <= k < out.len() ==> (#[trigger] out[k]).wf() && from.position <= out[k].range.start
                && out[k].spec_end() <= to.position,
        forall|i: int, j: int|
            0 <= i < j < out.len() ==> (#[trigger] out[i]).spec_end() <= (#[trigger] out[j]).range.start,
    decreases out.len(),
{
    if out.len() > 0 {
        let mid = choose|mid: Span<'a>|
            parse_chain(p, from, mid, out.drop_last()) && #[trigger] call_ensures(
                p,
                (mid,),
                Ok((to, out.last())),
            );
        lemma_chain_nodes(p, from, mid, out.drop_last());
        crate::combinator::lemma_chain_suffix(p, from, mid, out.drop_last());
        assert(good_node(mid, to, out.last()));
        assert(forall|k: int|
            0 <= k < out.len() - 1 ==> out.drop_last()[k] == (#[trigger] out[k]));
    }
}

/// Whether two strings hold the same characters.
pub fn str_eq(a: &str, b: &str) -> (r: bool)
    ensures
        r == (a@ == b@),
{
    let sa = a.to_owned();
    let sb = b.to_owned();
    sa == sb
}

/// A production that matches one token whose kind is any of `one_of` and
/// builds a leaf node of kind `node_kind` covering it.
fn parse_kind<'a>(input: Span<'a>, one_of: &[TokenKind], node_kind: AstNodeKind) -> (r: PResult<
    'a,
    ParseNode,
>)
    requires
        input.wf(),
    ensures
        match r {
            Ok((rest, node)) => {
                &&& prod_ok(input, rest, node)
                &&& rest.span@.len() == input.span@.len() - 1
                &&& input.span@.len() >= 1
                &&& one_of@.contains(input.span@[0].kind)
                &&& node.kind == node_kind
                &&& node.children@.len() == 0
                &&& node.meta_data is None
            },
            Err(e) => {
                &&& (input.span@.len() == 0 || !one_of@.contains(input.span@[0].kind))
                &&& !e.spec_is_fatal()
            },
        },
{
    match is_a(one_of, input) {
        Ok((rest, _k)) => {
            let node = ParseNode::builder(node_kind, input, rest).build();
            Ok((rest, node))
        },
        Err(e) => Err(e),
    }
}

/// Matches one identifier token whose text is exactly `txt`.
fn get_text<'a>(input: Span<'a>, txt: &str) -> (r: PResult<'a, Span<'a>>)
    requires
        input.wf(),
    ensures
        match r {
            Ok((rest, m)) => {
                &&& input.span@.len() >= 1
                &&& input.span@[0].kind == TokenKind::Identifier
                &&& input.span@[0].extra.spec_text() == txt@
                &&& rest.position == input.position + 1
                &&& rest.span@ == input.span@.subrange(1, input.span@.len() as int)
                &&& rest.suffix_of(input)
                &&& rest.wf()
                &&& rest.span@.len() == input.span@.len() - 1
            },
            Err(e) => {
                &&& !(input.span@.len() >= 1 && input.span@[0].kind == TokenKind::Identifier
                    && input.span@[0].extra.spec_text() == txt@)
                &&& !e.spec_is_fatal()
            },
        },
{
    let kinds: [TokenKind; 1] = [TokenKind::Identifier];
    match tag(&kinds, input) {
        Ok((rest, m)) => {
            let t = m.as_slice()[0].extra.get_text();
            if str_eq(t, txt) {
                Ok((rest, m))
            } else {
                Err(
                    FrontEndError::from_error_kind(
                        ParseErrorKind::NoMatch,
                        Severity::Error,
                        get_text_range(input),
                    ),
                )
            }
        },
        Err(e) => Err(e),
    }
}

/// Matches a closing token of the given kind; a mismatch is a fatal
/// "expected closing X" error, because by then the form is committed.
fn expect_close<'a>(input: Span<'a>, kind: TokenKind, what: &str) -> (r: PResult<'a, Span<'a>>)
    requires
        input.wf(),
    ensures
        match r {
            Ok((rest, m)) => {
                &&& input.span@.len() >= 1
                &&& input.span@[0].kind == kind
                &&& rest.position == input.position + 1
                &&& rest.span@ == input.span@.subrange(1, input.span@.len() as int)
                &&& rest.suffix_of(input)
                &&& rest.wf()
                &&& rest.span@.len() == input.span@.len() - 1
            },
            Err(e) => {
                &&& !(input.span@.len() >= 1 && input.span@[0].kind == kind)
                &&& e.spec_is_fatal()
                &&& e.kind matches FrontEndErrorKind::SyntaxError(SyntaxErrorKind::Expected(s))
                    && s@ == what@
            },
        },
{
    let kinds: [TokenKind; 1] = [kind];
    match tag(&kinds, input) {
        Ok((rest, m)) => Ok((rest, m)),
        Err(e) => Err(
            e.set_severity(Severity::Fatal).set_kind(SyntaxErrorKind::Expected(txt_owned(what))),
        ),
    }
}

/// A copy of a string slice as an owned string.
fn txt_owned(s: &str) -> (r: String)
    ensures
        r@ == s@,
{
    s.to_owned()
}

pub open spec fn number_lead(k: TokenKind) -> bool {
    k is DecNumber || k is HexNumber || k is BinNumber
}

pub fn parse_number<'a>(input: Span<'a>) -> (r: PResult<'a, ParseNode>)
    requires
        input.wf(),
    ensures
        match r {
            Ok((rest, node)) => {
                &&& prod_ok(input, rest, node)
                &&& node.kind == AstNodeKind::Number
                &&& rest.span@.len() == input.span@.len() - 1
                &&& number_lead(input.span@[0].kind)
            },
            Err(e) => !e.spec_is_fatal() && (input.span@.len() == 0 || !number_lead(
                input.span@[0].kind,
            )),
        },
{
    let kinds: [TokenKind; 3] = [TokenKind::DecNumber, TokenKind::HexNumber, TokenKind::BinNumber];
    parse_kind(input, &kinds, AstNodeKind::Number)
}

pub open spec fn bool_lead(k: TokenKind) -> bool {
    k is True || k is False
}

pub fn parse_bool<'a>(input: Span<'a>) -> (r: PResult<'a, ParseNode>)
    requires
        input.wf(),
    ensures
        match r {
            Ok((rest, node)) => {
                &&& prod_ok(input, rest, node)
                &&& node.kind == AstNodeKind::Bool
                &&& rest.span@.len() == input.span@.len() - 1
                &&& bool_lead(input.span@[0].kind)
            },
            Err(e) => !e.spec_is_fatal() && (input.span@.len() == 0 || !bool_lead(
                input.span@[0].kind,
            )),
        },
{
    let kinds: [TokenKind; 2] = [TokenKind::True, TokenKind::False];
    parse_kind(input, &kinds, AstNodeKind::Bool)
}

pub open spec fn symbol_lead(k: TokenKind) -> bool {
    k is Identifier || k is FqnIdentifier
}

pub fn parse_symbol<'a>(input: Span<'a>) -> (r: PResult<'a, ParseNode>)
    requires
        input.wf(),
    ensures
        match r {
            Ok((rest, node)) => {
                &&& prod_ok(input, rest, node)
                &&& node.kind == AstNodeKind::Symbol
                &&& rest.span@.len() == input.span@.len() - 1
                &&& symbol_lead(input.span@[0].kind)
            },
            Err(e) => !e.spec_is_fatal() && (input.span@.len() == 0 || !symbol_lead(
                input.span@[0].kind,
            )),
        },
{
    let kinds: [TokenKind; 2] = [TokenKind::Identifier, TokenKind::FqnIdentifier];
    parse_kind(input, &kinds, AstNodeKind::Symbol)
}

pub open spec fn builtin_lead(k: TokenKind) -> bool {
    k is Star || k is Plus || k is Minus || k is Slash || k is Equals
}

pub fn parse_builtin<'a>(input: Span<'a>) -> (r: PResult<'a, ParseNode>)
    requires
        input.wf(),
    ensures
        match r {
            Ok((rest, node)) => {
                &&& prod_ok(input, rest, node)
                &&& node.kind == AstNodeKind::BuiltIn
                &&& rest.span@.len() == input.span@.len() - 1
                &&& builtin_lead(input.span@[0].kind)
            },
            Err(e) => !e.spec_is_fatal() && (input.span@.len() == 0 || !builtin_lead(
                input.span@[0].kind,
            )),
        },
{
    let kinds: [TokenKind; 5] = [
        TokenKind::Star,
        TokenKind::Plus,
        TokenKind::Minus,
        TokenKind::Slash,
        TokenKind::Equals,
    ];
    parse_kind(input, &kinds, AstNodeKind::BuiltIn)
}

pub fn parse_string<'a>(input: Span<'a>) -> (r: PResult<'a, ParseNode>)
    requires
        input.wf(),
    ensures
        match r {
            Ok((rest, node)) => {
                &&& prod_ok(input, rest, node)
                &&& node.kind == AstNodeKind::QuotedString
                &&& rest.span@.len() == input.span@.len() - 1
                &&& input.span@[0].kind is QuotedString
            },
            Err(e) => !e.spec_is_fatal() && (input.span@.len() == 0 || !(input.span@[0].kind
                is QuotedString)),
        },
{
    let kinds: [TokenKind; 1] = [TokenKind::QuotedString];
    parse_kind(input, &kinds, AstNodeKind::QuotedString)
}

pub fn parse_keyword<'a>(input: Span<'a>) -> (r: PResult<'a, ParseNode>)
    requires
        input.wf(),
    ensures
        match r {
            Ok((rest, node)) => {
                &&& prod_ok(input, rest, node)
                &&& node.kind == AstNodeKind::KeyWord
                &&& rest.span@.len() == input.span@.len() - 1
                &&& input.span@[0].kind is KeyWord
            },
            Err(e) => !e.spec_is_fatal() && (input.span@.len() == 0 || !(input.span@[0].kind
                is KeyWord)),
        },
{
    let kinds: [TokenKind; 1] = [TokenKind::KeyWord];
    parse_kind(input, &kinds, AstNodeKind::KeyWord)
}

/// An empty pair of brackets `()` is the null form.
pub open spec fn null_lead<'a>(input: Span<'a>) -> bool {
    &&& input.span@.len() >= 2
    &&& input.span@[0].kind is OpenBracket
    &&& input.span@[1].kind is CloseBracket
}

pub fn parse_null<'a>(input: Span<'a>) -> (r: PResult<'a, ParseNode>)
    requires
        input.wf(),
    ensures
        match r {
            Ok((rest, node)) => {
                &&& prod_ok(input, rest, node)
                &&& node.kind == AstNodeKind::Null
                &&& rest.span@.len() == input.span@.len() - 2
                &&& null_lead(input)
            },
            Err(e) => !e.spec_is_fatal() && !null_lead(input),
        },
{
    let kinds: [TokenKind; 2] = [TokenKind::OpenBracket, TokenKind::CloseBracket];
    match tag(&kinds, input) {
        Ok((rest, _)) => {
            let node = ParseNode::builder(AstNodeKind::Null, input, rest).build();
            Ok((rest, node))
        },
        Err(e) => Err(e),
    }
}

/// The simple type a type name reads as, when it is one of the known
/// names.
pub open spec fn simple_type_of(txt: Seq<char>) -> Option<Type> {
    if txt == "bool"@ {
        Some(Type::Bool)
    } else if txt == "float"@ {
        Some(Type::Float)
    } else if txt == "int"@ {
        Some(Type::Integer)
    } else if txt == "string"@ {
        Some(Type::String)
    } else if txt == "char"@ {
        Some(Type::Char)
    } else {
        None
    }
}

/// A type named by a single identifier: one of the known simple types.
/// Succeeds exactly when the first token is an identifier reading one of
/// them, consuming that token and returning the type it names.
pub fn parse_simple_type<'a>(input: Span<'a>) -> (r: PResult<'a, Type>)
    requires
        input.wf(),
    ensures
        match r {
            Ok((rest, t)) => {
                &&& input.span@.len() >= 1
                &&& input.span@[0].kind is Identifier
                &&& simple_type_of(input.span@[0].extra.spec_text()) == Some(t)
                &&& rest.suffix_of(input)
                &&& rest.wf()
                &&& rest.span@.len() == input.span@.len() - 1
            },
            Err(e) => !e.spec_is_fatal() && (input.span@.len() == 0 || !(input.span@[0].kind
                is Identifier) || simple_type_of(input.span@[0].extra.spec_text()) is None),
        },
{
    let kinds: [TokenKind; 1] = [TokenKind::Identifier];
    match tag(&kinds, input) {
        Ok((rest, m)) => {
            let t = m.as_slice()[0].extra.get_text();
            let ty = if str_eq(t, "bool") {
                Some(Type::Bool)
            } else if str_eq(t, "float") {
                Some(Type::Float)
            } else if str_eq(t, "int") {
                Some(Type::Integer)
            } else if str_eq(t, "string") {
                Some(Type::String)
            } else if str_eq(t, "char") {
                Some(Type::Char)
            } else {
                None
            };
            match ty {
                Some(ty) => Ok((rest, ty)),
                None => Err(
                    FrontEndError::from_error_kind(
                        ParseErrorKind::NoMatch,
                        Severity::Error,
                        get_text_range(input),
                    ),
                ),
            }
        },
        Err(e) => Err(e),
    }
}

/// A type named by an identifier not otherwise known: a user type.
/// Succeeds exactly when the first token is an identifier, returning a
/// user type carrying its text.
pub fn parse_unknown_type<'a>(input: Span<'a>) -> (r: PResult<'a, Type>)
    requires
        input.wf(),
    ensures
        match r {
            Ok((rest, t)) => {
                &&& input.span@.len() >= 1
                &&& input.span@[0].kind is Identifier
                &&& (t matches Type::User(u) && u@ == input.span@[0].extra.spec_text())
                &&& rest.suffix_of(input)
                &&& rest.wf()
                &&& rest.span@.len() == input.span@.len() - 1
            },
            Err(e) => !e.spec_is_fatal() && (input.span@.len() == 0 || !(input.span@[0].kind
                is Identifier)),
        },
{
    let kinds: [TokenKind; 1] = [TokenKind::Identifier];
    match tag(&kinds, input) {
        Ok((rest, m)) => {
            let t = m.as_slice()[0].extra.get_text();
            Ok((rest, Type::User(txt_owned(t))))
        },
        Err(e) => Err(e),
    }
}

/// A colon followed by a type name annotates an argument or return value.
/// Succeeds exactly when a colon is followed by an identifier, reading a
/// known simple type by its name and any other identifier as a user type.
pub fn parse_type_annotation<'a>(input: Span<'a>) -> (r: PResult<'a, Type>)
    requires
        input.wf(),
    ensures
        match r {
            Ok((rest, t)) => {
                &&& input.span@.len() >= 2
                &&& input.span@[0].kind is Colon
                &&& input.span@[1].kind is Identifier
                &&& (match simple_type_of(input.span@[1].extra.spec_text()) {
                    Some(st) => t == st,
                    None => t matches Type::User(u) && u@ == input.span@[1].extra.spec_text(),
                })
                &&& rest.suffix_of(input)
                &&& rest.wf()
                &&& rest.span@.len() == input.span@.len() - 2
            },
            Err(e) => !e.spec_is_fatal() && !(input.span@.len() >= 2 && input.span@[0].kind
                is Colon && input.span@[1].kind is Identifier),
        },
{
    let kinds: [TokenKind; 1] = [TokenKind::Colon];
    match tag(&kinds, input) {
        Ok((rest, _)) => {
            match parse_simple_type(rest) {
                Ok((r2, t)) => {
                    proof {
                        Span::lemma_suffix_trans(r2, rest, input);
                    }
                    Ok((r2, t))
                },
                Err(e) => {
                    if e.is_fatal() {
                        Err(e)
                    } else {
                        match parse_unknown_type(rest) {
                            Ok((r2, t)) => {
                                proof {
                                    Span::lemma_suffix_trans(r2, rest, input);
                                }
                                Ok((r2, t))
                            },
                            Err(e) => Err(e),
                        }
                    }
                },
            }
        },
        Err(e) => Err(e),
    }
}

/// Every node a chain of `p` successes produced carries the kind `k`.
pub proof fn lemma_chain_kinds<'a, F: Fn(Span<'a>) -> PResult<'a, ParseNode>>(
    p: F,
    from: Span<'a>,
    to: Span<'a>,
    out: Seq<ParseNode>,
    k: AstNodeKind,
)
    requires
        forall|s: Span<'a>, rest: Span<'a>, node: ParseNode|
            #[trigger] call_ensures(p, (s,), Ok((rest, node))) ==> node.kind == k,
        parse_chain(p, from, to, out),
    ensures
        forall|i: int| 0 <= i < out.len() ==> (#[trigger] out[i]).kind == k,
    decreases out.len(),
{
    if out.len() > 0 {
        let mid = choose|mid: Span<'a>|
            parse_chain(p, from, mid, out.drop_last()) && #[trigger] call_ensures(
                p,
                (mid,),
                Ok((to, out.last())),
            );
        lemma_chain_kinds(p, from, mid, out.drop_last(), k);
        assert(forall|i: int|
            0 <= i < out.len() - 1 ==> out.drop_last()[i] == (#[trigger] out[i]));
    }
}

/// The nodes in `out` tile the token positions from `from_pos` to
/// `to_pos`: each is well-formed, the first starts at `from_pos`, each next
/// one starts where the previous ended, the last ends at `to_pos`, and they
/// are ordered without overlap.
pub open spec fn nodes_tile(from_pos: int, to_pos: int, out: Seq<ParseNode>) -> bool {
    &&& (out.len() == 0 ==> from_pos == to_pos)
    &&& out.len() > 0 ==> out[0].range.start == from_pos && out[out.len() - 1].spec_end() == to_pos
    &&& forall|k: int| 0 < k < out.len() ==> (#[trigger] out[k]).range.start == out[k - 1].spec_end()
    &&& forall|k: int|
        0 <= k < out.len() ==> (#[trigger] out[k]).wf() && from_pos <= out[k].range.start
            && out[k].spec_end() <= to_pos
    &&& forall|i: int, j: int|
        0 <= i < j < out.len() ==> (#[trigger] out[i]).spec_end() <= (#[trigger] out[j]).range.start
}

/// The kinds an atom may parse to.
pub open spec fn is_atom_kind(k: AstNodeKind) -> bool {
    ||| k is Null
    ||| k is KeyWord
    ||| k is Number
    ||| k is QuotedString
    ||| k is Bool
    ||| k is BuiltIn
    ||| k is Symbol
    ||| k is If
    ||| k is Define
    ||| k is Lambda
    ||| k is Let
    ||| k is And
    ||| k is Or
    ||| k is Application
    ||| k is Array
    ||| k is List
    ||| k is Quoted
    ||| k is MapForm
}

/// Repeats `parse_atom` until it no longer applies; a fatal failure of an
/// atom propagates. The nodes tile the consumed range.
fn many0_atoms<'a>(input: Span<'a>) -> (r: PResult<'a, Vec<ParseNode>>)
    requires
        input.wf(),
    ensures
        match r {
            Ok((rest, out)) => {
                &&& rest.suffix_of(input)
                &&& rest.wf()
                &&& nodes_tile(input.position as int, rest.position as int, out@)
                &&& forall|i: int|
                    0 <= i < out@.len() ==> is_atom_kind((#[trigger] out@[i]).kind)
            },
            Err(e) => e.spec_is_fatal(),
        },
    decreases input.span@.len(), 4int,
{
    let mut i = input;
    let mut out: Vec<ParseNode> = Vec::new();
    proof {
        assert(input.span@ =~= input.span@.subrange(0, input.span@.len() as int));
    }
    loop
        invariant
            input.wf(),
            i.wf(),
            i.suffix_of(input),
            nodes_tile(input.position as int, i.position as int, out@),
            forall|k: int| 0 <= k < out@.len() ==> is_atom_kind((#[trigger] out@[k]).kind),
        decreases i.span@.len(),
    {
        match parse_atom(i) {
            Ok((rest, node)) => {
                proof {
                    Span::lemma_suffix_trans(rest, i, input);
                    Span::lemma_suffix_wf(rest, i);
                    assert(forall|k: int|
                        0 <= k < out@.len() ==> out@.push(node)[k] == (#[trigger] out@[k]));
                    assert(out@.push(node)[out@.len() as int] == node);
                }
                out.push(node);
                i = rest;
            },
            Err(e) => {
                if e.is_fatal() {
                    return Err(e);
                } else {
                    return Ok((i, out));
                }
            },
        }
    }
}

/// Repeats `parse_pair` until it no longer applies.
fn many0_pairs<'a>(input: Span<'a>) -> (r: PResult<'a, Vec<ParseNode>>)
    requires
        input.wf(),
    ensures
        match r {
            Ok((rest, out)) => {
                &&& rest.suffix_of(input)
                &&& rest.wf()
                &&& nodes_tile(input.position as int, rest.position as int, out@)
                &&& forall|i: int|
                    0 <= i < out@.len() ==> (#[trigger] out@[i]).kind == AstNodeKind::Pair
            },
            Err(e) => e.spec_is_fatal(),
        },
    decreases input.span@.len(), 5int,
{
    let mut i = input;
    let mut out: Vec<ParseNode> = Vec::new();
    proof {
        assert(input.span@ =~= input.span@.subrange(0, input.span@.len() as int));
    }
    loop
        invariant
            input.wf(),
            i.wf(),
            i.suffix_of(input),
            nodes_tile(input.position as int, i.position as int, out@),
            forall|k: int| 0 <= k < out@.len() ==> (#[trigger] out@[k]).kind == AstNodeKind::Pair,
        decreases i.span@.len(),
    {
        match parse_pair(i) {
            Ok((rest, node)) => {
                proof {
                    Span::lemma_suffix_trans(rest, i, input);
                    Span::lemma_suffix_wf(rest, i);
                    assert(forall|k: int|
                        0 <= k < out@.len() ==> out@.push(node)[k] == (#[trigger] out@[k]));
                    assert(out@.push(node)[out@.len() as int] == node);
                }
                out.push(node);
                i = rest;
            },
            Err(e) => {
                if e.is_fatal() {
                    return Err(e);
                } else {
                    return Ok((i, out));
                }
            },
        }
    }
}

/// Repeats `parse_keyword_pair` until it no longer applies.
fn many0_keyword_pairs<'a>(input: Span<'a>) -> (r: PResult<'a, Vec<ParseNode>>)
    requires
        input.wf(),
    ensures
        match r {
            Ok((rest, out)) => {
                &&& rest.suffix_of(input)
                &&& rest.wf()
                &&& nodes_tile(input.position as int, rest.position as int, out@)
                &&& forall|i: int|
                    0 <= i < out@.len() ==> (#[trigger] out@[i]).kind == AstNodeKind::KeyWordPair
            },
            Err(e) => e.spec_is_fatal(),
        },
    decreases input.span@.len(), 2int,
{
    let mut i = input;
    let mut out: Vec<ParseNode> = Vec::new();
    proof {
        assert(input.span@ =~= input.span@.subrange(0, input.span@.len() as int));
    }
    loop
        invariant
            input.wf(),
            i.wf(),
            i.suffix_of(input),
            nodes_tile(input.position as int, i.position as int, out@),
            forall|k: int|
                0 <= k < out@.len() ==> (#[trigger] out@[k]).kind == AstNodeKind::KeyWordPair,
        decreases i.span@.len(),
    {
        match parse_keyword_pair(i) {
            Ok((rest, node)) => {
                proof {
                    Span::lemma_suffix_trans(rest, i, input);
                    Span::lemma_suffix_wf(rest, i);
                    assert(forall|k: int|
                        0 <= k < out@.len() ==> out@.push(node)[k] == (#[trigger] out@[k]));
                    assert(out@.push(node)[out@.len() as int] == node);
                }
                out.push(node);
                i = rest;
            },
            Err(e) => {
                if e.is_fatal() {
                    return Err(e);
                } else {
                    return Ok((i, out));
                }
            },
        }
    }
}

/// Repeats `parse_let_arg` until it no longer applies.
fn many0_let_args<'a>(input: Span<'a>) -> (r: PResult<'a, Vec<ParseNode>>)
    requires
        input.wf(),
    ensures
        match r {
            Ok((rest, out)) => {
                &&& rest.suffix_of(input)
                &&& rest.wf()
                &&& nodes_tile(input.position as int, rest.position as int, out@)
                &&& forall|i: int|
                    0 <= i < out@.len() ==> (#[trigger] out@[i]).kind == AstNodeKind::LetArg
            },
            Err(e) => e.spec_is_fatal(),
        },
    decreases input.span@.len(), 5int,
{
    let mut i = input;
    let mut out: Vec<ParseNode> = Vec::new();
    proof {
        assert(input.span@ =~= input.span@.subrange(0, input.span@.len() as int));
    }
    loop
        invariant
            input.wf(),
            i.wf(),
            i.suffix_of(input),
            nodes_tile(input.position as int, i.position as int, out@),
            forall|k: int| 0 <= k < out@.len() ==> (#[trigger] out@[k]).kind == AstNodeKind::LetArg,
        decreases i.span@.len(),
    {
        match parse_let_arg(i) {
            Ok((rest, node)) => {
                proof {
                    Span::lemma_suffix_trans(rest, i, input);
                    Span::lemma_suffix_wf(rest, i);
                    assert(forall|k: int|
                        0 <= k < out@.len() ==> out@.push(node)[k] == (#[trigger] out@[k]));
                    assert(out@.push(node)[out@.len() as int] == node);
                }
                out.push(node);
                i = rest;
            },
            Err(e) => {
                if e.is_fatal() {
                    return Err(e);
                } else {
                    return Ok((i, out));
                }
            },
        }
    }
}

/// Gathers the arguments of a committed argument list, stopping before the
/// closing square bracket. Once committed, a malformed argument is fatal;
/// running out of input before the closer is an `UntilNotMatched` failure.
fn args_until_close<'a>(input: Span<'a>) -> (r: PResult<'a, Vec<ParseNode>>)
    requires
        input.wf(),
    ensures
        match r {
            Ok((rest, out)) => {
                &&& rest.suffix_of(input)
                &&& rest.wf()
                &&& rest.span@.len() >= 1
                &&& rest.span@[0].kind == TokenKind::CloseSquareBracket
                &&& nodes_tile(input.position as int, rest.position as int, out@)
                &&& forall|i: int|
                    0 <= i < out@.len() ==> (#[trigger] out@[i]).kind == AstNodeKind::Arg
            },
            Err(e) => e.spec_is_fatal() || e.kind == FrontEndErrorKind::ParseError(
                ParseErrorKind::UntilNotMatched,
            ),
        },
    decreases input.span@.len(), 4int,
{
    let mut i = input;
    let mut out: Vec<ParseNode> = Vec::new();
    proof {
        assert(input.span@ =~= input.span@.subrange(0, input.span@.len() as int));
    }
    loop
        invariant
            input.wf(),
            i.wf(),
            i.suffix_of(input),
            nodes_tile(input.position as int, i.position as int, out@),
            forall|k: int| 0 <= k < out@.len() ==> (#[trigger] out@[k]).kind == AstNodeKind::Arg,
        decreases i.span@.len(),
    {
        if i.len() == 0 {
            return Err(
                FrontEndError::from_error_kind(
                    ParseErrorKind::UntilNotMatched,
                    Severity::Error,
                    get_text_range(i),
                ),
            );
        }
        let k0 = i.span[0].kind;
        if crate::combinator::kind_eq(k0, TokenKind::CloseSquareBracket) {
            return Ok((i, out));
        }
        match parse_arg(i) {
            Ok((rest, node)) => {
                proof {
                    Span::lemma_suffix_trans(rest, i, input);
                    Span::lemma_suffix_wf(rest, i);
                    assert(forall|k: int|
                        0 <= k < out@.len() ==> out@.push(node)[k] == (#[trigger] out@[k]));
                    assert(out@.push(node)[out@.len() as int] == node);
                }
                out.push(node);
                i = rest;
            },
            Err(e) => {
                return Err(e.set_severity(Severity::Fatal));
            },
        }
    }
}

/// An argument: an optional metadata block, an identifier, an optional type
/// annotation. The node covers all of it; the metadata hangs off the node.
pub fn parse_arg<'a>(input: Span<'a>) -> (r: PResult<'a, ParseNode>)
    requires
        input.wf(),
    ensures
        match r {
            Ok((rest, node)) => {
                &&& prod_ok(input, rest, node)
                &&& node.kind == AstNodeKind::Arg
                &&& node.children@.len() == 0
            },
            Err(e) => e.spec_is_fatal() ==> input.span@.len() >= 1 && input.span@[0].kind
                is Caret,
        },
    decreases input.span@.len(), 3int,
{
    let (rest, meta) = match parse_meta(input) {
        Ok((r1, m)) => (r1, Some(m)),
        Err(e) => {
            if e.is_fatal() {
                return Err(e);
            } else {
                (input, None)
            }
        },
    };
    let kinds: [TokenKind; 2] = [TokenKind::Identifier, TokenKind::FqnIdentifier];
    let rest2 = match is_a(&kinds, rest) {
        Ok((rest2, _)) => rest2,
        Err(e) => {
            return Err(e.set_kind(SyntaxErrorKind::InvalidArgument));
        },
    };
    let (rest3, _ann) = match opt(parse_type_annotation, rest2) {
        Ok(x) => x,
        Err(e) => {
            return Err(e);
        },
    };
    proof {
        if meta is Some {
            Span::lemma_suffix_trans(rest2, rest, input);
        }
        if _ann is Some {
            Span::lemma_suffix_trans(rest3, rest2, input);
        }
    }
    let node = NodeBuilder::from_spans(AstNodeKind::Arg, input, rest3).build();
    Ok((rest3, node.change_meta(meta)))
}

/// A square-bracketed list of arguments: `[a b c]`. Once the opening
/// bracket is seen, a malformed argument or a missing closer is fatal.
pub fn parse_args<'a>(input: Span<'a>) -> (r: PResult<'a, ParseNode>)
    requires
        input.wf(),
    ensures
        match r {
            Ok((rest, node)) => {
                &&& prod_ok(input, rest, node)
                &&& node.kind == AstNodeKind::Args
                &&& input.span@.len() >= 1
                &&& input.span@[0].kind is OpenSquareBracket
                &&& forall|i: int|
                    0 <= i < node.children@.len() ==> (#[trigger] node.children@[i]).kind
                        == AstNodeKind::Arg
            },
            Err(e) => {
                &&& (!e.spec_is_fatal() ==> !(input.span@.len() >= 1 && input.span@[0].kind
                    is OpenSquareBracket) || e.kind
                    == FrontEndErrorKind::ParseError(ParseErrorKind::UntilNotMatched))
                &&& (e.spec_is_fatal() ==> input.span@.len() >= 1 && input.span@[0].kind
                    is OpenSquareBracket)
            },
        },
    decreases input.span@.len(), 1int,
{
    let kinds: [TokenKind; 1] = [TokenKind::OpenSquareBracket];
    let s1 = match tag(&kinds, input) {
        Ok((s1, _)) => s1,
        Err(e) => {
            return Err(e);
        },
    };
    let (s2, out) = match args_until_close(s1) {
        Ok(x) => x,
        Err(e) => {
            return Err(e);
        },
    };
    let s3 = match expect_close(s2, TokenKind::CloseSquareBracket, "closing ']'") {
        Ok((s3, _)) => s3,
        Err(e) => {
            return Err(e);
        },
    };
    proof {
        Span::lemma_suffix_trans(s2, s1, input);
        Span::lemma_suffix_trans(s3, s2, input);
    }
    let node = NodeBuilder::from_spans(AstNodeKind::Args, input, s3).children(out).build();
    Ok((s3, node))
}

/// A single metadata annotation `^:key`, kept as a keyword-pair block whose
/// value is a synthetic true.
pub fn parse_single_meta<'a>(input: Span<'a>) -> (r: PResult<'a, ParseNode>)
    requires
        input.wf(),
    ensures
        match r {
            Ok((rest, node)) => prod_ok(input, rest, node) && node.kind == AstNodeKind::MetaData,
            Err(e) => !e.spec_is_fatal() && !(input.span@.len() >= 2 && input.span@[0].kind
                is Caret && input.span@[1].kind is KeyWord),
        },
    decreases input.span@.len(), 1int,
{
    let kinds: [TokenKind; 1] = [TokenKind::Caret];
    let s1 = match tag(&kinds, input) {
        Ok((s1, _)) => s1,
        Err(e) => {
            return Err(e);
        },
    };
    let (rest, tag_node) = match parse_keyword(s1) {
        Ok(x) => x,
        Err(e) => {
            proof {
                if input.span@.len() >= 2 {
                    assert(s1.span@[0] == input.span@[1]);
                }
            }
            return Err(e);
        },
    };
    proof {
        Span::lemma_suffix_trans(rest, s1, input);
    }
    let is_true = NodeBuilder::new(AstNodeKind::Bool, rest.position, 0).build();
    proof {
        assert(is_true.wf());
    }
    let pair_node = NodeBuilder::from_spans(AstNodeKind::KeyWordPair, input, rest)
        .child(tag_node)
        .child(is_true)
        .build();
    proof {
        assert(pair_node.wf());
    }
    let meta = NodeBuilder::from_spans(AstNodeKind::MetaData, input, rest).child(pair_node).build();
    proof {
        assert(meta.wf());
    }
    Ok((rest, meta))
}

/// A braced metadata block `^{:key value ...}`.
pub fn parse_meta_map<'a>(input: Span<'a>) -> (r: PResult<'a, ParseNode>)
    requires
        input.wf(),
    ensures
        match r {
            Ok((rest, node)) => prod_ok(input, rest, node) && node.kind == AstNodeKind::MetaData,
            Err(e) => {
                &&& (!e.spec_is_fatal() ==> !(input.span@.len() >= 2 && input.span@[0].kind
                    is Caret && input.span@[1].kind is OpenBrace))
                &&& (e.spec_is_fatal() ==> input.span@.len() >= 2 && input.span@[0].kind
                    is Caret && input.span@[1].kind is OpenBrace)
            },
        },
    decreases input.span@.len(), 1int,
{
    let kinds: [TokenKind; 1] = [TokenKind::Caret];
    let s1 = match tag(&kinds, input) {
        Ok((s1, _)) => s1,
        Err(e) => {
            return Err(e);
        },
    };
    let kb: [TokenKind; 1] = [TokenKind::OpenBrace];
    let s2 = match tag(&kb, s1) {
        Ok((s2, _)) => s2,
        Err(e) => {
            proof {
                if input.span@.len() >= 2 {
                    assert(s1.span@[0] == input.span@[1]);
                }
            }
            return Err(e);
        },
    };
    proof {
        Span::lemma_suffix_trans(s2, s1, input);
        assert(s1.span@[0] == input.span@[1]);
    }
    let (s3, kids) = match many0_keyword_pairs(s2) {
        Ok(x) => x,
        Err(e) => {
            return Err(e);
        },
    };
    let s4 = match expect_close(s3, TokenKind::CloseBrace, "closing brace '}'") {
        Ok((s4, _)) => s4,
        Err(e) => {
            return Err(e);
        },
    };
    proof {
        Span::lemma_suffix_trans(s3, s2, input);
        Span::lemma_suffix_trans(s4, s3, input);
    }
    let node = NodeBuilder::from_spans(AstNodeKind::MetaData, input, s4).children(kids).build();
    Ok((s4, node))
}

/// A metadata annotation: either the single or the braced form.
pub fn parse_meta<'a>(input: Span<'a>) -> (r: PResult<'a, ParseNode>)
    requires
        input.wf(),
    ensures
        match r {
            Ok((rest, node)) => prod_ok(input, rest, node) && node.kind == AstNodeKind::MetaData,
            Err(e) => {
                &&& !(input.span@.len() >= 2 && input.span@[0].kind is Caret && input.span@[
                    1
                ].kind is KeyWord)
                &&& (e.spec_is_fatal() ==> input.span@.len() >= 2 && input.span@[0].kind
                    is Caret && input.span@[1].kind is OpenBrace)
            },
        },
    decreases input.span@.len(), 2int,
{
    match parse_single_meta(input) {
        Ok(x) => {
            return Ok(x);
        },
        Err(e) => {
            if e.is_fatal() {
                return Err(e);
            }
        },
    }
    parse_meta_map(input)
}

/// A keyword followed by an atom: the entry form of metadata blocks.
pub fn parse_keyword_pair<'a>(input: Span<'a>) -> (r: PResult<'a, ParseNode>)
    requires
        input.wf(),
    ensures
        match r {
            Ok((rest, node)) => {
                &&& prod_ok(input, rest, node)
                &&& node.kind == AstNodeKind::KeyWordPair
                &&& node.children@.len() == 2
            },
            Err(e) => e.spec_is_fatal() ==> input.span@.len() >= 1 && input.span@[0].kind
                is KeyWord,
        },
    decreases input.span@.len(), 1int,
{
    let (s1, a) = match parse_keyword(input) {
        Ok(x) => x,
        Err(e) => {
            return Err(e);
        },
    };
    let (rest, b) = match parse_atom(s1) {
        Ok(x) => x,
        Err(e) => {
            return Err(e);
        },
    };
    proof {
        Span::lemma_suffix_trans(rest, s1, input);
    }
    let node = NodeBuilder::from_spans(AstNodeKind::KeyWordPair, input, rest)
        .child(a)
        .child(b)
        .build();
    Ok((rest, node))
}

/// Two atoms in sequence: the entry form of maps.
pub fn parse_pair<'a>(input: Span<'a>) -> (r: PResult<'a, ParseNode>)
    requires
        input.wf(),
    ensures
        match r {
            Ok((rest, node)) => {
                &&& prod_ok(input, rest, node)
                &&& node.kind == AstNodeKind::Pair
                &&& node.children@.len() == 2
            },
            Err(_) => true,
        },
    decreases input.span@.len(), 4int,
{
    let (s1, a) = match parse_atom(input) {
        Ok(x) => x,
        Err(e) => {
            return Err(e);
        },
    };
    let (rest, b) = match parse_atom(s1) {
        Ok(x) => x,
        Err(e) => {
            return Err(e);
        },
    };
    proof {
        Span::lemma_suffix_trans(rest, s1, input);
    }
    let node = NodeBuilder::from_spans(AstNodeKind::Pair, input, rest).child(a).child(b).build();
    Ok((rest, node))
}

/// A braced map literal `{ pair pair ... }`; a missing closing brace is a
/// fatal "expected closing brace" error.
pub fn parse_map<'a>(input: Span<'a>) -> (r: PResult<'a, ParseNode>)
    requires
        input.wf(),
    ensures
        match r {
            Ok((rest, node)) => {
                &&& prod_ok(input, rest, node)
                &&& node.kind == AstNodeKind::MapForm
                &&& forall|i: int|
                    0 <= i < node.children@.len() ==> (#[trigger] node.children@[i]).kind
                        == AstNodeKind::Pair
            },
            Err(e) => {
                &&& (!e.spec_is_fatal() ==> !(input.span@.len() >= 1 && input.span@[0].kind
                    is OpenBrace))
                &&& (e.spec_is_fatal() ==> input.span@.len() >= 1 && input.span@[0].kind
                    is OpenBrace)
            },
        },
    decreases input.span@.len(), 1int,
{
    let kb: [TokenKind; 1] = [TokenKind::OpenBrace];
    let s1 = match tag(&kb, input) {
        Ok((s1, _)) => s1,
        Err(e) => {
            return Err(e);
        },
    };
    let (s2, kids) = match many0_pairs(s1) {
        Ok(x) => x,
        Err(e) => {
            return Err(e);
        },
    };
    let s3 = match expect_close(s2, TokenKind::CloseBrace, "closing brace '}'") {
        Ok((s3, _)) => s3,
        Err(e) => {
            return Err(e);
        },
    };
    proof {
        Span::lemma_suffix_trans(s2, s1, input);
        Span::lemma_suffix_trans(s3, s2, input);
    }
    let node = NodeBuilder::from_spans(AstNodeKind::MapForm, input, s3).children(kids).build();
    Ok((s3, node))
}

/// A square-bracketed array literal `[atom ...]`; a missing closer is a
/// fatal "expected closing square bracket" error.
pub fn parse_array<'a>(input: Span<'a>) -> (r: PResult<'a, ParseNode>)
    requires
        input.wf(),
    ensures
        match r {
            Ok((rest, node)) => prod_ok(input, rest, node) && node.kind == AstNodeKind::Array,
            Err(e) => {
                &&& (!e.spec_is_fatal() ==> !(input.span@.len() >= 1 && input.span@[0].kind
                    is OpenSquareBracket))
                &&& (e.spec_is_fatal() ==> input.span@.len() >= 1 && input.span@[0].kind
                    is OpenSquareBracket)
            },
        },
    decreases input.span@.len(), 1int,
{
    let kinds: [TokenKind; 1] = [TokenKind::OpenSquareBracket];
    let s1 = match tag(&kinds, input) {
        Ok((s1, _)) => s1,
        Err(e) => {
            return Err(e);
        },
    };
    let (s2, kids) = match many0_atoms(s1) {
        Ok(x) => x,
        Err(e) => {
            return Err(e);
        },
    };
    let s3 = match expect_close(s2, TokenKind::CloseSquareBracket, "closing square bracket ']'") {
        Ok((s3, _)) => s3,
        Err(e) => {
            return Err(e);
        },
    };
    proof {
        Span::lemma_suffix_trans(s2, s1, input);
        Span::lemma_suffix_trans(s3, s2, input);
    }
    let node = NodeBuilder::from_spans(AstNodeKind::Array, input, s3).children(kids).build();
    Ok((s3, node))
}

/// A quoted list `'(atom ...)`.
pub fn parse_list<'a>(input: Span<'a>) -> (r: PResult<'a, ParseNode>)
    requires
        input.wf(),
    ensures
        match r {
            Ok((rest, node)) => prod_ok(input, rest, node) && node.kind == AstNodeKind::List,
            Err(e) => {
                &&& (!e.spec_is_fatal() ==> !(input.span@.len() >= 2 && input.span@[0].kind
                    is Quote && input.span@[1].kind is OpenBracket))
                &&& (e.spec_is_fatal() ==> input.span@.len() >= 2 && input.span@[0].kind
                    is Quote && input.span@[1].kind is OpenBracket)
            },
        },
    decreases input.span@.len(), 1int,
{
    let kq: [TokenKind; 1] = [TokenKind::Quote];
    let s1 = match tag(&kq, input) {
        Ok((s1, _)) => s1,
        Err(e) => {
            return Err(e);
        },
    };
    let ko: [TokenKind; 1] = [TokenKind::OpenBracket];
    let s2 = match tag(&ko, s1) {
        Ok((s2, _)) => s2,
        Err(e) => {
            proof {
                if input.span@.len() >= 2 {
                    assert(s1.span@[0] == input.span@[1]);
                }
            }
            return Err(e);
        },
    };
    proof {
        Span::lemma_suffix_trans(s2, s1, input);
        assert(s1.span@[0] == input.span@[1]);
    }
    let (s3, kids) = match many0_atoms(s2) {
        Ok(x) => x,
        Err(e) => {
            return Err(e);
        },
    };
    let s4 = match expect_close(s3, TokenKind::CloseBracket, "closing bracket ')'") {
        Ok((s4, _)) => s4,
        Err(e) => {
            return Err(e);
        },
    };
    proof {
        Span::lemma_suffix_trans(s3, s2, input);
        Span::lemma_suffix_trans(s4, s3, input);
    }
    let node = NodeBuilder::from_spans(AstNodeKind::List, input, s4).children(kids).build();
    Ok((s4, node))
}

/// A quote followed by a quotable form: array, symbol or map.
pub fn parse_quoted<'a>(input: Span<'a>) -> (r: PResult<'a, ParseNode>)
    requires
        input.wf(),
    ensures
        match r {
            Ok((rest, node)) => prod_ok(input, rest, node) && node.kind == AstNodeKind::Quoted,
            Err(e) => e.spec_is_fatal() ==> input.span@.len() >= 1 && input.span@[0].kind
                is Quote,
        },
    decreases input.span@.len(), 1int,
{
    let kq: [TokenKind; 1] = [TokenKind::Quote];
    let s1 = match tag(&kq, input) {
        Ok((s1, _)) => s1,
        Err(e) => {
            return Err(e);
        },
    };
    let (rest, atom) = match parse_quotable(s1) {
        Ok(x) => x,
        Err(e) => {
            return Err(e);
        },
    };
    proof {
        Span::lemma_suffix_trans(rest, s1, input);
    }
    let node = NodeBuilder::from_spans(AstNodeKind::Quoted, input, rest).child(atom).build();
    Ok((rest, node))
}

/// The forms a quote may be applied to.
pub fn parse_quotable<'a>(input: Span<'a>) -> (r: PResult<'a, ParseNode>)
    requires
        input.wf(),
    ensures
        match r {
            Ok((rest, node)) => prod_ok(input, rest, node),
            Err(e) => {
                &&& (input.span@.len() == 0 || !symbol_lead(input.span@[0].kind))
                &&& (e.spec_is_fatal() ==> input.span@.len() >= 1 && (input.span@[0].kind
                    is OpenSquareBracket || input.span@[0].kind is OpenBrace))
            },
        },
    decreases input.span@.len(), 2int,
{
    match parse_array(input) {
        Ok(x) => {
            return Ok(x);
        },
        Err(e) => {
            if e.is_fatal() {
                return Err(e);
            }
        },
    }
    match parse_symbol(input) {
        Ok(x) => {
            return Ok(x);
        },
        Err(e) => {
            if e.is_fatal() {
                return Err(e);
            }
        },
    }
    parse_map(input)
}

/// The input begins with an opening bracket followed by the given
/// keyword: the parse is committed to that keyword's form.
pub open spec fn keyword_committed<'a>(input: Span<'a>, kw: Seq<char>) -> bool {
    &&& input.span@.len() >= 2
    &&& input.span@[0].kind is OpenBracket
    &&& input.span@[1].kind is Identifier
    &&& input.span@[1].extra.spec_text() == kw
}

/// The input begins with an opening bracket followed by the keyword `if`:
/// the parse is committed to an `if` form.
pub open spec fn if_committed<'a>(input: Span<'a>) -> bool {
    &&& input.span@.len() >= 2
    &&& input.span@[0].kind == TokenKind::OpenBracket
    &&& input.span@[1].kind == TokenKind::Identifier
    &&& input.span@[1].extra.spec_text() == "if"@
}

/// An `if` form: `(if predicate true-branch false-branch?)`. After the
/// opening bracket and the keyword the parse is committed: any malformed
/// remainder, a missing closing bracket included, is a fatal error.
pub fn parse_if<'a>(input: Span<'a>) -> (r: PResult<'a, ParseNode>)
    requires
        input.wf(),
    ensures
        match r {
            Ok((rest, node)) => {
                &&& prod_ok(input, rest, node)
                &&& node.kind == AstNodeKind::If
                &&& 2 <= node.children@.len() <= 3
                &&& forall|i: int|
                    0 <= i < node.children@.len() ==> is_atom_kind(
                        (#[trigger] node.children@[i]).kind,
                    )
            },
            Err(e) => (if_committed(input) ==> e.spec_is_fatal()) && (e.spec_is_fatal()
                ==> if_committed(input)),
        },
    decreases input.span@.len(), 1int,
{
    let ko: [TokenKind; 1] = [TokenKind::OpenBracket];
    let s1 = match tag(&ko, input) {
        Ok((s1, _)) => s1,
        Err(e) => {
            return Err(e);
        },
    };
    let s2 = match get_text(s1, "if") {
        Ok((s2, _)) => s2,
        Err(e) => {
            return Err(e);
        },
    };
    proof {
        Span::lemma_suffix_trans(s2, s1, input);
    }
    let (s3, a) = match parse_atom(s2) {
        Ok(x) => x,
        Err(e) => {
            return Err(e.set_severity(Severity::Fatal));
        },
    };
    proof {
        Span::lemma_suffix_trans(s3, s2, input);
    }
    let (s4, b) = match parse_atom(s3) {
        Ok(x) => x,
        Err(e) => {
            return Err(e.set_severity(Severity::Fatal));
        },
    };
    proof {
        Span::lemma_suffix_trans(s4, s3, input);
    }
    let (s5, c) = match parse_atom(s4) {
        Ok((r5, cn)) => (r5, Some(cn)),
        Err(e) => {
            if e.is_fatal() {
                return Err(e);
            } else {
                (s4, None)
            }
        },
    };
    proof {
        if c is Some {
            Span::lemma_suffix_trans(s5, s4, input);
        }
    }
    let s6 = match expect_close(s5, TokenKind::CloseBracket, "closing bracket ')'") {
        Ok((s6, _)) => s6,
        Err(e) => {
            return Err(e);
        },
    };
    proof {
        Span::lemma_suffix_trans(s6, s5, input);
    }
    let node = match c {
        Some(cn) => NodeBuilder::from_spans(AstNodeKind::If, input, s6)
            .child(a)
            .child(b)
            .child(cn)
            .build(),
        None => NodeBuilder::from_spans(AstNodeKind::If, input, s6).child(a).child(b).build(),
    };
    Ok((s6, node))
}

/// A `define` form: `(define name value)` or `(def name value)`. The name
/// is an argument node; a missing closing bracket is fatal.
pub fn parse_define<'a>(input: Span<'a>) -> (r: PResult<'a, ParseNode>)
    requires
        input.wf(),
    ensures
        match r {
            Ok((rest, node)) => {
                &&& prod_ok(input, rest, node)
                &&& node.kind == AstNodeKind::Define
                &&& node.children@.len() == 2
                &&& node.children@[0].kind == AstNodeKind::Arg
            },
            Err(e) => e.spec_is_fatal() ==> (keyword_committed(input, "define"@)
                || keyword_committed(input, "def"@)),
        },
    decreases input.span@.len(), 1int,
{
    let ko: [TokenKind; 1] = [TokenKind::OpenBracket];
    let s1 = match tag(&ko, input) {
        Ok((s1, _)) => s1,
        Err(e) => {
            return Err(e);
        },
    };
    let s2 = match get_text(s1, "define") {
        Ok((s2, _)) => s2,
        Err(e) => {
            if e.is_fatal() {
                return Err(e);
            } else {
                match get_text(s1, "def") {
                    Ok((s2, _)) => s2,
                    Err(e) => {
                        return Err(e);
                    },
                }
            }
        },
    };
    proof {
        Span::lemma_suffix_trans(s2, s1, input);
    }
    let (s3, sym) = match parse_arg(s2) {
        Ok(x) => x,
        Err(e) => {
            return Err(e);
        },
    };
    proof {
        Span::lemma_suffix_trans(s3, s2, input);
    }
    let (s4, val) = match parse_atom(s3) {
        Ok(x) => x,
        Err(e) => {
            return Err(e);
        },
    };
    proof {
        Span::lemma_suffix_trans(s4, s3, input);
    }
    let s5 = match expect_close(s4, TokenKind::CloseBracket, "closing bracket ')'") {
        Ok((s5, _)) => s5,
        Err(e) => {
            return Err(e);
        },
    };
    proof {
        Span::lemma_suffix_trans(s5, s4, input);
    }
    let node = NodeBuilder::from_spans(AstNodeKind::Define, input, s5)
        .child(sym)
        .child(val)
        .build();
    Ok((s5, node))
}

/// One `let` binding: a name and its value.
pub fn parse_let_arg<'a>(input: Span<'a>) -> (r: PResult<'a, ParseNode>)
    requires
        input.wf(),
    ensures
        match r {
            Ok((rest, node)) => {
                &&& prod_ok(input, rest, node)
                &&& node.kind == AstNodeKind::LetArg
                &&& node.children@.len() == 2
            },
            Err(_) => true,
        },
    decreases input.span@.len(), 4int,
{
    let (s1, arg) = match parse_arg(input) {
        Ok(x) => x,
        Err(e) => {
            return Err(e);
        },
    };
    let (rest, val) = match parse_atom(s1) {
        Ok(x) => x,
        Err(e) => {
            return Err(e);
        },
    };
    proof {
        Span::lemma_suffix_trans(rest, s1, input);
    }
    let node = NodeBuilder::from_spans(AstNodeKind::LetArg, input, rest)
        .child(arg)
        .child(val)
        .build();
    Ok((rest, node))
}

/// The square-bracketed binding list of a `let` form.
pub fn parse_let_args<'a>(input: Span<'a>) -> (r: PResult<'a, ParseNode>)
    requires
        input.wf(),
    ensures
        match r {
            Ok((rest, node)) => {
                &&& prod_ok(input, rest, node)
                &&& node.kind == AstNodeKind::LetArgs
                &&& forall|i: int|
                    0 <= i < node.children@.len() ==> (#[trigger] node.children@[i]).kind
                        == AstNodeKind::LetArg
            },
            Err(e) => {
                &&& (!e.spec_is_fatal() ==> !(input.span@.len() >= 1 && input.span@[0].kind
                    is OpenSquareBracket))
                &&& (e.spec_is_fatal() ==> input.span@.len() >= 1 && input.span@[0].kind
                    is OpenSquareBracket)
            },
        },
    decreases input.span@.len(), 1int,
{
    let kinds: [TokenKind; 1] = [TokenKind::OpenSquareBracket];
    let s1 = match tag(&kinds, input) {
        Ok((s1, _)) => s1,
        Err(e) => {
            return Err(e);
        },
    };
    let (s2, out) = match many0_let_args(s1) {
        Ok(x) => x,
        Err(e) => {
            return Err(e);
        },
    };
    let s3 = match expect_close(s2, TokenKind::CloseSquareBracket, "closing square bracket ']'") {
        Ok((s3, _)) => s3,
        Err(e) => {
            return Err(e);
        },
    };
    proof {
        Span::lemma_suffix_trans(s2, s1, input);
        Span::lemma_suffix_trans(s3, s2, input);
    }
    let node = NodeBuilder::from_spans(AstNodeKind::LetArgs, input, s3).children(out).build();
    Ok((s3, node))
}

/// A `let` form: `(let [bindings] body...)`. Committed after the keyword.
pub fn parse_let<'a>(input: Span<'a>) -> (r: PResult<'a, ParseNode>)
    requires
        input.wf(),
    ensures
        match r {
            Ok((rest, node)) => {
                &&& prod_ok(input, rest, node)
                &&& node.kind == AstNodeKind::Let
                &&& node.children@.len() >= 1
                &&& node.children@[0].kind == AstNodeKind::LetArgs
            },
            Err(e) => (keyword_committed(input, "let"@) ==> e.spec_is_fatal()) && (
            e.spec_is_fatal() ==> keyword_committed(input, "let"@)),
        },
    decreases input.span@.len(), 1int,
{
    let ko: [TokenKind; 1] = [TokenKind::OpenBracket];
    let s1 = match tag(&ko, input) {
        Ok((s1, _)) => s1,
        Err(e) => {
            return Err(e);
        },
    };
    let s2 = match get_text(s1, "let") {
        Ok((s2, _)) => s2,
        Err(e) => {
            return Err(e);
        },
    };
    proof {
        Span::lemma_suffix_trans(s2, s1, input);
    }
    let (s3, args) = match parse_let_args(s2) {
        Ok(x) => x,
        Err(e) => {
            return Err(e.set_severity(Severity::Fatal));
        },
    };
    proof {
        Span::lemma_suffix_trans(s3, s2, input);
    }
    let (s4, forms) = match many0_atoms(s3) {
        Ok(x) => x,
        Err(e) => {
            return Err(e);
        },
    };
    let s5 = match expect_close(s4, TokenKind::CloseBracket, "closing bracket ')'") {
        Ok((s5, _)) => s5,
        Err(e) => {
            return Err(e);
        },
    };
    proof {
        Span::lemma_suffix_trans(s4, s3, input);
        Span::lemma_suffix_trans(s5, s4, input);
    }
    let node = NodeBuilder::from_spans(AstNodeKind::Let, input, s5)
        .child(args)
        .children(forms)
        .build();
    Ok((s5, node))
}

/// One lambda body: `([args] form...)`, bracketed.
pub fn parse_lambda_body<'a>(input: Span<'a>) -> (r: PResult<'a, ParseNode>)
    requires
        input.wf(),
    ensures
        match r {
            Ok((rest, node)) => {
                &&& prod_ok(input, rest, node)
                &&& node.kind == AstNodeKind::LambdaBody
                &&& node.children@.len() >= 1
                &&& node.children@[0].kind == AstNodeKind::Args
            },
            Err(e) => e.spec_is_fatal() ==> input.span@.len() >= 2 && input.span@[0].kind
                is OpenBracket && input.span@[1].kind is OpenSquareBracket,
        },
    decreases input.span@.len(), 1int,
{
    let ko: [TokenKind; 1] = [TokenKind::OpenBracket];
    let s1 = match tag(&ko, input) {
        Ok((s1, _)) => s1,
        Err(e) => {
            return Err(e);
        },
    };
    let (s2, args) = match parse_args(s1) {
        Ok(x) => x,
        Err(e) => {
            proof {
                assert(e.spec_is_fatal() ==> s1.span@[0] == input.span@[1]);
            }
            return Err(e);
        },
    };
    proof {
        Span::lemma_suffix_trans(s2, s1, input);
        assert(s1.span@[0] == input.span@[1]);
    }
    let (s3, forms) = match many0_atoms(s2) {
        Ok(x) => x,
        Err(e) => {
            return Err(e);
        },
    };
    let s4 = match expect_close(s3, TokenKind::CloseBracket, "closing bracket ')'") {
        Ok((s4, _)) => s4,
        Err(e) => {
            return Err(e);
        },
    };
    proof {
        Span::lemma_suffix_trans(s3, s2, input);
        Span::lemma_suffix_trans(s4, s3, input);
    }
    let node = NodeBuilder::from_spans(AstNodeKind::LambdaBody, input, s4)
        .child(args)
        .children(forms)
        .build();
    Ok((s4, node))
}

/// A lambda whose bodies are written without an extra layer of brackets:
/// `[args] form...`, as one body.
pub fn parse_single_lambda_body<'a>(input: Span<'a>) -> (r: PResult<'a, Vec<ParseNode>>)
    requires
        input.wf(),
    ensures
        match r {
            Ok((rest, v)) => {
                &&& rest.suffix_of(input)
                &&& rest.wf()
                &&& rest.span@.len() < input.span@.len()
                &&& v@.len() == 1
                &&& good_node(input, rest, v@[0])
                &&& v@[0].kind == AstNodeKind::LambdaBody
            },
            Err(e) => e.spec_is_fatal() ==> input.span@.len() >= 1 && input.span@[0].kind
                is OpenSquareBracket,
        },
    decreases input.span@.len(), 2int,
{
    let (s1, args) = match parse_args(input) {
        Ok(x) => x,
        Err(e) => {
            return Err(e);
        },
    };
    let (s2, forms) = match many0_atoms(s1) {
        Ok(x) => x,
        Err(e) => {
            return Err(e);
        },
    };
    proof {
        Span::lemma_suffix_trans(s2, s1, input);
    }
    let node = NodeBuilder::from_spans(AstNodeKind::LambdaBody, input, s2)
        .child(args)
        .children(forms)
        .build();
    let mut v: Vec<ParseNode> = Vec::new();
    v.push(node);
    Ok((s2, v))
}

/// A run of bracketed lambda bodies; may be empty.
pub fn parse_multi_lambda_body<'a>(input: Span<'a>) -> (r: PResult<'a, Vec<ParseNode>>)
    requires
        input.wf(),
    ensures
        match r {
            Ok((rest, v)) => {
                &&& rest.suffix_of(input)
                &&& rest.wf()
                &&& nodes_tile(input.position as int, rest.position as int, v@)
                &&& forall|i: int|
                    0 <= i < v@.len() ==> (#[trigger] v@[i]).kind == AstNodeKind::LambdaBody
            },
            Err(e) => e.spec_is_fatal(),
        },
    decreases input.span@.len(), 2int,
{
    let mut i = input;
    let mut out: Vec<ParseNode> = Vec::new();
    proof {
        assert(input.span@ =~= input.span@.subrange(0, input.span@.len() as int));
    }
    loop
        invariant
            input.wf(),
            i.wf(),
            i.suffix_of(input),
            nodes_tile(input.position as int, i.position as int, out@),
            forall|k: int|
                0 <= k < out@.len() ==> (#[trigger] out@[k]).kind == AstNodeKind::LambdaBody,
        decreases i.span@.len(),
    {
        match parse_lambda_body(i) {
            Ok((rest, node)) => {
                proof {
                    Span::lemma_suffix_trans(rest, i, input);
                    Span::lemma_suffix_wf(rest, i);
                    assert(forall|k: int|
                        0 <= k < out@.len() ==> out@.push(node)[k] == (#[trigger] out@[k]));
                    assert(out@.push(node)[out@.len() as int] == node);
                }
                out.push(node);
                i = rest;
            },
            Err(e) => {
                if e.is_fatal() {
                    return Err(e);
                } else {
                    return Ok((i, out));
                }
            },
        }
    }
}

/// A block: a run of lambda bodies gathered under one node.
pub fn parse_block<'a>(input: Span<'a>) -> (r: PResult<'a, ParseNode>)
    requires
        input.wf(),
    ensures
        match r {
            Ok((rest, node)) => {
                &&& rest.suffix_of(input)
                &&& rest.wf()
                &&& good_node(input, rest, node)
                &&& node.kind == AstNodeKind::Block
            },
            Err(e) => e.spec_is_fatal(),
        },
{
    match parse_multi_lambda_body(input) {
        Ok((rest, forms)) => {
            let node = NodeBuilder::from_spans(AstNodeKind::Block, input, rest)
                .children(forms)
                .build();
            Ok((rest, node))
        },
        Err(e) => Err(e),
    }
}

/// A lambda form: `(fn [args] body...)` or `(fn ([args] body...) ...)`.
/// An optional return type annotation may follow the closing bracket.
pub fn parse_lambda<'a>(input: Span<'a>) -> (r: PResult<'a, ParseNode>)
    requires
        input.wf(),
    ensures
        match r {
            Ok((rest, node)) => {
                &&& prod_ok(input, rest, node)
                &&& node.kind == AstNodeKind::Lambda
                &&& forall|i: int|
                    0 <= i < node.children@.len() ==> (#[trigger] node.children@[i]).kind
                        == AstNodeKind::LambdaBody
            },
            Err(e) => (keyword_committed(input, "fn"@) ==> e.spec_is_fatal()) && (
            e.spec_is_fatal() ==> keyword_committed(input, "fn"@)),
        },
    decreases input.span@.len(), 1int,
{
    let ko: [TokenKind; 1] = [TokenKind::OpenBracket];
    let s1 = match tag(&ko, input) {
        Ok((s1, _)) => s1,
        Err(e) => {
            return Err(e);
        },
    };
    let s2 = match get_text(s1, "fn") {
        Ok((s2, _)) => s2,
        Err(e) => {
            return Err(e);
        },
    };
    proof {
        Span::lemma_suffix_trans(s2, s1, input);
    }
    let (s3, bodies) = match parse_single_lambda_body(s2) {
        Ok(x) => x,
        Err(e) => {
            if e.is_fatal() {
                return Err(e);
            } else {
                match parse_multi_lambda_body(s2) {
                    Ok(x) => x,
                    Err(e) => {
                        return Err(e);
                    },
                }
            }
        },
    };
    proof {
        Span::lemma_suffix_trans(s3, s2, input);
    }
    let s4 = match expect_close(s3, TokenKind::CloseBracket, "closing bracket ')'") {
        Ok((s4, _)) => s4,
        Err(e) => {
            return Err(e);
        },
    };
    proof {
        Span::lemma_suffix_trans(s4, s3, input);
    }
    let (s5, _ann) = match opt(parse_type_annotation, s4) {
        Ok(x) => x,
        Err(e) => {
            return Err(e);
        },
    };
    proof {
        if _ann is Some {
            Span::lemma_suffix_trans(s5, s4, input);
        }
    }
    let node = NodeBuilder::from_spans(AstNodeKind::Lambda, input, s5).children(bodies).build();
    Ok((s5, node))
}

/// A keyword-led form that gathers its forms without further shape: `and`,
/// `or`, `do`, `cond`, `macro`.
fn parse_simple<'a>(input: Span<'a>, txt: &str, kind: AstNodeKind) -> (r: PResult<'a, ParseNode>)
    requires
        input.wf(),
    ensures
        match r {
            Ok((rest, node)) => prod_ok(input, rest, node) && node.kind == kind,
            Err(e) => (keyword_committed(input, txt@) ==> e.spec_is_fatal()) && (
            e.spec_is_fatal() ==> keyword_committed(input, txt@)),
        },
    decreases input.span@.len(), 0int,
{
    let ko: [TokenKind; 1] = [TokenKind::OpenBracket];
    let s1 = match tag(&ko, input) {
        Ok((s1, _)) => s1,
        Err(e) => {
            return Err(e);
        },
    };
    let s2 = match get_text(s1, txt) {
        Ok((s2, _)) => s2,
        Err(e) => {
            return Err(e);
        },
    };
    proof {
        Span::lemma_suffix_trans(s2, s1, input);
    }
    let (s3, forms) = match many0_atoms(s2) {
        Ok(x) => x,
        Err(e) => {
            return Err(e);
        },
    };
    let s4 = match expect_close(s3, TokenKind::CloseBracket, "closing bracket ')'") {
        Ok((s4, _)) => s4,
        Err(e) => {
            return Err(e);
        },
    };
    proof {
        Span::lemma_suffix_trans(s3, s2, input);
        Span::lemma_suffix_trans(s4, s3, input);
    }
    let node = NodeBuilder::from_spans(kind, input, s4).children(forms).build();
    Ok((s4, node))
}

pub fn parse_and<'a>(input: Span<'a>) -> (r: PResult<'a, ParseNode>)
    requires
        input.wf(),
    ensures
        match r {
            Ok((rest, node)) => prod_ok(input, rest, node) && node.kind == AstNodeKind::And,
            Err(e) => (keyword_committed(input, "and"@) ==> e.spec_is_fatal()) && (
            e.spec_is_fatal() ==> keyword_committed(input, "and"@)),
        },
    decreases input.span@.len(), 1int,
{
    parse_simple(input, "and", AstNodeKind::And)
}

pub fn parse_or<'a>(input: Span<'a>) -> (r: PResult<'a, ParseNode>)
    requires
        input.wf(),
    ensures
        match r {
            Ok((rest, node)) => prod_ok(input, rest, node) && node.kind == AstNodeKind::Or,
            Err(e) => (keyword_committed(input, "or"@) ==> e.spec_is_fatal()) && (
            e.spec_is_fatal() ==> keyword_committed(input, "or"@)),
        },
    decreases input.span@.len(), 1int,
{
    parse_simple(input, "or", AstNodeKind::Or)
}

/// The keyword-led special forms, tried in a fixed order.
pub fn parse_specials<'a>(input: Span<'a>) -> (r: PResult<'a, ParseNode>)
    requires
        input.wf(),
    ensures
        match r {
            Ok((rest, node)) => prod_ok(input, rest, node) && is_atom_kind(node.kind),
            Err(e) => e.spec_is_fatal() ==> input.span@.len() >= 1 && input.span@[0].kind
                is OpenBracket,
        },
    decreases input.span@.len(), 2int,
{
    match parse_if(input) {
        Ok(x) => {
            return Ok(x);
        },
        Err(e) => {
            if e.is_fatal() {
                return Err(e);
            }
        },
    }
    match parse_define(input) {
        Ok(x) => {
            return Ok(x);
        },
        Err(e) => {
            if e.is_fatal() {
                return Err(e);
            }
        },
    }
    match parse_lambda(input) {
        Ok(x) => {
            return Ok(x);
        },
        Err(e) => {
            if e.is_fatal() {
                return Err(e);
            }
        },
    }
    match parse_let(input) {
        Ok(x) => {
            return Ok(x);
        },
        Err(e) => {
            if e.is_fatal() {
                return Err(e);
            }
        },
    }
    match parse_and(input) {
        Ok(x) => {
            return Ok(x);
        },
        Err(e) => {
            if e.is_fatal() {
                return Err(e);
            }
        },
    }
    parse_or(input)
}

/// An application: `(callee atom...)`, the callee a symbol, a nested
/// application, or a built-in operator. A missing closing bracket is fatal.
pub fn parse_application<'a>(input: Span<'a>) -> (r: PResult<'a, ParseNode>)
    requires
        input.wf(),
    ensures
        match r {
            Ok((rest, node)) => {
                &&& prod_ok(input, rest, node)
                &&& node.kind == AstNodeKind::Application
                &&& node.children@.len() >= 1
            },
            Err(e) => e.spec_is_fatal() ==> input.span@.len() >= 1 && input.span@[0].kind
                is OpenBracket,
        },
    decreases input.span@.len(), 1int,
{
    let ko: [TokenKind; 1] = [TokenKind::OpenBracket];
    let s1 = match tag(&ko, input) {
        Ok((s1, _)) => s1,
        Err(e) => {
            return Err(e);
        },
    };
    let (s2, app) = match parse_symbol(s1) {
        Ok(x) => x,
        Err(e0) => {
            if e0.is_fatal() {
                return Err(e0);
            } else {
                match parse_application(s1) {
                    Ok(x) => x,
                    Err(e1) => {
                        if e1.is_fatal() {
                            return Err(e1);
                        } else {
                            match parse_builtin(s1) {
                                Ok(x) => x,
                                Err(e2) => {
                                    return Err(e2);
                                },
                            }
                        }
                    },
                }
            }
        },
    };
    proof {
        Span::lemma_suffix_trans(s2, s1, input);
    }
    let (s3, forms) = match many0_atoms(s2) {
        Ok(x) => x,
        Err(e) => {
            return Err(e);
        },
    };
    let s4 = match expect_close(s3, TokenKind::CloseBracket, "closing bracket ')'") {
        Ok((s4, _)) => s4,
        Err(e) => {
            return Err(e);
        },
    };
    proof {
        Span::lemma_suffix_trans(s3, s2, input);
        Span::lemma_suffix_trans(s4, s3, input);
    }
    let node = NodeBuilder::from_spans(AstNodeKind::Application, input, s4)
        .child(app)
        .children(forms)
        .build();
    Ok((s4, node))
}

/// One atom: any single form of the language, tried alternative by
/// alternative in a fixed order. A fatal failure of a committed alternative
/// stops the alternation.
pub fn parse_atom<'a>(input: Span<'a>) -> (r: PResult<'a, ParseNode>)
    requires
        input.wf(),
    ensures
        match r {
            Ok((rest, node)) => prod_ok(input, rest, node) && is_atom_kind(node.kind),
            Err(e) => {
                &&& (input.span@.len() == 0 || !(number_lead(input.span@[0].kind) || bool_lead(
                    input.span@[0].kind,
                ) || symbol_lead(input.span@[0].kind) || builtin_lead(input.span@[0].kind)
                    || input.span@[0].kind is KeyWord || input.span@[0].kind is QuotedString))
                &&& !null_lead(input)
                &&& (e.spec_is_fatal() ==> input.span@.len() >= 1 && (input.span@[0].kind
                    is OpenBracket || input.span@[0].kind is OpenSquareBracket || input.span@[
                    0
                ].kind is OpenBrace || input.span@[0].kind is Quote))
            },
        },
    decreases input.span@.len(), 3int,
{
    match parse_null(input) {
        Ok(x) => {
            return Ok(x);
        },
        Err(e) => {
            if e.is_fatal() {
                return Err(e);
            }
        },
    }
    match parse_keyword(input) {
        Ok(x) => {
            return Ok(x);
        },
        Err(e) => {
            if e.is_fatal() {
                return Err(e);
            }
        },
    }
    match parse_number(input) {
        Ok(x) => {
            return Ok(x);
        },
        Err(e) => {
            if e.is_fatal() {
                return Err(e);
            }
        },
    }
    match parse_string(input) {
        Ok(x) => {
            return Ok(x);
        },
        Err(e) => {
            if e.is_fatal() {
                return Err(e);
            }
        },
    }
    match parse_bool(input) {
        Ok(x) => {
            return Ok(x);
        },
        Err(e) => {
            if e.is_fatal() {
                return Err(e);
            }
        },
    }
    match parse_builtin(input) {
        Ok(x) => {
            return Ok(x);
        },
        Err(e) => {
            if e.is_fatal() {
                return Err(e);
            }
        },
    }
    match parse_symbol(input) {
        Ok(x) => {
            return Ok(x);
        },
        Err(e) => {
            if e.is_fatal() {
                return Err(e);
            }
        },
    }
    match parse_specials(input) {
        Ok(x) => {
            return Ok(x);
        },
        Err(e) => {
            if e.is_fatal() {
                return Err(e);
            }
        },
    }
    match parse_application(input) {
        Ok(x) => {
            return Ok(x);
        },
        Err(e) => {
            if e.is_fatal() {
                return Err(e);
            }
        },
    }
    match parse_array(input) {
        Ok(x) => {
            return Ok(x);
        },
        Err(e) => {
            if e.is_fatal() {
                return Err(e);
            }
        },
    }
    match parse_list(input) {
        Ok(x) => {
            return Ok(x);
        },
        Err(e) => {
            if e.is_fatal() {
                return Err(e);
            }
        },
    }
    match parse_quoted(input) {
        Ok(x) => {
            return Ok(x);
        },
        Err(e) => {
            if e.is_fatal() {
                return Err(e);
            }
        },
    }
    parse_map(input)
}

/// A whole program: a run of atoms. The program node's children tile its
/// token range exactly: the root's range spans all consumed tokens, with no
/// gaps and no overlaps between the top-level forms. The only failure is a
/// fatal one that a committed form admits on the span a run of parsed
/// atoms reached.
pub fn parse_program<'a>(input: Span<'a>) -> (r: PResult<'a, ParseNode>)
    requires
        input.wf(),
    ensures
        match r {
            Ok((rest, node)) => {
                &&& rest.suffix_of(input)
                &&& rest.wf()
                &&& good_node(input, rest, node)
                &&& node.kind == AstNodeKind::Program
                &&& node.children_tile()
                &&& forall|i: int|
                    0 <= i < node.children@.len() ==> is_atom_kind(
                        (#[trigger] node.children@[i]).kind,
                    )
            },
            Err(e) => e.spec_is_fatal() && exists|s: Span<'a>, out: Seq<ParseNode>|
                #[trigger] parse_chain(parse_atom, input, s, out) && #[trigger] call_ensures(
                    parse_atom,
                    (s,),
                    Result::<(Span<'a>, ParseNode), FrontEndError>::Err(e),
                ),
        },
{
    match many0(parse_atom, input) {
        Ok((rest, matched)) => {
            proof {
                lemma_chain_nodes(parse_atom, input, rest, matched@);
                lemma_chain_atom_kinds(parse_atom, input, rest, matched@);
            }
            let node = NodeBuilder::from_spans(AstNodeKind::Program, input, rest)
                .children(matched)
                .build();
            Ok((rest, node))
        },
        Err(e) => Err(e),
    }
}

/// Every node a chain of `p` successes produced carries an atom kind.
proof fn lemma_chain_atom_kinds<'a, F: Fn(Span<'a>) -> PResult<'a, ParseNode>>(
    p: F,
    from: Span<'a>,
    to: Span<'a>,
    out: Seq<ParseNode>,
)
    requires
        forall|s: Span<'a>, rest: Span<'a>, node: ParseNode|
            #[trigger] call_ensures(p, (s,), Ok((rest, node))) ==> is_atom_kind(node.kind),
        parse_chain(p, from, to, out),
    ensures
        forall|i: int| 0 <= i < out.len() ==> is_atom_kind((#[trigger] out[i]).kind),
    decreases out.len(),
{
    if out.len() > 0 {
        let mid = choose|mid: Span<'a>|
            parse_chain(p, from, mid, out.drop_last()) && #[trigger] call_ensures(
                p,
                (mid,),
                Ok((to, out.last())),
            );
        lemma_chain_atom_kinds(p, from, mid, out.drop_last());
        assert(forall|i: int|
            0 <= i < out.len() - 1 ==> out.drop_last()[i] == (#[trigger] out[i]));
    }
}

} // verus!
