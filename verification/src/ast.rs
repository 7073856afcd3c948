//! The abstract syntax tree: an id-addressed tree of nodes, each carrying a
//! rewritable kind tag, the token range it was parsed from, and the source
//! text range it covers.
//!
//! Node ids are indices into a flat arena and stay stable across the
//! structural edits the lowering pass performs (detaching a child); nothing
//! is ever removed from the arena itself.

use vstd::prelude::*;

use crate::parsenode::ParseNode;
use crate::symbols::{ScopeId, SymbolScopeId};
use crate::tokens::TextSpan;

verus! {

broadcast use vstd::std_specs::vec::axiom_vec_index_decreases;

/// Addresses one node of an `Ast`; an index into its arena.
pub type AstNodeId = usize;

/// The generically tagged forms that the lowering pass still has to rewrite
/// into resolved or typed nodes.
#[derive(Clone, Copy, Debug, PartialEq, Eq, Structural)]
pub enum ToProcessKind {
    If,
    Application,
    And,
    Or,
    Let,
    Lambda,
    Symbol,
}

/// The payload of a lowered `if`: the ids of its predicate, true branch and
/// optional false branch, recorded directly so that consumers need not
/// re-derive them from child order.
#[derive(Clone, Debug, PartialEq, Eq)]
pub struct IfData {
    pub id: AstNodeId,
    pub predicate: AstNodeId,
    pub if_true: AstNodeId,
    pub if_false: Option<AstNodeId>,
}

/// The payload of a lowered application: the id of the callee and the ids
/// of the arguments in order.
#[derive(Clone, Debug, PartialEq, Eq)]
pub struct ApplicationData {
    pub id: AstNodeId,
    pub func: AstNodeId,
    pub args: Vec<AstNodeId>,
}

/// The kind tag of a node. Parsing produces the plain tags; the lowering
/// pass rewrites some of them into tags carrying resolved ids or typed
/// payloads.
#[derive(Clone, Debug, PartialEq)]
pub enum AstNodeKind {
    BuiltIn,
    Quoted,
    Program,
    /// An `if` form as parsed, its shape still generic.
    If,
    /// An application as parsed, its shape still generic.
    Application,
    Array,
    Number,
    List,
    Null,
    Bool,
    QuotedString,
    MapForm,
    Pair,
    KeyWordPair,
    KeyWord,
    Define,
    Lambda,
    LambdaBody,
    Let,
    Cond,
    And,
    Or,
    Do,
    Macro,
    Arg,
    Args,
    LetArg,
    LetArgs,
    MetaData,
    Block,
    Nothing,
    /// An unresolved symbol reference, as parsed.
    Symbol,
    /// A symbol reference resolved to its symbol identity.
    ResolvedSymbol(SymbolScopeId),
    /// A `define` rewritten to carry the symbol it binds.
    AssignSymbol(SymbolScopeId),
    /// A synthetic marker: from here on the current scope is the given one.
    SetScope(ScopeId),
    /// An `if` rewritten to its typed payload.
    IfExpr(Box<IfData>),
    /// An application rewritten to its typed payload.
    ApplicationExpr(Box<ApplicationData>),
}

impl AstNodeKind {
    /// Whether a form of this kind opens a lexical scope of its own.
    pub open spec fn spec_creates_new_scope(&self) -> bool {
        self is Lambda || self is Let
    }

    pub fn creates_new_scope(&self) -> (r: bool)
        ensures
            r == self.spec_creates_new_scope(),
    {
        match self {
            AstNodeKind::Lambda => true,
            AstNodeKind::Let => true,
            _ => false,
        }
    }
}

/// One slot of the tree arena: the node and the ids of its children, in
/// order.
#[derive(Clone, Debug)]
pub struct AstEntry {
    pub node: AstNode,
    pub children: Vec<AstNodeId>,
}

/// One node of the abstract syntax tree: a rewritable kind tag, the token
/// range it was parsed from, and the source text range it covers.
#[derive(Clone, Debug)]
pub struct AstNode {
    pub kind: AstNodeKind,
    pub token_range: TextSpan,
    pub text_range: TextSpan,
}

impl AstNode {
    /// The same node under another kind tag.
    pub fn change_kind(&self, new_k: AstNodeKind) -> (r: Self)
        ensures
            r.kind == new_k,
            r.token_range == self.token_range,
            r.text_range == self.text_range,
    {
        AstNode { kind: new_k, token_range: self.token_range, text_range: self.text_range }
    }
}

/// The source text range a non-empty run of tokens covers: from the start
/// of its first token to the end of its last.
pub fn get_text_range<'a>(tokes_range: &[crate::lexer::Token<'a>]) -> (r: TextSpan)
    requires
        tokes_range@.len() >= 1,
        crate::lexer::tokens_wf(tokes_range@),
    ensures
        r.start == tokes_range@[0].location.start,
        r.start + r.len == tokes_range@[tokes_range@.len() - 1].location.spec_end(),
{
    let first = tokes_range[0].location;
    let last = tokes_range[tokes_range.len() - 1].location;
    TextSpan::new(first.start, last.start + last.len - first.start)
}

/// The text range a token range maps to: from the start of its first
/// token to the end of its last; an empty token range covers no text.
pub open spec fn spec_text_range_of<'a>(
    tokes: Seq<crate::lexer::Token<'a>>,
    tr: TextSpan,
) -> TextSpan {
    if tr.len > 0 {
        TextSpan {
            start: tokes[tr.start as int].location.start,
            len: (tokes[tr.start + tr.len - 1].location.spec_end() - tokes[
                tr.start as int
            ].location.start) as usize,
        }
    } else {
        TextSpan { start: 0, len: 0 }
    }
}

/// Every node's text range is the one its token range maps to.
pub open spec fn text_ranges_from<'a>(
    nodes: Seq<AstEntry>,
    tokes: Seq<crate::lexer::Token<'a>>,
) -> bool {
    forall|i: int|
        0 <= i < nodes.len() ==> (#[trigger] nodes[i].node.text_range) == spec_text_range_of(
            tokes,
            nodes[i].node.token_range,
        )
}

/// The arena entries are acyclic: each entry's children come strictly
/// before it.
pub open spec fn entries_wf(nodes: Seq<AstEntry>) -> bool {
    forall|i: int, j: int|
        0 <= i < nodes.len() && 0 <= j < nodes[i].children@.len() ==> (#[trigger] nodes[
            i
        ].children@[j]) < i
}

/// The subtree rooted at `id` mirrors the parse node `pn`: same kind tag,
/// same token range, and children that mirror `pn`'s children in order.
pub open spec fn corresponds(nodes: Seq<AstEntry>, id: int, pn: ParseNode) -> bool
    decreases pn,
{
    &&& 0 <= id < nodes.len()
    &&& nodes[id].node.kind == pn.kind
    &&& nodes[id].node.token_range == pn.range
    &&& nodes[id].children@.len() == pn.children@.len()
    &&& forall|k: int|
        0 <= k < pn.children@.len() ==> corresponds(
            nodes,
            #[trigger] nodes[id].children@[k] as int,
            pn.children@[k],
        )
}

/// Mirroring survives appending entries to the arena.
pub proof fn lemma_corresponds_extend(nodes: Seq<AstEntry>, more: Seq<AstEntry>, id: int, pn: ParseNode)
    requires
        corresponds(nodes, id, pn),
        entries_wf(nodes),
    ensures
        corresponds(nodes + more, id, pn),
    decreases pn,
{
    assert(forall|k: int|
        0 <= k < nodes.len() ==> (nodes + more)[k] == (#[trigger] nodes[k]));
    assert forall|k: int| 0 <= k < pn.children@.len() implies corresponds(
        nodes + more,
        #[trigger] nodes[id].children@[k] as int,
        pn.children@[k],
    ) by {
        lemma_corresponds_extend(nodes, more, nodes[id].children@[k] as int, pn.children@[k]);
    }
}

/// The abstract syntax tree: an id-addressed arena of nodes plus the source
/// file the tree came from. Ids stay stable across the edits the lowering
/// pass performs; the arena only grows.
#[derive(Clone, Debug)]
pub struct Ast {
    pub nodes: Vec<AstEntry>,
    pub source_file: crate::sources::SourceFile,
}

impl Ast {
    /// The arena is non-empty, acyclic, and its last entry is the root.
    pub open spec fn wf(&self) -> bool {
        &&& self.nodes@.len() >= 1
        &&& entries_wf(self.nodes@)
    }

    /// The id of the root node.
    pub fn get_root_id(&self) -> (r: AstNodeId)
        requires
            self.wf(),
        ensures
            r == self.nodes@.len() - 1,
    {
        self.nodes.len() - 1
    }

    /// The node at an id.
    pub fn get_node(&self, id: AstNodeId) -> (r: Option<&AstNode>)
        ensures
            match r {
                Some(node) => id < self.nodes@.len() && *node == self.nodes@[id as int].node,
                None => id >= self.nodes@.len(),
            },
    {
        if id < self.nodes.len() {
            Some(&self.nodes[id].node)
        } else {
            None
        }
    }

    /// The ids of a node's children, in order.
    pub fn get_children(&self, id: AstNodeId) -> (r: Option<&Vec<AstNodeId>>)
        ensures
            match r {
                Some(kids) => id < self.nodes@.len() && kids@ == self.nodes@[id as int].children@,
                None => id >= self.nodes@.len(),
            },
    {
        if id < self.nodes.len() {
            Some(&self.nodes[id].children)
        } else {
            None
        }
    }

    /// The id of the `n`th child of a node, if there is one.
    pub fn get_nth_kid_id(&self, id: AstNodeId, n: usize) -> (r: Option<AstNodeId>)
        ensures
            match r {
                Some(kid) => id < self.nodes@.len() && n < self.nodes@[id as int].children@.len()
                    && kid == self.nodes@[id as int].children@[n as int],
                None => id >= self.nodes@.len() || n >= self.nodes@[id as int].children@.len(),
            },
    {
        if id < self.nodes.len() {
            let kids = &self.nodes[id].children;
            if n < kids.len() {
                Some(kids[n])
            } else {
                None
            }
        } else {
            None
        }
    }

    /// Rewrites the kind tag of one node in place; the tree's structure and
    /// every other node stay as they were.
    pub fn change_node_kind(&mut self, id: AstNodeId, new_kind: AstNodeKind)
        requires
            id < old(self).nodes@.len(),
        ensures
            final(self).nodes@.len() == old(self).nodes@.len(),
            final(self).source_file == old(self).source_file,
            final(self).nodes@[id as int].node.kind == new_kind,
            final(self).nodes@[id as int].node.token_range == old(self).nodes@[
                id as int
            ].node.token_range,
            final(self).nodes@[id as int].node.text_range == old(self).nodes@[
                id as int
            ].node.text_range,
            final(self).nodes@[id as int].children@ == old(self).nodes@[id as int].children@,
            forall|k: int|
                0 <= k < old(self).nodes@.len() && k != id ==> final(self).nodes@[k] == old(
                    self,
                ).nodes@[k],
            old(self).wf() ==> final(self).wf(),
    {
        let entry = &mut self.nodes[id];
        entry.node.kind = new_kind;
    }

    /// Detaches the first child of a node: the child's subtree stays in the
    /// arena but is no longer reachable from its old parent.
    pub fn detach_first_child(&mut self, id: AstNodeId)
        requires
            id < old(self).nodes@.len(),
            old(self).nodes@[id as int].children@.len() >= 1,
        ensures
            final(self).nodes@.len() == old(self).nodes@.len(),
            final(self).source_file == old(self).source_file,
            final(self).nodes@[id as int].node == old(self).nodes@[id as int].node,
            final(self).nodes@[id as int].children@ == old(self).nodes@[
                id as int
            ].children@.subrange(1, old(self).nodes@[id as int].children@.len() as int),
            forall|k: int|
                0 <= k < old(self).nodes@.len() && k != id ==> final(self).nodes@[k] == old(
                    self,
                ).nodes@[k],
            old(self).wf() ==> final(self).wf(),
    {
        let entry = &mut self.nodes[id];
        entry.children.remove(0);
        proof {
            assert(entry.children@ =~= old(self).nodes@[id as int].children@.subrange(
                1,
                old(self).nodes@[id as int].children@.len() as int,
            ));
        }
    }

    /// Builds the tree that mirrors a parse tree, over the given tokens and
    /// source file.
    pub fn new<'a>(
        parse_node: ParseNode,
        tokes: &[crate::lexer::Token<'a>],
        source_file: crate::sources::SourceFile,
    ) -> (r: Self)
        requires
            parse_node.wf(),
            parse_node.spec_end() <= tokes@.len(),
            crate::lexer::tokens_wf(tokes@),
        ensures
            r.wf(),
            r.source_file == source_file,
            corresponds(r.nodes@, r.nodes@.len() - 1, parse_node),
            text_ranges_from(r.nodes@, tokes@),
    {
        let mut ret = Ast { nodes: Vec::new(), source_file };
        proof {
            assert(text_ranges_from(ret.nodes@, tokes@));
        }
        let _root = add_subtree(&mut ret, parse_node, tokes);
        ret
    }
}

/// Appends the subtree of a parse node, children first; the new subtree's
/// root is the returned id, and what was in the arena stays untouched.
#[verifier::loop_isolation(false)]
fn add_subtree<'a>(
    ast: &mut Ast,
    pn: ParseNode,
    tokes: &[crate::lexer::Token<'a>],
) -> (id: AstNodeId)
    requires
        pn.wf(),
        pn.spec_end() <= tokes@.len(),
        crate::lexer::tokens_wf(tokes@),
        entries_wf(old(ast).nodes@),
    ensures
        entries_wf(final(ast).nodes@),
        final(ast).nodes@.len() > old(ast).nodes@.len(),
        final(ast).nodes@.subrange(0, old(ast).nodes@.len() as int) == old(ast).nodes@,
        final(ast).source_file == old(ast).source_file,
        id == final(ast).nodes@.len() - 1,
        corresponds(final(ast).nodes@, id as int, pn),
        text_ranges_from(old(ast).nodes@, tokes@) ==> text_ranges_from(final(ast).nodes@, tokes@),
    decreases pn,
{
    let ghost pn0 = pn;
    let ParseNode { kind, range, children, meta_data: _ } = pn;
        let mut kids = children;
        let total: usize = kids.len();
        let mut kid_ids: Vec<AstNodeId> = Vec::new();
        let ghost all_kids = kids@;
        let mut done: usize = 0;
        proof {
        assert(ast.nodes@.subrange(0, old(ast).nodes@.len() as int) =~= old(ast).nodes@);
        }
        while kids.len() > 0
        invariant
            crate::lexer::tokens_wf(tokes@),
            pn0.wf(),
            pn0.spec_end() <= tokes@.len(),
            pn0.children@ == all_kids,
            pn0.range == range,
            all_kids.len() == total,
            done + kids@.len() == all_kids.len(),
            done <= total,
            kids@ == all_kids.subrange(done as int, all_kids.len() as int),
            kid_ids@.len() == done,
            entries_wf(ast.nodes@),
            ast.nodes@.len() >= old(ast).nodes@.len(),
            ast.nodes@.subrange(0, old(ast).nodes@.len() as int) == old(ast).nodes@,
            ast.source_file == old(ast).source_file,
            text_ranges_from(old(ast).nodes@, tokes@) ==> text_ranges_from(ast.nodes@, tokes@),
            forall|k: int|
                0 <= k < done ==> (#[trigger] kid_ids@[k]) < ast.nodes@.len()
                && corresponds(ast.nodes@, kid_ids@[k] as int, all_kids[k]),
        decreases kids@.len(),
        {
        let child = kids.remove(0);
        proof {
            assert(child == all_kids[done as int]);
            assert(pn0.children@[done as int] == child);
            assert(pn0.children@[done as int].wf());
            assert(pn0.children@[done as int].spec_end() <= pn0.spec_end());
            assert(decreases_to!(pn0 => pn0.children));
            assert(decreases_to!(pn0.children => pn0.children[done as int]));
            assert(decreases_to!(pn0 => child));
        }
        let ghost pre = ast.nodes@;
        let cid = add_subtree(ast, child, tokes);
        proof {
            assert(kids@ =~= all_kids.subrange(done + 1, all_kids.len() as int));
            assert(forall|k: int|
                0 <= k < done ==> corresponds(pre, (#[trigger] kid_ids@[k]) as int, all_kids[k]));
            assert forall|k: int| 0 <= k < done implies corresponds(
                ast.nodes@,
                (#[trigger] kid_ids@[k]) as int,
                all_kids[k],
            ) by {
                assert(ast.nodes@ =~= pre + ast.nodes@.subrange(
                pre.len() as int,
                ast.nodes@.len() as int,
                ));
                lemma_corresponds_extend(
                pre,
                ast.nodes@.subrange(pre.len() as int, ast.nodes@.len() as int),
                kid_ids@[k] as int,
                all_kids[k],
                );
            }
            assert(ast.nodes@.subrange(0, old(ast).nodes@.len() as int) =~= old(ast).nodes@);
        }
        kid_ids.push(cid);
        done = done + 1;
        }
        let first_tok: usize = range.start;
        let text_range = if range.len > 0 {
        let first = tokes[first_tok].location;
        let last = tokes[first_tok + range.len - 1].location;
        TextSpan::new(first.start, last.start + last.len - first.start)
        } else {
        TextSpan::new(0, 0)
        };
        let node = AstNode { kind, token_range: range, text_range };
        let id = ast.nodes.len();
        let ghost pre2 = ast.nodes@;
        ast.nodes.push(AstEntry { node, children: kid_ids });
        proof {
        assert(forall|k: int| 0 <= k < pre2.len() ==> ast.nodes@[k] == (#[trigger] pre2[k]));
        assert(ast.nodes@.subrange(0, old(ast).nodes@.len() as int) =~= old(ast).nodes@);
        assert forall|k: int| 0 <= k < all_kids.len() implies corresponds(
            ast.nodes@,
            (#[trigger] kid_ids@[k]) as int,
            all_kids[k],
        ) by {
            lemma_corresponds_extend(
                pre2,
                ast.nodes@.subrange(pre2.len() as int, ast.nodes@.len() as int),
                kid_ids@[k] as int,
                all_kids[k],
            );
            assert(ast.nodes@ =~= pre2 + ast.nodes@.subrange(
                pre2.len() as int,
                ast.nodes@.len() as int,
            ));
        }
        assert(corresponds(ast.nodes@, id as int, pn0));
        }
    id
}


/// Parses a whole token sequence and builds the mirrored tree. On success
/// the root node is a `Program` whose token range spans exactly all the
/// tokens, and whose children tile that range with no gaps or overlaps.
/// Leftover input after the program is an `Unexpected` error; the only
/// other failures are the parser's fatal ones.
pub fn to_ast<'a>(
    tokes: &[crate::lexer::Token<'a>],
    source_file: crate::sources::SourceFile,
) -> (r: Result<Ast, crate::error::FrontEndError>)
    requires
        crate::lexer::tokens_wf(tokes@),
        tokes@.len() <= usize::MAX,
    ensures
        match r {
            Ok(ast) => {
                &&& ast.wf()
                &&& ast.source_file == source_file
                &&& text_ranges_from(ast.nodes@, tokes@)
                &&& ast.nodes@[ast.nodes@.len() - 1].node.kind is Program
                &&& ast.nodes@[ast.nodes@.len() - 1].node.token_range.start == 0
                &&& ast.nodes@[ast.nodes@.len() - 1].node.token_range.len == tokes@.len()
                &&& root_children_tile(ast)
                &&& full_parse_witness(tokes@)
            },
            Err(e) => {
                ||| (e.spec_is_fatal() && exists|
                    start: crate::span::Span<'a>,
                    s: crate::span::Span<'a>,
                    out: Seq<ParseNode>,
                |
                    start.position == 0 && start.span@ == tokes@
                        && #[trigger] crate::combinator::parse_chain(
                        crate::parsers::parse_atom,
                        start,
                        s,
                        out,
                    ) && #[trigger] call_ensures(
                        crate::parsers::parse_atom,
                        (s,),
                        Result::<(crate::span::Span<'a>, ParseNode), crate::error::FrontEndError>::Err(
                            e,
                        ),
                    ))
                ||| (!e.spec_is_fatal() && e.kind == crate::error::FrontEndErrorKind::SyntaxError(
                    crate::error::SyntaxErrorKind::Unexpected,
                ) && exists|
                    start: crate::span::Span<'a>,
                    rest: crate::span::Span<'a>,
                    node: ParseNode,
                |
                    start.position == 0 && start.span@ == tokes@ && #[trigger] call_ensures(
                        crate::parsers::parse_program,
                        (start,),
                        Ok((rest, node)),
                    ) && rest.span@.len() > 0)
            },
        },
{
    let span = crate::span::Span::from_slice(tokes);
    match crate::parsers::parse_program(span) {
        Err(e) => Err(e),
        Ok((rest, node)) => {
            if !rest.is_empty() {
                let loc = rest.as_slice()[0].location;
                Err(
                    crate::error::FrontEndError::new(
                        crate::error::SyntaxErrorKind::Unexpected,
                        loc,
                    ),
                )
            } else {
                let ghost pn = node;
                let ast = Ast::new(node, tokes, source_file);
                proof {
                    let rooti = ast.nodes@.len() - 1;
                    assert(corresponds(ast.nodes@, rooti, pn));
                    assert forall|k: int|
                        0 <= k < ast.nodes@[rooti].children@.len() implies (#[trigger] ast.nodes@[
                        ast.nodes@[rooti].children@[k] as int
                    ].node.token_range) == pn.children@[k].range by {
                        assert(corresponds(
                            ast.nodes@,
                            ast.nodes@[rooti].children@[k] as int,
                            pn.children@[k],
                        ));
                    }
                }
                Ok(ast)
            }
        },
    }
}

/// Some run of the program parser succeeded on the whole token sequence,
/// consuming all of it.
pub open spec fn full_parse_witness<'a>(tokes: Seq<crate::lexer::Token<'a>>) -> bool {
    exists|start: crate::span::Span<'a>, rest: crate::span::Span<'a>, node: ParseNode|
        start.position == 0 && start.span@ == tokes && #[trigger] call_ensures(
            crate::parsers::parse_program,
            (start,),
            Ok((rest, node)),
        ) && rest.span@.len() == 0
}

/// The children of the root tile the root's token range exactly: the first
/// starts where the root starts, each next one starts where the previous
/// ended, and the last ends where the root ends.
pub open spec fn root_children_tile(ast: Ast) -> bool {
    let rooti = ast.nodes@.len() - 1;
    let root = ast.nodes@[rooti].node;
    let kids = ast.nodes@[rooti].children@;
    &&& (kids.len() == 0 ==> root.token_range.len == 0)
    &&& kids.len() > 0 ==> {
        &&& ast.nodes@[kids[0] as int].node.token_range.start == root.token_range.start
        &&& ast.nodes@[kids[kids.len() - 1] as int].node.token_range.spec_end()
            == root.token_range.spec_end()
        &&& forall|k: int|
            0 < k < kids.len() ==> (#[trigger] ast.nodes@[kids[k] as int].node.token_range).start
                == ast.nodes@[kids[k - 1] as int].node.token_range.spec_end()
    }
}

} // verus!
