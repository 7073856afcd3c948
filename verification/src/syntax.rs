//! The lowering pass: walks the tree, gives scope-creating forms their own
//! scopes, interns binding occurrences, resolves symbol references, and
//! rewrites generically tagged special forms into typed payloads.
//!
//! No tree node is moved or removed except that a lowered `define` drops
//! its name child; instead of synthetic scope markers, the pass computes a
//! node-id-to-scope map in one top-down walk. Any resolution failure aborts
//! the whole lowering with one located error.

use vstd::prelude::*;

use crate::ast::{ApplicationData, Ast, AstNodeId, AstNodeKind, IfData};
use crate::error::{FrontEndError, SyntaxErrorKind};
use crate::symbols::{ScopeId, SymbolResolutionBarrier, SymbolScopeId};
use crate::symboltree::{SymbolError, SymbolTree};

verus! {

broadcast use vstd::std_specs::vec::axiom_spec_len;

/// The value type symbols may later be bound to; lowering itself binds
/// none.
pub type SymValue = i64;

/// No generically tagged form is left: every binding occurrence, symbol
/// reference and `define` has been rewritten to carry its resolved symbol,
/// and every `if` and application to carry its typed payload.
pub open spec fn fully_lowered(nodes: Seq<crate::ast::AstEntry>) -> bool {
    forall|i: int|
        0 <= i < nodes.len() ==> {
            let k = (#[trigger] nodes[i].node.kind);
            &&& !(k is Arg)
            &&& !(k is Symbol)
            &&& !(k is Define)
            &&& !(k is If)
            &&& !(k is Application)
        }
}

/// The name the node at `i` covers in the source text.
pub open spec fn node_name_in(nodes: Seq<crate::ast::AstEntry>, text: Seq<char>, i: int)
    -> Seq<char> {
    let tr = nodes[i].node.text_range;
    text.subrange(tr.start as int, tr.start + tr.len)
}

/// The lowering relation, node by node, between a tree as it stood before
/// a run (`pre`) and after it (`post`), under the scope map, scope tree
/// and source text the run produced: a binding occurrence became a
/// resolved symbol bound in the node's scope; a symbol reference became
/// the symbol the resolution walk finds from the node's scope; a `define`
/// became an assign-symbol node carrying its name child's symbol, that
/// child detached; an `if` and an application carry typed payloads over
/// their old children; every other node keeps its kind and children, and
/// every node keeps its ranges.
pub open spec fn lowered_tree(
    pre: Seq<crate::ast::AstEntry>,
    post: Seq<crate::ast::AstEntry>,
    scope_map: Seq<ScopeId>,
    syms: SymbolTree<SymValue>,
    text: Seq<char>,
) -> bool {
    &&& post.len() == pre.len()
    &&& forall|i: int|
        0 <= i < pre.len() ==> {
            let k = (#[trigger] pre[i].node.kind);
            let kids = pre[i].children@;
            &&& post[i].node.token_range == pre[i].node.token_range
            &&& post[i].node.text_range == pre[i].node.text_range
            &&& (k is Arg ==> (post[i].node.kind matches AstNodeKind::ResolvedSymbol(sid)
                && sid.scope_id == scope_map[i] && syms.binds(
                sid,
                node_name_in(post, text, i),
            )) && post[i].children@ == kids)
            &&& (k is Symbol ==> (exists|sid: SymbolScopeId|
                (#[trigger] post[i].node.kind) == AstNodeKind::ResolvedSymbol(sid)
                    && syms.resolve_spec(
                    node_name_in(post, text, i),
                    scope_map[i] as int,
                    SymbolResolutionBarrier::Global,
                ) == Some(sid)) && post[i].children@ == kids)
            &&& (k is Define ==> kids.len() >= 1 && (post[i].node.kind matches
                AstNodeKind::AssignSymbol(sid) && post[kids[0] as int].node.kind
                == AstNodeKind::ResolvedSymbol(sid)) && post[i].children@ == kids.subrange(
                1,
                kids.len() as int,
            ))
            &&& (k is If ==> 2 <= kids.len() <= 3 && (post[i].node.kind matches
                AstNodeKind::IfExpr(d) && d.id == i && d.predicate == kids[0] && d.if_true
                == kids[1] && (if kids.len() == 3 {
                d.if_false == Some(kids[2])
            } else {
                d.if_false is None
            })) && post[i].children@ == kids)
            &&& (k is Application ==> kids.len() >= 1 && (post[i].node.kind matches
                AstNodeKind::ApplicationExpr(d) && d.id == i && d.func == kids[0] && d.args@
                == kids.subrange(1, kids.len() as int)) && post[i].children@ == kids)
            &&& (!(k is Arg) && !(k is Symbol) && !(k is Define) && !(k is If) && !(k
                is Application) ==> post[i].node.kind == k && post[i].children@ == kids)
        }
}


/// Every node keeps its token and text ranges across a lowering run, and a
/// node the run does not rewrite structurally keeps its children.
pub proof fn lemma_lowered_keeps_ranges(
    pre: Seq<crate::ast::AstEntry>,
    post: Seq<crate::ast::AstEntry>,
    scope_map: Seq<ScopeId>,
    syms: SymbolTree<SymValue>,
    text: Seq<char>,
    i: int,
)
    requires
        lowered_tree(pre, post, scope_map, syms, text),
        0 <= i < pre.len(),
    ensures
        post[i].node.token_range == pre[i].node.token_range,
        post[i].node.text_range == pre[i].node.text_range,
        pre[i].node.kind is Program ==> post[i].node.kind is Program && post[i].children@
            == pre[i].children@,
{
    assert(pre[i].node.kind is Program || !(pre[i].node.kind is Program));
}

/// The evidence a failed lowering run leaves in its final state: a
/// duplicate binding really is bound twice over, an undefined reference
/// really does not resolve from its scope, a name's text range really
/// overruns the source, or a special form really has the wrong shape.
pub open spec fn lowering_error_witness(low: AstLowerer, e: FrontEndError) -> bool {
    let nodes = low.ast.nodes@;
    ||| (e.kind matches crate::error::FrontEndErrorKind::SyntaxError(k) && (k matches
        SyntaxErrorKind::DuplicateSymbol(nm) && exists|i: int|
        0 <= i < nodes.len() && (#[trigger] nodes[i].node.kind) is Arg && low.spec_node_name(i)
            == nm@ && low.syms.spec_bound(low.id_to_scope@[i] as int, nm@)))
    ||| (e.kind matches crate::error::FrontEndErrorKind::SyntaxError(k) && (k matches
        SyntaxErrorKind::UndefinedSymbol(nm) && exists|i: int|
        0 <= i < nodes.len() && (#[trigger] nodes[i].node.kind) is Symbol && low.spec_node_name(
            i,
        ) == nm@ && low.syms.resolve_spec(
            nm@,
            low.id_to_scope@[i] as int,
            SymbolResolutionBarrier::Global,
        ) is None))
    ||| (e.kind == crate::error::FrontEndErrorKind::SyntaxError(SyntaxErrorKind::Unexpected)
        && exists|i: int|
        0 <= i < nodes.len() && ((#[trigger] nodes[i].node.kind) is Arg || nodes[i].node.kind
            is Symbol) && nodes[i].node.text_range.start + nodes[i].node.text_range.len
            > low.ast.source_file.text@.len())
    ||| (e.kind == crate::error::FrontEndErrorKind::SyntaxError(SyntaxErrorKind::Unexpected)
        && exists|i: int|
        0 <= i < nodes.len() && (#[trigger] nodes[i].node.kind) is Define && nodes[
            i
        ].children@.len() >= 1 && !(nodes[nodes[i].children@[0] as int].node.kind matches
        AstNodeKind::ResolvedSymbol(_)))
    ||| (e.kind == crate::error::FrontEndErrorKind::SyntaxError(SyntaxErrorKind::NotEnoughArgs)
        && exists|i: int|
        0 <= i < nodes.len() && (#[trigger] nodes[i].node.kind) is Define && nodes[
            i
        ].children@.len() == 0)
    ||| (e.kind == crate::error::FrontEndErrorKind::SyntaxError(SyntaxErrorKind::NotEnoughIf)
        && exists|i: int|
        0 <= i < nodes.len() && (#[trigger] nodes[i].node.kind) is If && nodes[
            i
        ].children@.len() < 2)
    ||| (e.kind == crate::error::FrontEndErrorKind::SyntaxError(SyntaxErrorKind::TooManyIf)
        && exists|i: int|
        0 <= i < nodes.len() && (#[trigger] nodes[i].node.kind) is If && nodes[
            i
        ].children@.len() > 3)
    ||| (e.kind == crate::error::FrontEndErrorKind::SyntaxError(
        SyntaxErrorKind::IllegalApplication,
    ) && exists|i: int|
        0 <= i < nodes.len() && (#[trigger] nodes[i].node.kind) is Application && nodes[
            i
        ].children@.len() == 0)
}

/// Carries the state of one lowering run: the scope tree being built, the
/// tree being rewritten, and the map from node id to the scope the node
/// lives in.
pub struct AstLowerer {
    pub syms: SymbolTree<SymValue>,
    pub ast: Ast,
    pub id_to_scope: Vec<ScopeId>,
    pub parents: Vec<AstNodeId>,
}

impl AstLowerer {
    /// The lowerer's pieces agree: the tree is well-formed, the scope tree
    /// is well-formed, and the maps cover every node with valid targets.
    pub open spec fn wf(&self) -> bool {
        &&& self.ast.wf()
        &&& self.syms.wf()
        &&& self.id_to_scope@.len() == self.ast.nodes@.len()
        &&& self.parents@.len() == self.ast.nodes@.len()
        &&& forall|i: int|
            0 <= i < self.id_to_scope@.len() ==> (#[trigger] self.id_to_scope@[i])
                < self.syms.scopes@.len()
    }

    /// A fresh lowerer around a tree: an empty scope tree and, so far,
    /// empty maps.
    pub fn new(ast: Ast) -> (r: Self)
        requires
            ast.wf(),
        ensures
            r.ast == ast,
            r.syms.wf(),
            r.syms.scopes@.len() == 1,
            r.id_to_scope@.len() == 0,
    {
        AstLowerer {
            syms: SymbolTree::new(),
            ast,
            id_to_scope: Vec::new(),
            parents: Vec::new(),
        }
    }

    /// The whole lowering relation for this lowerer: its final tree arose
    /// from `pre` by the node-for-node rewriting below.
    pub open spec fn lowers_from(&self, pre: Seq<crate::ast::AstEntry>) -> bool {
        lowered_tree(
            pre,
            self.ast.nodes@,
            self.id_to_scope@,
            self.syms,
            self.ast.source_file.text@,
        )
    }

    /// Runs the ordered passes: scope assignment, binding interning,
    /// reference interning, `define` lowering, special-form structuring.
    /// The first failure aborts the run with its located error.
    #[verifier::rlimit(100)]
    pub fn lower(&mut self) -> (r: Result<(), FrontEndError>)
        requires
            old(self).ast.wf(),
            old(self).syms.wf(),
            old(self).syms.scopes@.len() + old(self).ast.nodes@.len() < usize::MAX,
            old(self).id_to_scope@.len() == 0,
        ensures
            r is Ok ==> final(self).wf() && fully_lowered(final(self).ast.nodes@),
            r is Ok ==> final(self).lowers_from(old(self).ast.nodes@),
            r is Ok ==> final(self).scope_links() && final(self).ast.source_file == old(
                self,
            ).ast.source_file,
            r matches Err(e) ==> !e.spec_is_fatal() && lowering_error_witness(*final(self), e),
    {
        self.add_scopes();
        let ghost k0 = self.ast.nodes@;
        match self.intern_symbol_assignments() {
            Ok(()) => {},
            Err(e) => {
                return Err(e);
            },
        }
        let ghost k1 = self.ast.nodes@;
        match self.intern_refs() {
            Ok(()) => {},
            Err(e) => {
                return Err(e);
            },
        }
        let ghost k2 = self.ast.nodes@;
        match self.lower_defines() {
            Ok(()) => {},
            Err(e) => {
                return Err(e);
            },
        }
        let ghost k3 = self.ast.nodes@;
        match self.process_special_forms() {
            Ok(()) => {},
            Err(e) => {
                return Err(e);
            },
        }
        proof {
            assert forall|i: int| 0 <= i < self.ast.nodes@.len() implies {
                let k = (#[trigger] self.ast.nodes@[i].node.kind);
                &&& !(k is Arg)
                &&& !(k is Symbol)
                &&& !(k is Define)
                &&& !(k is If)
                &&& !(k is Application)
            } by {
                assert(k1[i].node.kind == if k0[i].node.kind is Arg {
                    k1[i].node.kind
                } else {
                    k0[i].node.kind
                });
            }
            assert forall|i: int| 0 <= i < k0.len() implies {
                let k = (#[trigger] k0[i].node.kind);
                let kids = k0[i].children@;
                let post = self.ast.nodes@;
                &&& post[i].node.token_range == k0[i].node.token_range
                &&& post[i].node.text_range == k0[i].node.text_range
                &&& (k is Arg ==> (post[i].node.kind matches AstNodeKind::ResolvedSymbol(sid)
                    && sid.scope_id == self.id_to_scope@[i] && self.syms.binds(
                    sid,
                    node_name_in(self.ast.nodes@, self.ast.source_file.text@, i),
                )) && post[i].children@ == kids)
                &&& (k is Symbol ==> (exists|sid: SymbolScopeId|
                    (#[trigger] self.ast.nodes@[i].node.kind) == AstNodeKind::ResolvedSymbol(sid)
                        && self.syms.resolve_spec(
                        node_name_in(self.ast.nodes@, self.ast.source_file.text@, i),
                        self.id_to_scope@[i] as int,
                        SymbolResolutionBarrier::Global,
                    ) == Some(sid)) && post[i].children@ == kids)
                &&& (k is Define ==> kids.len() >= 1 && (post[i].node.kind matches
                    AstNodeKind::AssignSymbol(sid) && post[kids[0] as int].node.kind
                    == AstNodeKind::ResolvedSymbol(sid)) && post[i].children@ == kids.subrange(
                    1,
                    kids.len() as int,
                ))
                &&& (k is If ==> 2 <= kids.len() <= 3 && (post[i].node.kind matches
                    AstNodeKind::IfExpr(d) && d.id == i && d.predicate == kids[0] && d.if_true
                    == kids[1] && (if kids.len() == 3 {
                    d.if_false == Some(kids[2])
                } else {
                    d.if_false is None
                })) && post[i].children@ == kids)
                &&& (k is Application ==> kids.len() >= 1 && (post[i].node.kind matches
                    AstNodeKind::ApplicationExpr(d) && d.id == i && d.func == kids[0] && d.args@
                    == kids.subrange(1, kids.len() as int)) && post[i].children@ == kids)
                &&& (!(k is Arg) && !(k is Symbol) && !(k is Define) && !(k is If) && !(k
                    is Application) ==> post[i].node.kind == k && post[i].children@ == kids)
            } by {
                let k = k0[i].node.kind;
                let post = self.ast.nodes@;
                assert(k1[i].node.token_range == k0[i].node.token_range);
                assert(k2[i].node.token_range == k1[i].node.token_range);
                assert(k3[i].node.token_range == k2[i].node.token_range);
                assert(post[i].node.token_range == k3[i].node.token_range);
                if k is Arg {
                    assert(post[i].node.text_range == k0[i].node.text_range);
                    assert(k1[i].node.kind matches AstNodeKind::ResolvedSymbol(sid)
                        && sid.scope_id == self.id_to_scope@[i] && self.syms.binds(
                        sid,
                        node_name_in(self.ast.nodes@, self.ast.source_file.text@, i),
                    ));
                    assert(k2[i].node.kind == k1[i].node.kind);
                    assert(k3[i].node.kind == k2[i].node.kind);
                    assert(post[i].node.kind == k3[i].node.kind);
                    assert(post[i].children@ == k0[i].children@);
                } else if k is Symbol {
                    assert(post[i].node.text_range == k0[i].node.text_range);
                    assert(k1[i].node.kind == k);
                    assert(k2[i].node.kind matches AstNodeKind::ResolvedSymbol(sid)
                        && self.syms.resolve_spec(
                        node_name_in(self.ast.nodes@, self.ast.source_file.text@, i),
                        self.id_to_scope@[i] as int,
                        SymbolResolutionBarrier::Global,
                    ) == Some(sid));
                    assert(k3[i].node.kind == k2[i].node.kind);
                    assert(post[i].node.kind == k3[i].node.kind);
                    assert(post[i].children@ == k0[i].children@);
                } else if k is Define {
                    assert(k1[i].node.kind == k);
                    assert(k2[i].node.kind == k);
                    assert(k2[i].children@ == k0[i].children@);
                    assert(k0[i].children@.len() >= 1);
                    let c = k0[i].children@[0] as int;
                    assert(k3[i].node.kind matches AstNodeKind::AssignSymbol(sid) && k2[
                        c
                    ].node.kind == AstNodeKind::ResolvedSymbol(sid));
                    assert(k3[c].node.kind == k2[c].node.kind);
                    assert(post[c].node.kind == k3[c].node.kind);
                    assert(post[i].node.kind == k3[i].node.kind);
                    assert(post[i].children@ == k3[i].children@);
                } else if k is If {
                    assert(k1[i].node.kind == k);
                    assert(k2[i].node.kind == k);
                    assert(k3[i].node.kind == k);
                    assert(k3[i].children@ == k0[i].children@);
                    assert(post[i].children@ == k3[i].children@);
                } else if k is Application {
                    assert(k1[i].node.kind == k);
                    assert(k2[i].node.kind == k);
                    assert(k3[i].node.kind == k);
                    assert(k3[i].children@ == k0[i].children@);
                    assert(post[i].children@ == k3[i].children@);
                } else {
                    assert(k1[i].node.kind == k);
                    assert(k2[i].node.kind == k);
                    assert(k3[i].node.kind == k);
                    assert(post[i].node.kind == k3[i].node.kind);
                    assert(post[i].children@ == k0[i].children@);
                }
            }
            assert(self.lowers_from(k0));
        }
        Ok(())
    }

    /// `p` is recorded as a parent of `c` in the tree.
    pub open spec fn is_parent_of(&self, p: int, c: int) -> bool {
        exists|j: int|
            0 <= j < self.ast.nodes@[p].children@.len() && (#[trigger] self.ast.nodes@[
                p
            ].children@[j]) == c
    }

    /// The parents map points each node at a real parent, or at itself
    /// when it has none.
    pub open spec fn parents_recorded(&self) -> bool {
        let n = self.ast.nodes@.len();
        forall|c: int|
            0 <= c < n ==> ((#[trigger] self.parents@[c]) == c || (self.parents@[c] < n
                && self.is_parent_of(self.parents@[c] as int, c)))
    }

    /// Each node's scope follows its recorded parent's: a scope-creating
    /// form lives in a fresh scope whose parent scope is its parent node's
    /// scope, every other node shares its parent node's scope, and the
    /// root starts from the root scope.
    pub open spec fn scope_links(&self) -> bool {
        let n = self.ast.nodes@.len();
        forall|x: int|
            0 <= x < n && (x == n - 1 || self.parents@[x] != x) ==> {
                let base = if x == n - 1 {
                    0
                } else {
                    self.id_to_scope@[self.parents@[x] as int] as int
                };
                if (#[trigger] self.ast.nodes@[x].node.kind).spec_creates_new_scope() {
                    self.syms.scopes@[self.id_to_scope@[x] as int].parent == Some(base as ScopeId)
                } else {
                    self.id_to_scope@[x] == base
                }
            }
    }

    /// What the scope walk owes: both halves together.
    pub open spec fn scopes_assigned(&self) -> bool {
        self.parents_recorded() && self.scope_links()
    }

    /// One top-down walk assigning each node its scope: a scope-creating
    /// form gets a fresh scope under its parent's, every other node shares
    /// its parent's scope. No tree mutation, no synthetic nodes.
    fn add_scopes(&mut self)
        requires
            old(self).ast.wf(),
            old(self).syms.wf(),
            old(self).syms.scopes@.len() + old(self).ast.nodes@.len() < usize::MAX,
        ensures
            final(self).wf(),
            final(self).ast == old(self).ast,
            final(self).scopes_assigned(),
    {
        let n = self.ast.nodes.len();
        let mut parents: Vec<AstNodeId> = Vec::new();
        let mut k: usize = 0;
        while k < n
            invariant
                parents@.len() == k,
                k <= n,
                forall|x: int| 0 <= x < k ==> (#[trigger] parents@[x]) == x,
            decreases n - k,
        {
            parents.push(k);
            k = k + 1;
        }
        let mut i: usize = 0;
        while i < n
            invariant
                self.ast == old(self).ast,
                self.ast.wf(),
                n == self.ast.nodes@.len(),
                i <= n,
                parents@.len() == n,
                forall|c: int|
                    0 <= c < n ==> ((#[trigger] parents@[c]) == c || (parents@[c] < n && exists|
                        j: int,
                    |
                        0 <= j < self.ast.nodes@[parents@[c] as int].children@.len() && (
                        #[trigger] self.ast.nodes@[parents@[c] as int].children@[j]) == c)),
                forall|x: int, j: int|
                    0 <= x < i && 0 <= j < self.ast.nodes@[x].children@.len() ==> parents@[(
                    #[trigger] self.ast.nodes@[x].children@[j]) as int] != self.ast.nodes@[
                        x
                    ].children@[j],
            decreases n - i,
        {
            let kids_len = match self.ast.get_children(i) {
                Some(kids) => kids.len(),
                None => 0,
            };
            let mut j: usize = 0;
            while j < kids_len
                invariant
                    self.ast == old(self).ast,
                    self.ast.wf(),
                    n == self.ast.nodes@.len(),
                    i < n,
                    kids_len == self.ast.nodes@[i as int].children@.len(),
                    j <= kids_len,
                    parents@.len() == n,
                    forall|c: int|
                        0 <= c < n ==> ((#[trigger] parents@[c]) == c || (parents@[c] < n
                            && exists|jj: int|
                            0 <= jj < self.ast.nodes@[parents@[c] as int].children@.len() && (
                            #[trigger] self.ast.nodes@[parents@[c] as int].children@[jj]) == c)),
                    forall|x: int, jj: int|
                        0 <= x < i && 0 <= jj < self.ast.nodes@[x].children@.len() ==> parents@[(
                        #[trigger] self.ast.nodes@[x].children@[jj]) as int] != self.ast.nodes@[
                            x
                        ].children@[jj],
                    forall|jj: int|
                        0 <= jj < j ==> parents@[(#[trigger] self.ast.nodes@[
                            i as int
                        ].children@[jj]) as int] != self.ast.nodes@[i as int].children@[jj],
                decreases kids_len - j,
            {
                let c = self.ast.nodes[i].children[j];
                let slot = &mut parents[c];
                *slot = i;
                proof {
                    assert(self.ast.nodes@[i as int].children@[j as int] == c);
                    assert(c < i);
                }
                j = j + 1;
            }
            i = i + 1;
        }
        proof {
            assert forall|c: int| 0 <= c < n implies (parents@[c] == c || c < parents@[c] < n) by {
                if parents@[c] != c {
                    let j = choose|j: int|
                        0 <= j < self.ast.nodes@[parents@[c] as int].children@.len() && (
                        #[trigger] self.ast.nodes@[parents@[c] as int].children@[j]) == c;
                    assert(self.ast.nodes@[parents@[c] as int].children@[j] < parents@[c]);
                }
            }
        }
        let mut id_to_scope: Vec<ScopeId> = Vec::new();
        let mut k2: usize = 0;
        while k2 < n
            invariant
                id_to_scope@.len() == k2,
                k2 <= n,
                forall|x: int| 0 <= x < k2 ==> (#[trigger] id_to_scope@[x]) == 0,
            decreases n - k2,
        {
            id_to_scope.push(0);
            k2 = k2 + 1;
        }
        let mut i2: usize = n;
        while i2 > 0
            invariant
                self.ast == old(self).ast,
                self.ast.wf(),
                self.syms.wf(),
                n == self.ast.nodes@.len(),
                i2 <= n,
                parents@.len() == n,
                id_to_scope@.len() == n,
                forall|x: int| 0 <= x < n ==> ((#[trigger] parents@[x]) == x || x < parents@[x] < n),
                forall|x: int|
                    0 <= x < n ==> (#[trigger] id_to_scope@[x]) < self.syms.scopes@.len(),
                self.syms.scopes@.len() + i2 <= usize::MAX,
                forall|x: int|
                    i2 <= x < n && (x == n - 1 || parents@[x] != x) ==> {
                        let base = if x == n - 1 {
                            0
                        } else {
                            id_to_scope@[parents@[x] as int] as int
                        };
                        if (#[trigger] self.ast.nodes@[x].node.kind).spec_creates_new_scope() {
                            self.syms.scopes@[id_to_scope@[x] as int].parent == Some(
                                base as ScopeId,
                            )
                        } else {
                            id_to_scope@[x] == base
                        }
                    },
            decreases i2,
        {
            i2 = i2 - 1;
            let base: ScopeId = if i2 == n - 1 {
                0
            } else {
                id_to_scope[parents[i2]]
            };
            let creates = match self.ast.get_node(i2) {
                Some(node) => node.kind.creates_new_scope(),
                None => false,
            };
            let ghost pre = self.syms;
            let ghost pre_map = id_to_scope@;
            if creates {
                let s = self.syms.insert_new_table("scope", base, SymbolResolutionBarrier::Global);
                let slot = &mut id_to_scope[i2];
                *slot = s;
            } else {
                let slot = &mut id_to_scope[i2];
                *slot = base;
            }
            proof {
                assert(forall|x: int|
                    0 <= x < n && x != i2 ==> (#[trigger] id_to_scope@[x]) == pre_map[x]);
                assert forall|x: int|
                    i2 <= x < n && (x == n - 1 || parents@[x] != x) implies {
                    let b2 = if x == n - 1 {
                        0
                    } else {
                        id_to_scope@[parents@[x] as int] as int
                    };
                    if (#[trigger] self.ast.nodes@[x].node.kind).spec_creates_new_scope() {
                        self.syms.scopes@[id_to_scope@[x] as int].parent == Some(b2 as ScopeId)
                    } else {
                        id_to_scope@[x] == b2
                    }
                } by {
                    if x > i2 {
                        assert(parents@[x] == x || parents@[x] > x);
                        assert(x != n - 1 ==> parents@[x] != i2);
                    }
                }
            }
        }
        self.parents = parents;
        self.id_to_scope = id_to_scope;
    }

    /// The scope a node lives in, once the scope walk has run.
    pub fn get_scope_for_node(&self, id: AstNodeId) -> (r: Option<ScopeId>)
        ensures
            match r {
                Some(s) => id < self.id_to_scope@.len() && s == self.id_to_scope@[id as int],
                None => id >= self.id_to_scope@.len(),
            },
    {
        let n = self.id_to_scope.len();
        if id < n {
            Some(self.id_to_scope[id])
        } else {
            None
        }
    }

    /// The tree's shape is unchanged between two lowerer states: same
    /// arena length, and every node keeps its ranges; only kind tags and,
    /// for lowered defines, children lists may differ.
    pub open spec fn same_shape(pre: Seq<crate::ast::AstEntry>, post: Seq<crate::ast::AstEntry>)
        -> bool {
        &&& post.len() == pre.len()
        &&& forall|i: int|
            0 <= i < pre.len() ==> (#[trigger] post[i].node.token_range) == pre[i].node.token_range
                && post[i].node.text_range == pre[i].node.text_range
    }

    /// The name a node's text range covers.
    pub open spec fn spec_node_name(&self, i: int) -> Seq<char> {
        let tr = self.ast.nodes@[i].node.text_range;
        self.ast.source_file.text@.subrange(tr.start as int, tr.start + tr.len)
    }

    /// Rewrites every binding occurrence (a node tagged `Arg`) in place to
    /// a resolved-symbol node, interning its name in the scope the node
    /// lives in. A name bound twice in one scope aborts with a located
    /// `DuplicateSymbol` error.
    #[verifier::spinoff_prover]
    #[verifier::rlimit(50)]
    fn intern_symbol_assignments(&mut self) -> (r: Result<(), FrontEndError>)
        requires
            old(self).wf(),
        ensures
            final(self).ast.source_file == old(self).ast.source_file,
            final(self).id_to_scope@ == old(self).id_to_scope@,
            final(self).parents@ == old(self).parents@,
            r matches Err(e) ==> !e.spec_is_fatal() && {
                ||| (e.kind matches crate::error::FrontEndErrorKind::SyntaxError(k) && (k matches
                    SyntaxErrorKind::DuplicateSymbol(nm) && exists|i: int|
                    0 <= i < final(self).ast.nodes@.len() && (#[trigger] final(self).ast.nodes@[
                        i
                    ].node.kind) is Arg && final(self).spec_node_name(i) == nm@ && final(self).syms.spec_bound(final(self).id_to_scope@[i] as int, nm@)))
                ||| (e.kind == crate::error::FrontEndErrorKind::SyntaxError(
                    SyntaxErrorKind::Unexpected,
                ) && exists|i: int|
                    0 <= i < final(self).ast.nodes@.len() && (#[trigger] final(self).ast.nodes@[
                        i
                    ].node.kind) is Arg && final(self).ast.nodes@[i].node.text_range.start
                        + final(self).ast.nodes@[i].node.text_range.len > final(self).ast.source_file.text@.len())
            },
            r is Ok ==> final(self).syms.scopes@.len() == old(self).syms.scopes@.len()
                && forall|sc: int|
                0 <= sc < old(self).syms.scopes@.len()
                    ==> (#[trigger] final(self).syms.scopes@[sc].parent)
                    == old(self).syms.scopes@[sc].parent
                    && final(self).syms.scopes@[sc].children@
                    == old(self).syms.scopes@[sc].children@
                    && final(self).syms.scopes@[sc].table.barrier
                    == old(self).syms.scopes@[sc].table.barrier
                    && final(self).syms.scopes@[sc].table.scope_name
                    == old(self).syms.scopes@[sc].table.scope_name,
            r is Ok ==> final(self).wf(),
            r is Ok ==> Self::same_shape(old(self).ast.nodes@, final(self).ast.nodes@),
            r is Ok ==> forall|i: int|
                0 <= i < old(self).ast.nodes@.len() ==> (#[trigger] final(self).ast.nodes@[
                    i
                ].children@) == old(self).ast.nodes@[i].children@,
            r is Ok ==> forall|i: int|
                0 <= i < old(self).ast.nodes@.len() ==> {
                    if old(self).ast.nodes@[i].node.kind is Arg {
                        (#[trigger] final(self).ast.nodes@[i].node.kind) matches
                            AstNodeKind::ResolvedSymbol(sid) && sid.scope_id == old(
                            self,
                        ).id_to_scope@[i] && final(self).syms.binds(
                            sid,
                            old(self).spec_node_name(i),
                        )
                    } else {
                        final(self).ast.nodes@[i].node.kind == old(self).ast.nodes@[i].node.kind
                    }
                },
    {
        let n = self.ast.nodes.len();
        let mut i: usize = 0;
        while i < n
            invariant
                self.wf(),
                n == self.ast.nodes@.len(),
                i <= n,
                self.ast.source_file == old(self).ast.source_file,
                self.id_to_scope@ == old(self).id_to_scope@,
                self.parents@ == old(self).parents@,
                Self::same_shape(old(self).ast.nodes@, self.ast.nodes@),
                self.syms.scopes@.len() == old(self).syms.scopes@.len(),
                forall|sc: int|
                    0 <= sc < old(self).syms.scopes@.len() ==> (#[trigger] self.syms.scopes@[
                        sc
                    ].parent) == old(self).syms.scopes@[sc].parent && self.syms.scopes@[
                        sc
                    ].children@ == old(self).syms.scopes@[sc].children@ && self.syms.scopes@[
                        sc
                    ].table.barrier == old(self).syms.scopes@[sc].table.barrier
                        && self.syms.scopes@[sc].table.scope_name == old(self).syms.scopes@[
                        sc
                    ].table.scope_name,
                forall|x: int|
                    0 <= x < n ==> (#[trigger] self.ast.nodes@[x].children@) == old(
                        self,
                    ).ast.nodes@[x].children@,
                forall|x: int|
                    i <= x < n ==> (#[trigger] self.ast.nodes@[x].node.kind) == old(
                        self,
                    ).ast.nodes@[x].node.kind,
                forall|x: int|
                    0 <= x < i ==> {
                        if old(self).ast.nodes@[x].node.kind is Arg {
                            (#[trigger] self.ast.nodes@[x].node.kind) matches
                                AstNodeKind::ResolvedSymbol(sid) && sid.scope_id == old(
                                self,
                            ).id_to_scope@[x] && self.syms.binds(
                                sid,
                                old(self).spec_node_name(x),
                            )
                        } else {
                            self.ast.nodes@[x].node.kind == old(self).ast.nodes@[x].node.kind
                        }
                    },
            decreases n - i,
        {
            let is_arg = matches!(self.ast.nodes[i].node.kind, AstNodeKind::Arg);
            if is_arg {
                let tr = self.ast.nodes[i].node.text_range;
                let name: String = match self.ast.source_file.get_text(tr.start, tr.len) {
                    Some(t) => t.to_owned(),
                    None => {
                        return Err(FrontEndError::new(SyntaxErrorKind::Unexpected, tr));
                    },
                };
                let scope = self.id_to_scope[i];
                match self.syms.create_symbol_in_scope(scope, name.as_str()) {
                    Ok(sid) => {
                        self.ast.change_node_kind(i, AstNodeKind::ResolvedSymbol(sid));
                    },
                    Err(e) => {
                        proof {
                            assert(e != SymbolError::InvalidScope);
                        }
                        return Err(
                            FrontEndError::new(SyntaxErrorKind::DuplicateSymbol(name), tr),
                        );
                    },
                }
            }
            i = i + 1;
        }
        Ok(())
    }

    /// Rewrites every unresolved symbol reference in place to a
    /// resolved-symbol node, resolving its name from the scope the node
    /// lives in with a global-crossing barrier. A name that does not
    /// resolve aborts with a located `UndefinedSymbol` error.
    #[verifier::spinoff_prover]
    #[verifier::rlimit(50)]
    fn intern_refs(&mut self) -> (r: Result<(), FrontEndError>)
        requires
            old(self).wf(),
        ensures
            final(self).syms == old(self).syms,
            final(self).ast.source_file == old(self).ast.source_file,
            final(self).id_to_scope@ == old(self).id_to_scope@,
            final(self).parents@ == old(self).parents@,
            r matches Err(e) ==> !e.spec_is_fatal() && {
                ||| (e.kind matches crate::error::FrontEndErrorKind::SyntaxError(k) && (k matches
                    SyntaxErrorKind::UndefinedSymbol(nm) && exists|i: int|
                    0 <= i < final(self).ast.nodes@.len() && (#[trigger] final(self).ast.nodes@[
                        i
                    ].node.kind) is Symbol && final(self).spec_node_name(i) == nm@ && final(self).syms.resolve_spec(
                        nm@,
                        final(self).id_to_scope@[i] as int,
                        SymbolResolutionBarrier::Global,
                    ) is None))
                ||| (e.kind == crate::error::FrontEndErrorKind::SyntaxError(
                    SyntaxErrorKind::Unexpected,
                ) && exists|i: int|
                    0 <= i < final(self).ast.nodes@.len() && (#[trigger] final(self).ast.nodes@[
                        i
                    ].node.kind) is Symbol && final(self).ast.nodes@[i].node.text_range.start
                        + final(self).ast.nodes@[i].node.text_range.len > final(self).ast.source_file.text@.len())
            },
            r is Ok ==> final(self).wf(),
            r is Ok ==> Self::same_shape(old(self).ast.nodes@, final(self).ast.nodes@),
            r is Ok ==> forall|i: int|
                0 <= i < old(self).ast.nodes@.len() ==> (#[trigger] final(self).ast.nodes@[
                    i
                ].children@) == old(self).ast.nodes@[i].children@,
            r is Ok ==> forall|i: int|
                0 <= i < old(self).ast.nodes@.len() ==> {
                    if old(self).ast.nodes@[i].node.kind is Symbol {
                        exists|sid: SymbolScopeId|
                            (#[trigger] final(self).ast.nodes@[i].node.kind)
                                == AstNodeKind::ResolvedSymbol(sid) && old(self).syms.resolve_spec(
                                old(self).spec_node_name(i),
                                old(self).id_to_scope@[i] as int,
                                SymbolResolutionBarrier::Global,
                            ) == Some(sid)
                    } else {
                        final(self).ast.nodes@[i].node.kind == old(self).ast.nodes@[i].node.kind
                    }
                },
    {
        let n = self.ast.nodes.len();
        let mut i: usize = 0;
        while i < n
            invariant
                self.wf(),
                n == self.ast.nodes@.len(),
                i <= n,
                self.syms == old(self).syms,
                self.ast.source_file == old(self).ast.source_file,
                self.id_to_scope@ == old(self).id_to_scope@,
                self.parents@ == old(self).parents@,
                Self::same_shape(old(self).ast.nodes@, self.ast.nodes@),
                forall|x: int|
                    0 <= x < n ==> (#[trigger] self.ast.nodes@[x].children@) == old(
                        self,
                    ).ast.nodes@[x].children@,
                forall|x: int|
                    i <= x < n ==> (#[trigger] self.ast.nodes@[x].node.kind) == old(
                        self,
                    ).ast.nodes@[x].node.kind,
                forall|x: int|
                    0 <= x < i ==> {
                        if old(self).ast.nodes@[x].node.kind is Symbol {
                            exists|sid: SymbolScopeId|
                                (#[trigger] self.ast.nodes@[x].node.kind)
                                    == AstNodeKind::ResolvedSymbol(sid) && old(
                                    self,
                                ).syms.resolve_spec(
                                    old(self).spec_node_name(x),
                                    old(self).id_to_scope@[x] as int,
                                    SymbolResolutionBarrier::Global,
                                ) == Some(sid)
                        } else {
                            self.ast.nodes@[x].node.kind == old(self).ast.nodes@[x].node.kind
                        }
                    },
            decreases n - i,
        {
            let is_sym = matches!(self.ast.nodes[i].node.kind, AstNodeKind::Symbol);
            if is_sym {
                let tr = self.ast.nodes[i].node.text_range;
                let name: String = match self.ast.source_file.get_text(tr.start, tr.len) {
                    Some(t) => t.to_owned(),
                    None => {
                        return Err(FrontEndError::new(SyntaxErrorKind::Unexpected, tr));
                    },
                };
                let scope = self.id_to_scope[i];
                match self.syms.resolve_label(
                    name.as_str(),
                    scope,
                    SymbolResolutionBarrier::Global,
                ) {
                    Ok(sid) => {
                        let ghost pre_nodes = self.ast.nodes@;
                        self.ast.change_node_kind(i, AstNodeKind::ResolvedSymbol(sid));
                        proof {
                            assert forall|x: int| 0 <= x < n implies (#[trigger] self.ast.nodes@[
                                x
                            ].node.token_range) == pre_nodes[x].node.token_range
                                && self.ast.nodes@[x].node.text_range
                                == pre_nodes[x].node.text_range by {
                                if x != i {
                                    assert(self.ast.nodes@[x] == pre_nodes[x]);
                                }
                            }
                        }
                    },
                    Err(_) => {
                        return Err(
                            FrontEndError::new(SyntaxErrorKind::UndefinedSymbol(name), tr),
                        );
                    },
                }
            }
            i = i + 1;
        }
        Ok(())
    }

    /// Rewrites each `define` to an assign-symbol node carrying the symbol
    /// its interned name child resolved to, and detaches that child: what
    /// remains under the node is the bound value alone.
    #[verifier::spinoff_prover]
    #[verifier::rlimit(50)]
    fn lower_defines(&mut self) -> (r: Result<(), FrontEndError>)
        requires
            old(self).wf(),
        ensures
            final(self).syms == old(self).syms,
            final(self).ast.source_file == old(self).ast.source_file,
            final(self).id_to_scope@ == old(self).id_to_scope@,
            final(self).parents@ == old(self).parents@,
            r matches Err(e) ==> !e.spec_is_fatal() && {
                ||| (e.kind == crate::error::FrontEndErrorKind::SyntaxError(
                    SyntaxErrorKind::NotEnoughArgs,
                ) && exists|i: int|
                    0 <= i < final(self).ast.nodes@.len() && (#[trigger] final(self).ast.nodes@[
                        i
                    ].node.kind) is Define && final(self).ast.nodes@[i].children@.len() == 0)
                ||| (e.kind == crate::error::FrontEndErrorKind::SyntaxError(
                    SyntaxErrorKind::Unexpected,
                ) && exists|i: int|
                    0 <= i < final(self).ast.nodes@.len() && (#[trigger] final(self).ast.nodes@[
                        i
                    ].node.kind) is Define && final(self).ast.nodes@[i].children@.len() >= 1
                        && !(final(self).ast.nodes@[final(self).ast.nodes@[
                        i
                    ].children@[0] as int].node.kind matches AstNodeKind::ResolvedSymbol(_)))
            },
            r is Ok ==> final(self).wf(),
            r is Ok ==> Self::same_shape(old(self).ast.nodes@, final(self).ast.nodes@),
            r is Ok ==> forall|i: int|
                0 <= i < old(self).ast.nodes@.len() ==> {
                    if old(self).ast.nodes@[i].node.kind is Define {
                        &&& old(self).ast.nodes@[i].children@.len() >= 1
                        &&& (#[trigger] final(self).ast.nodes@[i].node.kind) matches
                            AstNodeKind::AssignSymbol(sid) && old(self).ast.nodes@[old(
                            self,
                        ).ast.nodes@[i].children@[0] as int].node.kind
                            == AstNodeKind::ResolvedSymbol(sid)
                        &&& final(self).ast.nodes@[i].children@ == old(self).ast.nodes@[
                            i
                        ].children@.subrange(1, old(self).ast.nodes@[i].children@.len() as int)
                    } else {
                        &&& final(self).ast.nodes@[i].node.kind == old(self).ast.nodes@[
                            i
                        ].node.kind
                        &&& final(self).ast.nodes@[i].children@ == old(self).ast.nodes@[
                            i
                        ].children@
                    }
                },
    {
        let n = self.ast.nodes.len();
        let mut i: usize = 0;
        while i < n
            invariant
                self.wf(),
                n == self.ast.nodes@.len(),
                i <= n,
                self.syms == old(self).syms,
                self.ast.source_file == old(self).ast.source_file,
                self.id_to_scope@ == old(self).id_to_scope@,
                self.parents@ == old(self).parents@,
                Self::same_shape(old(self).ast.nodes@, self.ast.nodes@),
                forall|x: int|
                    i <= x < n ==> (#[trigger] self.ast.nodes@[x]).node.kind == old(
                        self,
                    ).ast.nodes@[x].node.kind && self.ast.nodes@[x].children@ == old(
                        self,
                    ).ast.nodes@[x].children@,
                forall|x: int|
                    0 <= x < i ==> {
                        if old(self).ast.nodes@[x].node.kind is Define {
                            &&& old(self).ast.nodes@[x].children@.len() >= 1
                            &&& (#[trigger] self.ast.nodes@[x].node.kind) matches
                                AstNodeKind::AssignSymbol(sid) && old(self).ast.nodes@[old(
                                self,
                            ).ast.nodes@[x].children@[0] as int].node.kind
                                == AstNodeKind::ResolvedSymbol(sid)
                            &&& self.ast.nodes@[x].children@ == old(self).ast.nodes@[
                                x
                            ].children@.subrange(1, old(self).ast.nodes@[x].children@.len() as int)
                        } else {
                            &&& self.ast.nodes@[x].node.kind == old(self).ast.nodes@[x].node.kind
                            &&& self.ast.nodes@[x].children@ == old(self).ast.nodes@[x].children@
                        }
                    },
            decreases n - i,
        {
            let is_define = matches!(self.ast.nodes[i].node.kind, AstNodeKind::Define);
            if is_define {
                let tr = self.ast.nodes[i].node.text_range;
                if self.ast.nodes[i].children.len() == 0 {
                    return Err(FrontEndError::new(SyntaxErrorKind::NotEnoughArgs, tr));
                }
                let first = self.ast.nodes[i].children[0];
                proof {
                    assert(first < i);
                }
                let sid_opt = match &self.ast.nodes[first].node.kind {
                    AstNodeKind::ResolvedSymbol(sid) => Some(*sid),
                    _ => None,
                };
                match sid_opt {
                    Some(sid) => {
                        self.ast.detach_first_child(i);
                        self.ast.change_node_kind(i, AstNodeKind::AssignSymbol(sid));
                    },
                    None => {
                        return Err(FrontEndError::new(SyntaxErrorKind::Unexpected, tr));
                    },
                }
            }
            i = i + 1;
        }
        Ok(())
    }

    /// Rewrites the remaining generically tagged special forms into typed
    /// payloads: an `if` records its predicate, true branch and optional
    /// false branch by id; an application records its callee and arguments
    /// by id. Wrong arities abort with a located error.
    #[verifier::spinoff_prover]
    #[verifier::rlimit(50)]
    fn process_special_forms(&mut self) -> (r: Result<(), FrontEndError>)
        requires
            old(self).wf(),
        ensures
            final(self).syms == old(self).syms,
            final(self).ast.source_file == old(self).ast.source_file,
            final(self).id_to_scope@ == old(self).id_to_scope@,
            final(self).parents@ == old(self).parents@,
            r matches Err(e) ==> !e.spec_is_fatal() && {
                ||| (e.kind == crate::error::FrontEndErrorKind::SyntaxError(
                    SyntaxErrorKind::NotEnoughIf,
                ) && exists|i: int|
                    0 <= i < final(self).ast.nodes@.len() && (#[trigger] final(self).ast.nodes@[
                        i
                    ].node.kind) is If && final(self).ast.nodes@[i].children@.len() < 2)
                ||| (e.kind == crate::error::FrontEndErrorKind::SyntaxError(
                    SyntaxErrorKind::TooManyIf,
                ) && exists|i: int|
                    0 <= i < final(self).ast.nodes@.len() && (#[trigger] final(self).ast.nodes@[
                        i
                    ].node.kind) is If && final(self).ast.nodes@[i].children@.len() > 3)
                ||| (e.kind == crate::error::FrontEndErrorKind::SyntaxError(
                    SyntaxErrorKind::IllegalApplication,
                ) && exists|i: int|
                    0 <= i < final(self).ast.nodes@.len() && (#[trigger] final(self).ast.nodes@[
                        i
                    ].node.kind) is Application && final(self).ast.nodes@[i].children@.len()
                        == 0)
            },
            r is Ok ==> final(self).wf(),
            r is Ok ==> Self::same_shape(old(self).ast.nodes@, final(self).ast.nodes@),
            r is Ok ==> forall|i: int|
                0 <= i < old(self).ast.nodes@.len() ==> (#[trigger] final(self).ast.nodes@[
                    i
                ].children@) == old(self).ast.nodes@[i].children@,
            r is Ok ==> forall|i: int|
                0 <= i < old(self).ast.nodes@.len() ==> {
                    let kids = old(self).ast.nodes@[i].children@;
                    if old(self).ast.nodes@[i].node.kind is If {
                        &&& 2 <= kids.len() <= 3
                        &&& (#[trigger] final(self).ast.nodes@[i].node.kind) matches
                            AstNodeKind::IfExpr(d) && d.id == i && d.predicate == kids[0]
                            && d.if_true == kids[1] && (if kids.len() == 3 {
                            d.if_false == Some(kids[2])
                        } else {
                            d.if_false is None
                        })
                    } else if old(self).ast.nodes@[i].node.kind is Application {
                        &&& kids.len() >= 1
                        &&& (#[trigger] final(self).ast.nodes@[i].node.kind) matches
                            AstNodeKind::ApplicationExpr(d) && d.id == i && d.func == kids[0]
                            && d.args@ == kids.subrange(1, kids.len() as int)
                    } else {
                        final(self).ast.nodes@[i].node.kind == old(self).ast.nodes@[i].node.kind
                    }
                },
    {
        let n = self.ast.nodes.len();
        let mut i: usize = 0;
        while i < n
            invariant
                self.wf(),
                n == self.ast.nodes@.len(),
                i <= n,
                self.syms == old(self).syms,
                self.ast.source_file == old(self).ast.source_file,
                self.id_to_scope@ == old(self).id_to_scope@,
                self.parents@ == old(self).parents@,
                Self::same_shape(old(self).ast.nodes@, self.ast.nodes@),
                forall|x: int|
                    0 <= x < n ==> (#[trigger] self.ast.nodes@[x].children@) == old(
                        self,
                    ).ast.nodes@[x].children@,
                forall|x: int|
                    i <= x < n ==> (#[trigger] self.ast.nodes@[x].node.kind) == old(
                        self,
                    ).ast.nodes@[x].node.kind,
                forall|x: int|
                    0 <= x < i ==> {
                        let kids = old(self).ast.nodes@[x].children@;
                        if old(self).ast.nodes@[x].node.kind is If {
                            &&& 2 <= kids.len() <= 3
                            &&& (#[trigger] self.ast.nodes@[x].node.kind) matches
                                AstNodeKind::IfExpr(d) && d.id == x && d.predicate == kids[0]
                                && d.if_true == kids[1] && (if kids.len() == 3 {
                                d.if_false == Some(kids[2])
                            } else {
                                d.if_false is None
                            })
                        } else if old(self).ast.nodes@[x].node.kind is Application {
                            &&& kids.len() >= 1
                            &&& (#[trigger] self.ast.nodes@[x].node.kind) matches
                                AstNodeKind::ApplicationExpr(d) && d.id == x && d.func == kids[0]
                                && d.args@ == kids.subrange(1, kids.len() as int)
                        } else {
                            self.ast.nodes@[x].node.kind == old(self).ast.nodes@[x].node.kind
                        }
                    },
            decreases n - i,
        {
            let is_if = matches!(self.ast.nodes[i].node.kind, AstNodeKind::If);
            let is_app = matches!(self.ast.nodes[i].node.kind, AstNodeKind::Application);
            if is_if {
                let tr = self.ast.nodes[i].node.text_range;
                let kids_len = self.ast.nodes[i].children.len();
                if kids_len < 2 {
                    return Err(FrontEndError::new(SyntaxErrorKind::NotEnoughIf, tr));
                }
                if kids_len > 3 {
                    return Err(FrontEndError::new(SyntaxErrorKind::TooManyIf, tr));
                }
                let predicate = self.ast.nodes[i].children[0];
                let if_true = self.ast.nodes[i].children[1];
                let if_false = if kids_len == 3 {
                    Some(self.ast.nodes[i].children[2])
                } else {
                    None
                };
                let data = IfData { id: i, predicate, if_true, if_false };
                let ghost pre_nodes = self.ast.nodes@;
                self.ast.change_node_kind(i, AstNodeKind::IfExpr(Box::new(data)));
                proof {
                    assert forall|x: int| 0 <= x < n implies (#[trigger] self.ast.nodes@[
                        x
                    ].node.token_range) == pre_nodes[x].node.token_range
                        && self.ast.nodes@[x].node.text_range == pre_nodes[x].node.text_range by {
                        if x != i {
                            assert(self.ast.nodes@[x] == pre_nodes[x]);
                        }
                    }
                }
            } else if is_app {
                let tr = self.ast.nodes[i].node.text_range;
                let kids_len = self.ast.nodes[i].children.len();
                if kids_len == 0 {
                    return Err(FrontEndError::new(SyntaxErrorKind::IllegalApplication, tr));
                }
                let func = self.ast.nodes[i].children[0];
                let mut args: Vec<AstNodeId> = Vec::new();
                let mut j: usize = 1;
                while j < kids_len
                    invariant
                        i < self.ast.nodes@.len(),
                        kids_len == self.ast.nodes@[i as int].children@.len(),
                        1 <= j <= kids_len,
                        args@ == self.ast.nodes@[i as int].children@.subrange(1, j as int),
                    decreases kids_len - j,
                {
                    let a = self.ast.nodes[i].children[j];
                    args.push(a);
                    proof {
                        assert(args@ =~= self.ast.nodes@[i as int].children@.subrange(
                            1,
                            j + 1,
                        ));
                    }
                    j = j + 1;
                }
                let data = ApplicationData { id: i, func, args };
                let ghost pre_nodes = self.ast.nodes@;
                self.ast.change_node_kind(i, AstNodeKind::ApplicationExpr(Box::new(data)));
                proof {
                    assert forall|x: int| 0 <= x < n implies (#[trigger] self.ast.nodes@[
                        x
                    ].node.token_range) == pre_nodes[x].node.token_range
                        && self.ast.nodes@[x].node.text_range == pre_nodes[x].node.text_range by {
                        if x != i {
                            assert(self.ast.nodes@[x] == pre_nodes[x]);
                        }
                    }
                }
            }
            i = i + 1;
        }
        Ok(())
    }

}

} // verus!
