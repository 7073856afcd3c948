//! A compiled module: the front end run end to end over one source file.

use vstd::prelude::*;

use crate::ast::{Ast, AstNodeId};
use crate::error::FrontEndError;
use crate::opts::Opts;
use crate::sources::SourceFile;
use crate::symbols::ScopeId;
use crate::symboltree::SymbolTree;
use crate::syntax::{AstLowerer, SymValue};

verus! {

/// What one compilation run is asked to work on.
#[derive(Clone, Debug)]
pub struct ModuleJob {
    pub source: SourceFile,
    pub opts: Opts,
}

impl ModuleJob {
    pub fn new(opts: Opts, source: SourceFile) -> (r: Self)
        ensures
            r.source == source,
            r.opts == opts,
    {
        ModuleJob { source, opts }
    }
}

/// The front end's product: the scoped tree, the completed scope tree with
/// its symbol tables, and the map from node id to the scope the node lives
/// in, ready for code generation.
pub struct Module {
    pub syms: SymbolTree<SymValue>,
    pub ast: Ast,
    pub from: ModuleJob,
    pub id_to_scope: Vec<ScopeId>,
}

impl Module {
    /// The module's pieces agree.
    pub open spec fn wf(&self) -> bool {
        &&& self.ast.wf()
        &&& self.syms.wf()
        &&& self.id_to_scope@.len() == self.ast.nodes@.len()
        &&& forall|i: int|
            0 <= i < self.id_to_scope@.len() ==> (#[trigger] self.id_to_scope@[i])
                < self.syms.scopes@.len()
    }

    /// The scope a node lives in.
    pub fn get_scope_for_node(&self, id: AstNodeId) -> (r: Option<ScopeId>)
        ensures
            match r {
                Some(s) => id < self.id_to_scope@.len() && s == self.id_to_scope@[id as int],
                None => id >= self.id_to_scope@.len(),
            },
    {
        let n = self.id_to_scope.len();
        if id < n {
            Some(self.id_to_scope[id])
        } else {
            None
        }
    }

    /// Runs the whole front end over a job: tokenize, parse into a tree,
    /// lower. Any failure along the way aborts the compilation with its
    /// located error. On success the module is well-formed and fully
    /// lowered, its tree arose by the lowering relation from a parse tree
    /// whose root is a `Program` spanning the whole token sequence from
    /// position zero, and the program's top-level forms still tile that
    /// range.
    pub fn build(job: ModuleJob) -> (r: Result<Module, FrontEndError>)
        requires
            job.source.wf(),
        ensures
            r matches Ok(m) ==> {
                &&& m.wf()
                &&& crate::syntax::fully_lowered(m.ast.nodes@)
                &&& m.from == job
                &&& m.ast.nodes@[m.ast.nodes@.len() - 1].node.kind is Program
                &&& m.ast.nodes@[m.ast.nodes@.len() - 1].node.token_range.start == 0
                &&& crate::ast::root_children_tile(m.ast)
                &&& exists|pre: Seq<crate::ast::AstEntry>|
                    #[trigger] crate::syntax::lowered_tree(
                        pre,
                        m.ast.nodes@,
                        m.id_to_scope@,
                        m.syms,
                        m.ast.source_file.text@,
                    ) && pre.len() >= 1 && pre[pre.len() - 1].node.kind is Program
            },
            r matches Err(e) ==> {
                ||| (e.spec_is_fatal() && exists|s: crate::span::Span|
                    #[trigger] call_ensures(
                        crate::parsers::parse_atom,
                        (s,),
                        Result::<
                            (crate::span::Span, crate::parsenode::ParseNode),
                            FrontEndError,
                        >::Err(e),
                    ))
                ||| (!e.spec_is_fatal() && exists|
                    start: crate::span::Span,
                    rest: crate::span::Span,
                    node: crate::parsenode::ParseNode,
                |
                    #[trigger] call_ensures(
                        crate::parsers::parse_program,
                        (start,),
                        Ok((rest, node)),
                    ) && {
                        ||| (e.kind == crate::error::FrontEndErrorKind::SyntaxError(
                            crate::error::SyntaxErrorKind::Unexpected,
                        ) && rest.span@.len() > 0)
                        ||| (rest.span@.len() == 0 && (e.kind matches
                            crate::error::FrontEndErrorKind::SyntaxError(k) && (k is Unexpected
                                || k matches crate::error::SyntaxErrorKind::DuplicateSymbol(_)
                                || k matches crate::error::SyntaxErrorKind::UndefinedSymbol(_)
                                || k is NotEnoughArgs || k is NotEnoughIf || k is TooManyIf || k
                                is IllegalApplication)))
                    })
            },
    {
        let tokes = crate::lexer::tokenize(&job.source);
        let _n_toks = tokes.len();
        let ast = match crate::ast::to_ast(tokes.as_slice(), job.source.clone()) {
            Ok(ast) => ast,
            Err(e) => {
                return Err(e);
            },
        };
        if ast.nodes.len() >= usize::MAX - 1 {
            return Err(
                crate::error::FrontEndError::new(
                    crate::error::SyntaxErrorKind::Unexpected,
                    crate::tokens::TextSpan::new(0, 0),
                ),
            );
        }
        let ghost ast0 = ast;
        let mut lowerer = AstLowerer::new(ast);
        match lowerer.lower() {
            Ok(()) => {},
            Err(e) => {
                return Err(e);
            },
        }
        let AstLowerer { syms, ast, id_to_scope, parents: _ } = lowerer;
        let m = Module { syms, ast, from: job, id_to_scope };
        proof {
            let pre = ast0.nodes@;
            let post = m.ast.nodes@;
            let rooti = pre.len() - 1;
            assert(crate::syntax::lowered_tree(
                pre,
                post,
                m.id_to_scope@,
                m.syms,
                m.ast.source_file.text@,
            ));
            assert(pre[rooti].node.kind is Program);
            crate::syntax::lemma_lowered_keeps_ranges(
                pre,
                post,
                m.id_to_scope@,
                m.syms,
                m.ast.source_file.text@,
                rooti,
            );
            assert forall|k: int| 0 <= k < pre[rooti].children@.len() implies (
            #[trigger] post[pre[rooti].children@[k] as int].node.token_range) == pre[pre[
                rooti
            ].children@[k] as int].node.token_range by {
                let c = pre[rooti].children@[k] as int;
                assert(0 <= c < pre.len());
                crate::syntax::lemma_lowered_keeps_ranges(
                    pre,
                    post,
                    m.id_to_scope@,
                    m.syms,
                    m.ast.source_file.text@,
                    c,
                );
            }
            assert(crate::ast::root_children_tile(m.ast));
        }
        Ok(m)
    }
}

} // verus!
