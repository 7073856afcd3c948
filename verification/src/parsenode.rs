//! Parse nodes: the immutable tree a successful parse produces.
//!
//! A node records its kind, the half-open token range it was built from,
//! its ordered children, and an optional metadata subtree. Nodes are built
//! bottom-up and never changed once produced.

use vstd::prelude::*;

use crate::ast::AstNodeKind;
use crate::span::Span;
use crate::tokens::TextSpan;

verus! {

/// One node of the parse tree. `range` is in token units, half-open,
/// covering every token the node was parsed from.
#[derive(Debug)]
pub struct ParseNode {
    pub kind: AstNodeKind,
    pub range: TextSpan,
    pub children: Vec<ParseNode>,
    pub meta_data: Option<Box<ParseNode>>,
}

/// Marker for a node builder that is still gathering children.
pub struct Building;

/// Marker for a finished node.
pub struct Built;

impl ParseNode {
    /// The absolute token position one past the node's last token.
    pub open spec fn spec_end(&self) -> int {
        self.range.start + self.range.len
    }

    /// Structural well-formedness: the range is representable, and the
    /// children are themselves well-formed, lie inside the parent's range,
    /// and are ordered with no overlaps.
    pub open spec fn wf(self) -> bool
        decreases self,
    {
        &&& self.range.start + self.range.len <= usize::MAX
        &&& forall|i: int|
            0 <= i < self.children@.len() ==> {
                &&& (#[trigger] self.children@[i]).wf()
                &&& self.range.start <= self.children@[i].range.start
                &&& self.children@[i].spec_end() <= self.spec_end()
            }
        &&& forall|i: int, j: int|
            0 <= i < j < self.children@.len()
                ==> (#[trigger] self.children@[i]).spec_end()
                <= (#[trigger] self.children@[j]).range.start
        &&& match self.meta_data {
            Some(m) => m.wf(),
            None => true,
        }
    }

    /// The children tile the node's range exactly: the first child starts at
    /// the node's start, each child begins where the one before it ended,
    /// and the last child ends at the node's end. Holds of nodes whose every
    /// token belongs to some child, such as the program node.
    pub open spec fn children_tile(self) -> bool {
        &&& (self.children@.len() == 0 ==> self.range.len == 0)
        &&& self.children@.len() > 0 ==> {
            &&& self.children@[0].range.start == self.range.start
            &&& self.children@[self.children@.len() - 1].spec_end() == self.spec_end()
            &&& forall|i: int|
                0 < i < self.children@.len()
                    ==> (#[trigger] self.children@[i]).range.start == self.children@[
                        i - 1
                    ].spec_end()
        }
    }

    /// Start building a node whose range runs from the start of `input` to
    /// the start of `rest`, the spans before and after its tokens were
    /// consumed.
    pub fn builder(kind: AstNodeKind, input: Span, rest: Span) -> (r: NodeBuilder)
        requires
            input.wf(),
            rest.suffix_of(input),
        ensures
            r.kind == kind,
            r.range.start == input.position,
            r.range.start + r.range.len == rest.position,
            r.range.start + r.range.len <= usize::MAX,
            r.children@.len() == 0,
            r.meta_data is None,
    {
        NodeBuilder::from_spans(kind, input, rest)
    }

    /// The same node under another kind tag.
    pub fn change_kind(self, kind: AstNodeKind) -> (r: Self)
        ensures
            r == (ParseNode { kind, ..self }),
    {
        ParseNode { kind, ..self }
    }

    /// The same node with the given metadata subtree (or none).
    pub fn change_meta(self, meta: Option<ParseNode>) -> (r: Self)
        ensures
            r.kind == self.kind,
            r.range == self.range,
            r.children == self.children,
            match meta {
                Some(m) => r.meta_data == Some(Box::new(m)),
                None => r.meta_data is None,
            },
    {
        match meta {
            Some(m) => ParseNode { meta_data: Some(Box::new(m)), ..self },
            None => ParseNode { meta_data: None, ..self },
        }
    }

}

/// Gathers the pieces of a parse node before it is built.
#[derive(Debug)]
pub struct NodeBuilder {
    pub kind: AstNodeKind,
    pub range: TextSpan,
    pub children: Vec<ParseNode>,
    pub meta_data: Option<ParseNode>,
}

impl NodeBuilder {
    pub fn new(kind: AstNodeKind, start: usize, len: usize) -> (r: Self)
        requires
            start + len <= usize::MAX,
        ensures
            r.kind == kind,
            r.range.start == start,
            r.range.len == len,
            r.children@.len() == 0,
            r.meta_data is None,
    {
        NodeBuilder { kind, range: TextSpan::new(start, len), children: Vec::new(), meta_data: None }
    }

    /// A builder whose range runs from the start of `input` to the start of
    /// `rest`.
    pub fn from_spans(kind: AstNodeKind, input: Span, rest: Span) -> (r: Self)
        requires
            input.wf(),
            rest.suffix_of(input),
        ensures
            r.kind == kind,
            r.range.start == input.position,
            r.range.start + r.range.len == rest.position,
            r.range.start + r.range.len <= usize::MAX,
            r.children@.len() == 0,
            r.meta_data is None,
    {
        let start = input.position;
        let len = rest.position - input.position;
        NodeBuilder::new(kind, start, len)
    }

    /// Appends one child.
    pub fn child(self, k: ParseNode) -> (r: Self)
        ensures
            r.kind == self.kind,
            r.range == self.range,
            r.children@ == self.children@.push(k),
            r.meta_data == self.meta_data,
    {
        let mut children = self.children;
        children.push(k);
        NodeBuilder { children, ..self }
    }

    /// Appends children in order.
    pub fn children(self, ks: Vec<ParseNode>) -> (r: Self)
        ensures
            r.kind == self.kind,
            r.range == self.range,
            r.children@ == self.children@ + ks@,
            r.meta_data == self.meta_data,
    {
        let mut children = self.children;
        let mut ks = ks;
        children.append(&mut ks);
        NodeBuilder { children, ..self }
    }

    /// Sets the metadata subtree.
    pub fn meta_opt(self, meta_data: Option<ParseNode>) -> (r: Self)
        ensures
            r.kind == self.kind,
            r.range == self.range,
            r.children == self.children,
            r.meta_data == meta_data,
    {
        NodeBuilder { meta_data, ..self }
    }

    /// Finishes the node.
    pub fn build(self) -> (r: ParseNode)
        ensures
            r.kind == self.kind,
            r.range == self.range,
            r.children == self.children,
            match self.meta_data {
                Some(m) => r.meta_data == Some(Box::new(m)),
                None => r.meta_data is None,
            },
    {
        ParseNode {
            kind: self.kind,
            range: self.range,
            children: self.children,
            meta_data: match self.meta_data {
                Some(m) => Some(Box::new(m)),
                None => None,
            },
        }
    }
}

} // verus!
