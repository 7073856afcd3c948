//! The scope tree and symbol tables.
//!
//! A tree of lexical scopes, each owning a table mapping names to symbol
//! ids. Scope ids are indices into a flat arena, allocated monotonically
//! and never reused; id 0 is always the root. Symbols are identified
//! globally by the pair of their scope and their id within its table.
//! Resolution walks from a scope toward the root, stopping early when a
//! scope's resolution barrier forbids crossing.

use vstd::prelude::*;

use crate::symbols::{ScopeId, SymbolId, SymbolResolutionBarrier, SymbolScopeId};

verus! {

broadcast use vstd::std_specs::vec::axiom_spec_len;

/// What can go wrong in the symbol tree.
#[derive(Copy, Clone, Debug, PartialEq, Eq, Structural)]
pub enum SymbolError {
    InvalidScope,
    InvalidId,
    NotFound,
    NoValue,
    AlreadyDefined,
}

/// One scope's table: its name, its fully-qualified name, its id, its
/// resolution barrier, and the names bound in it. A name's index is its
/// symbol id.
#[derive(Clone, Debug)]
pub struct SymbolTable {
    pub scope_name: String,
    pub fqn: String,
    pub scope_id: ScopeId,
    pub barrier: SymbolResolutionBarrier,
    pub names: Vec<String>,
}

impl SymbolTable {
    /// No name is bound twice.
    pub open spec fn names_unique(&self) -> bool {
        forall|i: int, j: int|
            0 <= i < j < self.names@.len() ==> (#[trigger] self.names@[i])@ != (
            #[trigger] self.names@[j])@
    }

    /// Whether a name is bound in this table.
    pub open spec fn spec_has_name(&self, name: Seq<char>) -> bool {
        exists|i: int| 0 <= i < self.names@.len() && (#[trigger] self.names@[i])@ == name
    }

    /// The symbol id a name is bound to, when it is bound.
    pub open spec fn spec_name_index(&self, name: Seq<char>) -> int {
        choose|i: int| 0 <= i < self.names@.len() && (#[trigger] self.names@[i])@ == name
    }

    pub fn new(
        scope_name: &str,
        fqn: &str,
        scope_id: ScopeId,
        barrier: SymbolResolutionBarrier,
    ) -> (r: Self)
        ensures
            r.scope_name@ == scope_name@,
            r.fqn@ == fqn@,
            r.scope_id == scope_id,
            r.barrier == barrier,
            r.names@.len() == 0,
    {
        SymbolTable {
            scope_name: scope_name.to_owned(),
            fqn: fqn.to_owned(),
            scope_id,
            barrier,
            names: Vec::new(),
        }
    }

    /// Looks a name up in this table alone.
    pub fn get_symbol_id(&self, name: &str) -> (r: Option<SymbolId>)
        ensures
            match r {
                Some(id) => id < self.names@.len() && self.names@[id as int]@ == name@,
                None => !self.spec_has_name(name@),
            },
    {
        let mut i: usize = 0;
        while i < self.names.len()
            invariant
                i <= self.names@.len(),
                forall|k: int| 0 <= k < i ==> (#[trigger] self.names@[k])@ != name@,
            decreases self.names@.len() - i,
        {
            if crate::parsers::str_eq(self.names[i].as_str(), name) {
                return Some(i as u64);
            }
            i = i + 1;
        }
        None
    }
}

/// The per-symbol record: the declaring name, an optional bound value, the
/// symbol's global identity, and the fully-qualified name of its scope.
#[derive(Clone, Debug)]
pub struct SymbolInfo<V> {
    pub name: String,
    pub value: Option<V>,
    pub symbol_id: SymbolScopeId,
    pub fqn: String,
}

/// One node of the scope tree: the scope's table, its parent and children,
/// and the records of the symbols it owns.
#[derive(Clone, Debug)]
pub struct ScopeNode<V> {
    pub table: SymbolTable,
    pub parent: Option<ScopeId>,
    pub children: Vec<ScopeId>,
    pub infos: Vec<SymbolInfo<V>>,
}

/// The scope tree: a flat arena of scope nodes indexed by scope id. The
/// root, id 0, exists from construction; scopes are only ever added.
#[derive(Clone, Debug)]
pub struct SymbolTree<V> {
    pub scopes: Vec<ScopeNode<V>>,
}

impl<V> SymbolTree<V> {
    /// The arena is well-formed: the root exists and has no parent, every
    /// other scope's parent was allocated before it, children lists agree
    /// with parents, ids match indices, names are unique per table, and
    /// each table has one record per name.
    pub open spec fn wf(&self) -> bool {
        &&& 1 <= self.scopes@.len() <= usize::MAX
        &&& self.scopes@[0].parent is None
        &&& forall|i: int|
            0 < i < self.scopes@.len() ==> ((#[trigger] self.scopes@[i].parent) matches Some(p)
                && p < i)
        &&& forall|i: int, j: int|
            0 <= i < self.scopes@.len() && 0 <= j < self.scopes@[i].children@.len() ==> i < (
            #[trigger] self.scopes@[i].children@[j]) < self.scopes@.len()
        &&& forall|i: int, j: int|
            0 <= i < self.scopes@.len() && 0 <= j < self.scopes@[i].children@.len()
                ==> self.scopes@[(#[trigger] self.scopes@[i].children@[j]) as int].parent
                == Some(i as ScopeId)
        &&& forall|i: int|
            0 <= i < self.scopes@.len() ==> (#[trigger] self.scopes@[i].table.scope_id) == i
        &&& forall|i: int|
            0 <= i < self.scopes@.len() ==> (#[trigger] self.scopes@[i].table).names_unique()
        &&& forall|i: int|
            0 <= i < self.scopes@.len() ==> (#[trigger] self.scopes@[i].infos@.len())
                == self.scopes@[i].table.names@.len()
        &&& forall|i: int, k: int|
            0 <= i < self.scopes@.len() && 0 <= k < self.scopes@[i].infos@.len() ==> (
            #[trigger] self.scopes@[i].infos@[k]).name@ == self.scopes@[i].table.names@[k]@
                && self.scopes@[i].infos@[k].symbol_id.scope_id == i && self.scopes@[
                i
            ].infos@[k].symbol_id.symbol_id == k
    }

    /// Whether `name` is bound in the table of scope `s`.
    pub open spec fn spec_bound(&self, s: int, name: Seq<char>) -> bool {
        self.scopes@[s].table.spec_has_name(name)
    }

    /// The symbol identity `sid` names `name` in this tree: its scope
    /// exists and its table's entry at the symbol's id holds that name.
    pub open spec fn binds(&self, sid: SymbolScopeId, name: Seq<char>) -> bool {
        &&& sid.scope_id < self.scopes@.len()
        &&& sid.symbol_id < self.scopes@[sid.scope_id as int].table.names@.len()
        &&& self.scopes@[sid.scope_id as int].table.names@[sid.symbol_id as int]@ == name
    }

    /// What resolution returns: the walk from scope `s` toward the root,
    /// trying each table on the way, stopping when a scope's barrier
    /// refuses the crossing.
    pub open spec fn resolve_spec(&self, name: Seq<char>, s: int, barrier: SymbolResolutionBarrier)
        -> Option<SymbolScopeId>
        decreases s,
    {
        if !(0 <= s < self.scopes@.len()) {
            None
        } else if self.spec_bound(s, name) {
            Some(
                SymbolScopeId {
                    scope_id: s as ScopeId,
                    symbol_id: self.scopes@[s].table.spec_name_index(name) as SymbolId,
                },
            )
        } else if !self.scopes@[s].table.barrier.spec_can_pass_barrier(barrier) {
            None
        } else {
            match self.scopes@[s].parent {
                None => None,
                Some(p) => {
                    if p < s {
                        self.resolve_spec(name, p as int, barrier)
                    } else {
                        None
                    }
                },
            }
        }
    }

    /// A fresh tree: the root scope alone, empty, with a global barrier.
    pub fn new() -> (r: Self)
        ensures
            r.wf(),
            r.scopes@.len() == 1,
            r.scopes@[0].table.names@.len() == 0,
            r.scopes@[0].table.barrier is Global,
            r.scopes@[0].table.scope_name@ =~= Seq::<char>::empty(),
            r.scopes@[0].table.fqn@ =~= Seq::<char>::empty(),
            r.scopes@[0].children@.len() == 0,
    {
        proof {
            reveal_strlit("");
        }
        let table = SymbolTable::new("", "", 0, SymbolResolutionBarrier::Global);
        let root = ScopeNode { table, parent: None, children: Vec::new(), infos: Vec::new() };
        let mut scopes: Vec<ScopeNode<V>> = Vec::new();
        scopes.push(root);
        SymbolTree { scopes }
    }

    /// The root scope's id: always 0.
    pub fn get_root_scope_id(&self) -> (r: ScopeId)
        ensures
            r == 0,
    {
        0
    }

    /// The id the next new scope will get.
    pub fn get_next_scope_id(&self) -> (r: u64)
        requires
            self.wf(),
        ensures
            r == self.scopes@.len(),
    {
        self.scopes.len() as u64
    }

    /// Whether a scope id names an existing scope.
    pub fn scope_exists(&self, scope: ScopeId) -> (r: bool)
        ensures
            r == (scope < self.scopes@.len()),
    {
        scope < self.scopes.len() as u64
    }

    /// The parent of a scope, if the scope exists and is not the root.
    pub fn get_parent_scope_id(&self, scope_id: ScopeId) -> (r: Option<ScopeId>)
        requires
            self.wf(),
            scope_id < self.scopes@.len(),
        ensures
            r == self.scopes@[scope_id as int].parent,
    {
        let n = self.scopes.len();
        self.scopes[scope_id as usize].parent
    }

    /// The fully-qualified name of a scope.
    pub fn get_fqn_from_id(&self, scope_id: ScopeId) -> (r: Option<&str>)
        requires
            self.wf(),
        ensures
            match r {
                Some(s) => scope_id < self.scopes@.len() && s@ == self.scopes@[
                    scope_id as int
                ].table.fqn@,
                None => scope_id >= self.scopes@.len(),
            },
    {
        let n = self.scopes.len();
        if scope_id < n as u64 {
            Some(self.scopes[scope_id as usize].table.fqn.as_str())
        } else {
            None
        }
    }

    /// Appends a new scope under `parent_id` with the given barrier; its
    /// fully-qualified name extends the parent's. Nothing else changes.
    pub fn insert_new_table(
        &mut self,
        name: &str,
        parent_id: ScopeId,
        barrier: SymbolResolutionBarrier,
    ) -> (r: ScopeId)
        requires
            old(self).wf(),
            parent_id < old(self).scopes@.len(),
            old(self).scopes@.len() < usize::MAX,
        ensures
            final(self).wf(),
            r == old(self).scopes@.len(),
            final(self).scopes@.len() == old(self).scopes@.len() + 1,
            final(self).scopes@[r as int].table.scope_name@ == name@,
            final(self).scopes@[r as int].table.barrier == barrier,
            final(self).scopes@[r as int].table.names@.len() == 0,
            final(self).scopes@[r as int].parent == Some(parent_id),
            final(self).scopes@[r as int].children@.len() == 0,
            final(self).scopes@[parent_id as int].children@ == old(self).scopes@[
                parent_id as int
            ].children@.push(r),
            final(self).scopes@[parent_id as int].table == old(self).scopes@[
                parent_id as int
            ].table,
            final(self).scopes@[parent_id as int].parent == old(self).scopes@[
                parent_id as int
            ].parent,
            final(self).scopes@[parent_id as int].infos@ == old(self).scopes@[
                parent_id as int
            ].infos@,
            forall|i: int|
                0 <= i < old(self).scopes@.len() && i != parent_id ==> final(self).scopes@[i]
                    == old(self).scopes@[i],
    {
        let id = self.scopes.len() as u64;
        let parent_fqn = self.scopes[parent_id as usize].table.fqn.clone();
        let mut fqn = parent_fqn;
        fqn.append("::");
        fqn.append(name);
        let table = SymbolTable::new(name, fqn.as_str(), id, barrier);
        let node = ScopeNode {
            table,
            parent: Some(parent_id),
            children: Vec::new(),
            infos: Vec::new(),
        };
        self.scopes.push(node);
        let parent = &mut self.scopes[parent_id as usize];
        parent.children.push(id);
        id
    }

    /// Binds `name` in the table of `scope_id`, giving it the next symbol
    /// id there. A name already bound fails with `AlreadyDefined` and the
    /// whole tree is left exactly as it was.
    #[verifier::rlimit(50)]
    pub fn create_symbol_in_scope(&mut self, scope_id: ScopeId, name: &str) -> (r: Result<
        SymbolScopeId,
        SymbolError,
    >)
        requires
            old(self).wf(),
        ensures
            final(self).wf(),
            match r {
                Ok(id) => {
                    &&& scope_id < old(self).scopes@.len()
                    &&& !old(self).spec_bound(scope_id as int, name@)
                    &&& id.scope_id == scope_id
                    &&& id.symbol_id == old(self).scopes@[scope_id as int].table.names@.len()
                    &&& final(self).scopes@.len() == old(self).scopes@.len()
                    &&& final(self).scopes@[scope_id as int].table.names@ == old(self).scopes@[
                        scope_id as int
                    ].table.names@.push(final(self).scopes@[scope_id as int].table.names@.last())
                    &&& final(self).scopes@[scope_id as int].table.names@.last()@ == name@
                    &&& final(self).spec_bound(scope_id as int, name@)
                    &&& final(self).scopes@[scope_id as int].infos@ == old(self).scopes@[
                        scope_id as int
                    ].infos@.push(final(self).scopes@[scope_id as int].infos@.last())
                    &&& final(self).scopes@[scope_id as int].infos@.last().value is None
                    &&& final(self).scopes@[scope_id as int].infos@.last().fqn@ == old(
                        self,
                    ).scopes@[scope_id as int].table.fqn@
                    &&& final(self).scopes@[scope_id as int].table.fqn == old(self).scopes@[
                        scope_id as int
                    ].table.fqn
                    &&& final(self).scopes@[scope_id as int].table.scope_name
                        == old(self).scopes@[scope_id as int].table.scope_name
                    &&& final(self).scopes@[scope_id as int].table.barrier == old(self).scopes@[
                        scope_id as int
                    ].table.barrier
                    &&& final(self).scopes@[scope_id as int].parent == old(self).scopes@[
                        scope_id as int
                    ].parent
                    &&& final(self).scopes@[scope_id as int].children@ == old(self).scopes@[
                        scope_id as int
                    ].children@
                    &&& forall|i: int|
                        0 <= i < old(self).scopes@.len() && i != scope_id
                            ==> final(self).scopes@[i] == old(self).scopes@[i]
                },
                Err(e) => {
                    &&& *final(self) == *old(self)
                    &&& (e == SymbolError::AlreadyDefined ==> old(self).spec_bound(
                        scope_id as int,
                        name@,
                    ))
                    &&& (e == SymbolError::InvalidScope ==> scope_id >= old(self).scopes@.len())
                    &&& (e == SymbolError::AlreadyDefined || e == SymbolError::InvalidScope)
                },
            },
    {
        let n = self.scopes.len();
        if scope_id >= n as u64 {
            return Err(SymbolError::InvalidScope);
        }
        let scope = &self.scopes[scope_id as usize];
        match scope.table.get_symbol_id(name) {
            Some(_) => Err(SymbolError::AlreadyDefined),
            None => {
                let symbol_id = scope.table.names.len() as u64;
                let fqn = scope.table.fqn.clone();
                let id = SymbolScopeId::new(scope_id, symbol_id);
                let info = SymbolInfo { name: name.to_owned(), value: None, symbol_id: id, fqn };
                let node = &mut self.scopes[scope_id as usize];
                node.table.names.push(name.to_owned());
                node.infos.push(info);
                proof {
                    assert(self.scopes@[scope_id as int].table.names@ =~= old(
                        self,
                    ).scopes@[scope_id as int].table.names@.push(
                        self.scopes@[scope_id as int].table.names@.last(),
                    ));
                    assert forall|i: int, k: int|
                        0 <= i < self.scopes@.len() && 0 <= k < self.scopes@[i].infos@.len()
                            implies (#[trigger] self.scopes@[i].infos@[k]).name@
                            == self.scopes@[i].table.names@[k]@ && self.scopes@[i].infos@[
                            k
                        ].symbol_id.scope_id == i && self.scopes@[i].infos@[
                            k
                        ].symbol_id.symbol_id == k by {
                        if i == scope_id && k == old(self).scopes@[i].infos@.len() {
                            assert(self.scopes@[i].infos@[k].name@ == name@);
                            assert(self.scopes@[i].table.names@[k]@ == name@);
                        } else {
                            assert(old(self).scopes@[i].infos@[k] == self.scopes@[i].infos@[k]);
                            assert(old(self).scopes@[i].table.names@[k] == self.scopes@[
                                i
                            ].table.names@[k]);
                        }
                    }
                }
                Ok(id)
            },
        }
    }

    /// Resolves a name from a starting scope: looks it up there, then in
    /// each ancestor in turn, as far as the barriers allow; the result is
    /// exactly what the resolution walk describes, `NotFound` when the walk
    /// finds nothing.
    pub fn resolve_label(
        &self,
        name: &str,
        scope_id: ScopeId,
        barrier: SymbolResolutionBarrier,
    ) -> (r: Result<SymbolScopeId, SymbolError>)
        requires
            self.wf(),
        ensures
            match r {
                Ok(id) => self.resolve_spec(name@, scope_id as int, barrier) == Some(id),
                Err(e) => e == SymbolError::NotFound && self.resolve_spec(
                    name@,
                    scope_id as int,
                    barrier,
                ) is None,
            },
    {
        if scope_id >= self.scopes.len() as u64 {
            return Err(SymbolError::NotFound);
        }
        let mut cur: u64 = scope_id;
        loop
            invariant
                self.wf(),
                cur < self.scopes@.len(),
                self.resolve_spec(name@, scope_id as int, barrier) == self.resolve_spec(
                    name@,
                    cur as int,
                    barrier,
                ),
            decreases cur,
        {
            let n = self.scopes.len();
            let node = &self.scopes[cur as usize];
            match node.table.get_symbol_id(name) {
                Some(sym) => {
                    proof {
                        assert(self.spec_bound(cur as int, name@));
                        let j = node.table.spec_name_index(name@);
                        assert(node.table.names@[sym as int]@ == name@);
                        assert(node.table.names@[j]@ == name@);
                        assert(j == sym as int);
                    }
                    return Ok(SymbolScopeId::new(cur, sym));
                },
                None => {},
            }
            if !node.table.barrier.can_pass_barrier(barrier) {
                return Err(SymbolError::NotFound);
            }
            match node.parent {
                None => {
                    return Err(SymbolError::NotFound);
                },
                Some(p) => {
                    cur = p;
                },
            }
        }
    }

    /// Returns the child scope of `parent` with the given name if one
    /// exists — leaving the tree untouched — else creates one with a
    /// global barrier: idempotent, so safe to call repeatedly during a
    /// tree walk.
    pub fn create_or_get_scope_for_parent(&mut self, name: &str, id: ScopeId) -> (r: Result<
        ScopeId,
        SymbolError,
    >)
        requires
            old(self).wf(),
            old(self).scopes@.len() < usize::MAX,
        ensures
            final(self).wf(),
            match r {
                Ok(s) => {
                    &&& s < final(self).scopes@.len()
                    &&& final(self).scopes@[s as int].table.scope_name@ == name@
                    &&& final(self).scopes@[s as int].parent == Some(id)
                    &&& (match first_child_named(*old(self), id as int, name@, 0) {
                        Some(c) => s == c && *final(self) == *old(self),
                        None => {
                            &&& s == old(self).scopes@.len()
                            &&& final(self).scopes@.len() == old(self).scopes@.len() + 1
                            &&& final(self).scopes@[s as int].table.barrier is Global
                            &&& final(self).scopes@[s as int].table.names@.len() == 0
                            &&& final(self).scopes@[id as int].children@
                                == old(self).scopes@[id as int].children@.push(s)
                            &&& forall|i: int|
                                0 <= i < old(self).scopes@.len() && i != id
                                    ==> final(self).scopes@[i] == old(self).scopes@[i]
                        },
                    })
                },
                Err(e) => e == SymbolError::InvalidScope && id >= old(self).scopes@.len()
                    && *final(self) == *old(self),
            },
    {
        let n = self.scopes.len();
        if id >= n as u64 {
            return Err(SymbolError::InvalidScope);
        }
        match self.find_child_named(id, name) {
            Some(c) => Ok(c),
            None => {
                let s = self.insert_new_table(name, id, SymbolResolutionBarrier::Global);
                Ok(s)
            },
        }
    }

    /// The record of a symbol, by its global identity.
    pub fn get_symbol_info_from_id(&self, symbol_id: SymbolScopeId) -> (r: Result<
        &SymbolInfo<V>,
        SymbolError,
    >)
        requires
            self.wf(),
        ensures
            match r {
                Ok(info) => {
                    &&& symbol_id.scope_id < self.scopes@.len()
                    &&& symbol_id.symbol_id < self.scopes@[
                        symbol_id.scope_id as int
                    ].infos@.len()
                    &&& *info == self.scopes@[symbol_id.scope_id as int].infos@[
                        symbol_id.symbol_id as int
                    ]
                },
                Err(e) => e == SymbolError::InvalidId && (symbol_id.scope_id
                    >= self.scopes@.len() || symbol_id.symbol_id >= self.scopes@[
                    symbol_id.scope_id as int
                ].infos@.len()),
            },
    {
        let n = self.scopes.len();
        if symbol_id.scope_id < n as u64 {
            let node = &self.scopes[symbol_id.scope_id as usize];
            let m = node.infos.len();
            if symbol_id.symbol_id < m as u64 {
                return Ok(&node.infos[symbol_id.symbol_id as usize]);
            }
        }
        Err(SymbolError::InvalidId)
    }

    /// Binds a value to a symbol's record.
    pub fn set_symbol_for_id(&mut self, symbol_id: SymbolScopeId, val: V) -> (r: Result<
        (),
        SymbolError,
    >)
        requires
            old(self).wf(),
        ensures
            final(self).wf(),
            match r {
                Ok(()) => {
                    &&& symbol_id.scope_id < old(self).scopes@.len()
                    &&& symbol_id.symbol_id < old(self).scopes@[
                        symbol_id.scope_id as int
                    ].infos@.len()
                    &&& final(self).scopes@[symbol_id.scope_id as int].infos@[
                        symbol_id.symbol_id as int
                    ].value == Some(val)
                    &&& final(self).scopes@[symbol_id.scope_id as int].infos@[
                        symbol_id.symbol_id as int
                    ].name == old(self).scopes@[symbol_id.scope_id as int].infos@[
                        symbol_id.symbol_id as int
                    ].name
                    &&& final(self).scopes@[symbol_id.scope_id as int].infos@[
                        symbol_id.symbol_id as int
                    ].symbol_id == symbol_id
                    &&& final(self).scopes@[symbol_id.scope_id as int].table == old(
                        self,
                    ).scopes@[symbol_id.scope_id as int].table
                    &&& forall|i: int|
                        0 <= i < old(self).scopes@.len() && i != symbol_id.scope_id
                            ==> final(self).scopes@[i] == old(self).scopes@[i]
                },
                Err(e) => {
                    &&& e == SymbolError::NotFound
                    &&& *final(self) == *old(self)
                    &&& (symbol_id.scope_id >= old(self).scopes@.len() || symbol_id.symbol_id
                        >= old(self).scopes@[symbol_id.scope_id as int].infos@.len())
                },
            },
    {
        let n = self.scopes.len();
        if symbol_id.scope_id < n as u64 {
            let node_len = self.scopes[symbol_id.scope_id as usize].infos.len();
            if symbol_id.symbol_id < node_len as u64 {
                let node = &mut self.scopes[symbol_id.scope_id as usize];
                let info = &mut node.infos[symbol_id.symbol_id as usize];
                info.value = Some(val);
                return Ok(());
            }
        }
        Err(SymbolError::NotFound)
    }
}

/// `a` is `d` itself or one of its ancestors in the scope tree.
pub open spec fn is_ancestor_or_self<V>(t: SymbolTree<V>, a: int, d: int) -> bool
    decreases d,
{
    &&& 0 <= d < t.scopes@.len()
    &&& (a == d || match t.scopes@[d].parent {
        None => false,
        Some(p) => p < d && is_ancestor_or_self(t, a, p as int),
    })
}

/// The walk from `from` up to `upto` finds the name nowhere strictly below
/// `upto` and crosses only scopes whose barrier lets a global lookup pass.
pub open spec fn path_clear<V>(
    t: SymbolTree<V>,
    name: Seq<char>,
    from: int,
    upto: int,
) -> bool
    decreases from,
{
    &&& 0 <= from < t.scopes@.len()
    &&& if from == upto {
        true
    } else {
        &&& !t.spec_bound(from, name)
        &&& t.scopes@[from].table.barrier.spec_can_pass_barrier(SymbolResolutionBarrier::Global)
        &&& match t.scopes@[from].parent {
            None => false,
            Some(p) => p < from && path_clear(t, name, p as int, upto),
        }
    }
}

/// What resolution finds always lies at the starting scope or one of its
/// ancestors, and the name is really bound there: a name bound only in a
/// scope that is no ancestor of the start can never be found from it.
pub proof fn lemma_resolve_only_ancestors<V>(
    t: SymbolTree<V>,
    name: Seq<char>,
    s: int,
    barrier: SymbolResolutionBarrier,
)
    requires
        t.wf(),
        0 <= s < t.scopes@.len(),
    ensures
        t.resolve_spec(name, s, barrier) matches Some(sid) ==> is_ancestor_or_self(
            t,
            sid.scope_id as int,
            s,
        ) && t.spec_bound(sid.scope_id as int, name),
    decreases s,
{
    if t.spec_bound(s, name) {
    } else {
        match t.scopes@[s].parent {
            None => {},
            Some(p) => {
                if p < s {
                    lemma_resolve_only_ancestors(t, name, p as int, barrier);
                }
            },
        }
    }
}

/// A name bound in an ancestor scope resolves from every descendant whose
/// upward path to that ancestor is clear of closer bindings and of
/// blocking barriers: nested scopes see the bindings of the scopes around
/// them.
pub proof fn lemma_resolves_from_descendant<V>(
    t: SymbolTree<V>,
    name: Seq<char>,
    s1: int,
    s2: int,
)
    requires
        t.wf(),
        0 <= s1 < t.scopes@.len(),
        path_clear(t, name, s2, s1),
        t.spec_bound(s1, name),
    ensures
        t.resolve_spec(name, s2, SymbolResolutionBarrier::Global) matches Some(sid)
            && sid.scope_id == s1,
    decreases s2,
{
    if s2 == s1 {
    } else {
        match t.scopes@[s2].parent {
            None => {},
            Some(p) => {
                lemma_resolves_from_descendant(t, name, s1, p as int);
            },
        }
    }
}

/// The walk from `from` reaches the scope `sb`, finding the name nowhere on
/// the way (nor in `sb` itself), and `sb`'s barrier refuses a global
/// lookup's crossing.
pub open spec fn path_blocked<V>(
    t: SymbolTree<V>,
    name: Seq<char>,
    from: int,
    sb: int,
) -> bool
    decreases from,
{
    &&& 0 <= from < t.scopes@.len()
    &&& if from == sb {
        &&& !t.spec_bound(sb, name)
        &&& !t.scopes@[sb].table.barrier.spec_can_pass_barrier(SymbolResolutionBarrier::Global)
    } else {
        &&& !t.spec_bound(from, name)
        &&& t.scopes@[from].table.barrier.spec_can_pass_barrier(SymbolResolutionBarrier::Global)
        &&& match t.scopes@[from].parent {
            None => false,
            Some(p) => p < from && path_blocked(t, name, p as int, sb),
        }
    }
}

/// A scope with a non-global resolution barrier on the way up blocks
/// resolution entirely: the lookup fails even when an ancestor beyond the
/// barrier holds the name.
pub proof fn lemma_barrier_blocks<V>(t: SymbolTree<V>, name: Seq<char>, s2: int, sb: int)
    requires
        t.wf(),
        path_blocked(t, name, s2, sb),
    ensures
        t.resolve_spec(name, s2, SymbolResolutionBarrier::Global) is None,
    decreases s2,
{
    if s2 == sb {
    } else {
        match t.scopes@[s2].parent {
            None => {},
            Some(p) => {
                lemma_barrier_blocks(t, name, p as int, sb);
            },
        }
    }
}

/// The first child of `from` (at or after child index `j`) whose scope
/// name is `name`, if any: the child the lookup walk descends into.
pub open spec fn first_child_named<V>(
    t: SymbolTree<V>,
    from: int,
    name: Seq<char>,
    j: int,
) -> Option<int>
    decreases t.scopes@[from].children@.len() - j,
{
    if !(0 <= j < t.scopes@[from].children@.len()) {
        None
    } else {
        let c = t.scopes@[from].children@[j] as int;
        if t.scopes@[c].table.scope_name@ == name {
            Some(c)
        } else {
            first_child_named(t, from, name, j + 1)
        }
    }
}

/// The scope a dotted path leads to from `from`, descending through the
/// first child matching each segment in order; nothing when a segment
/// matches no child.
pub open spec fn walk_path<V>(t: SymbolTree<V>, from: int, path: Seq<Seq<char>>) -> Option<int>
    decreases path.len(),
{
    if path.len() == 0 {
        Some(from)
    } else {
        match first_child_named(t, from, path[0], 0) {
            None => None,
            Some(c) => walk_path(t, c, path.drop_first()),
        }
    }
}

/// What the first-match lookup returns really is a child of `from` with
/// the looked-up name.
pub proof fn lemma_first_child_named_is_child<V>(
    t: SymbolTree<V>,
    from: int,
    name: Seq<char>,
    j: int,
    c: int,
)
    requires
        t.wf(),
        0 <= from < t.scopes@.len(),
        0 <= j,
        first_child_named(t, from, name, j) == Some(c),
    ensures
        exists|jj: int|
            0 <= jj < t.scopes@[from].children@.len() && (#[trigger] t.scopes@[
                from
            ].children@[jj]) == c && t.scopes@[c].table.scope_name@ == name,
        0 <= c < t.scopes@.len(),
    decreases t.scopes@[from].children@.len() - j,
{
    if 0 <= j < t.scopes@[from].children@.len() {
        let cj = t.scopes@[from].children@[j] as int;
        if t.scopes@[cj].table.scope_name@ == name {
        } else {
            lemma_first_child_named_is_child(t, from, name, j + 1, c);
        }
    }
}

/// Scope `s` is reached from `from` by following child scopes whose names
/// spell out `path`, segment by segment.
pub open spec fn reached_by_path<V>(
    t: SymbolTree<V>,
    from: int,
    s: int,
    path: Seq<Seq<char>>,
) -> bool
    decreases path.len(),
{
    if path.len() == 0 {
        s == from
    } else {
        exists|j: int|
            0 <= j < t.scopes@[from].children@.len() && {
                let c = (#[trigger] t.scopes@[from].children@[j]) as int;
                t.scopes@[c].table.scope_name@ == path[0] && reached_by_path(
                    t,
                    c,
                    s,
                    path.drop_first(),
                )
            }
    }
}

/// Extending a matched path by one more child segment.
pub proof fn lemma_path_snoc<V>(
    t: SymbolTree<V>,
    from: int,
    b: int,
    c: int,
    j: int,
    path: Seq<Seq<char>>,
    seg: Seq<char>,
)
    requires
        reached_by_path(t, from, b, path),
        0 <= j < t.scopes@[b].children@.len(),
        t.scopes@[b].children@[j] == c,
        t.scopes@[c as int].table.scope_name@ == seg,
    ensures
        reached_by_path(t, from, c, path.push(seg)),
    decreases path.len(),
{
    if path.len() == 0 {
        assert(b == from);
        assert(path.push(seg).drop_first() =~= Seq::<Seq<char>>::empty());
        assert(path.push(seg)[0] == seg);
        assert(reached_by_path(t, c, c, path.push(seg).drop_first()));
        assert(t.scopes@[from].children@[j] == c);
    } else {
        let j0 = choose|j0: int|
            0 <= j0 < t.scopes@[from].children@.len() && {
                let c0 = (#[trigger] t.scopes@[from].children@[j0]) as int;
                t.scopes@[c0].table.scope_name@ == path[0] && reached_by_path(
                    t,
                    c0,
                    b,
                    path.drop_first(),
                )
            };
        let c0 = t.scopes@[from].children@[j0] as int;
        lemma_path_snoc(t, c0, b, c, j, path.drop_first(), seg);
        assert(path.push(seg).drop_first() =~= path.drop_first().push(seg));
        assert(path.push(seg)[0] == path[0]);
    }
}

impl<V> SymbolTree<V> {
    /// The first child of `from` whose scope name is `name`: the child the
    /// dotted-path walk and the create-or-get lookup descend into.
    pub fn find_child_named(&self, from: ScopeId, name: &str) -> (r: Option<ScopeId>)
        requires
            self.wf(),
            from < self.scopes@.len(),
        ensures
            match r {
                Some(c) => first_child_named(*self, from as int, name@, 0) == Some(c as int)
                    && c < self.scopes@.len() && self.scopes@[c as int].table.scope_name@
                    == name@ && self.scopes@[c as int].parent == Some(from),
                None => first_child_named(*self, from as int, name@, 0) is None,
            },
    {
        let n_kids = self.scopes[from as usize].children.len();
        let mut j: usize = 0;
        while j < n_kids
            invariant
                self.wf(),
                from < self.scopes@.len(),
                n_kids == self.scopes@[from as int].children@.len(),
                j <= n_kids,
                first_child_named(*self, from as int, name@, 0) == first_child_named(
                    *self,
                    from as int,
                    name@,
                    j as int,
                ),
            decreases n_kids - j,
        {
            let c = self.scopes[from as usize].children[j];
            if crate::parsers::str_eq(
                self.scopes[c as usize].table.scope_name.as_str(),
                name,
            ) {
                proof {
                    assert(first_child_named(*self, from as int, name@, j as int) == Some(
                        c as int,
                    ));
                }
                return Some(c);
            }
            proof {
                assert(first_child_named(*self, from as int, name@, j as int)
                    == first_child_named(*self, from as int, name@, j + 1));
            }
            j = j + 1;
        }
        None
    }

    /// Resolves a relative dotted scope path by matching child scope names
    /// in order from `scope_id`, descending through the first child whose
    /// name equals each segment; fails with `NoValue` exactly when a
    /// segment matches no child. An empty path yields the starting scope,
    /// and a found scope is reached by the path.
    pub fn find_sub_scope_id(&self, path: &[String], scope_id: ScopeId) -> (r: Result<
        ScopeId,
        SymbolError,
    >)
        requires
            self.wf(),
            scope_id < self.scopes@.len(),
        ensures
            r matches Ok(s) ==> s < self.scopes@.len() && walk_path(
                *self,
                scope_id as int,
                path@.map_values(|p: String| p@),
            ) == Some(s as int) && reached_by_path(
                *self,
                scope_id as int,
                s as int,
                path@.map_values(|p: String| p@),
            ),
            r matches Err(e) ==> e == SymbolError::NoValue && walk_path(
                *self,
                scope_id as int,
                path@.map_values(|p: String| p@),
            ) is None,
    {
        let ghost full = path@.map_values(|p: String| p@);
        let mut current: ScopeId = scope_id;
        let mut k: usize = 0;
        proof {
            assert(full.subrange(0, 0) =~= Seq::<Seq<char>>::empty());
            assert(full.subrange(0, full.len() as int) =~= full);
        }
        while k < path.len()
            invariant
                self.wf(),
                scope_id < self.scopes@.len(),
                current < self.scopes@.len(),
                k <= path@.len(),
                full == path@.map_values(|p: String| p@),
                reached_by_path(*self, scope_id as int, current as int, full.subrange(0, k as int)),
                walk_path(*self, scope_id as int, full) == walk_path(
                    *self,
                    current as int,
                    full.subrange(k as int, full.len() as int),
                ),
            decreases path@.len() - k,
        {
            let seg = &path[k];
            proof {
                assert(full.subrange(k as int, full.len() as int)[0] == full[k as int]);
                assert(full.subrange(k as int, full.len() as int).drop_first() =~= full.subrange(
                    k + 1,
                    full.len() as int,
                ));
            }
            match self.find_child_named(current, seg.as_str()) {
                Some(c) => {
                    proof {
                        assert(exists|jj: int|
                            0 <= jj < self.scopes@[current as int].children@.len() && (
                            #[trigger] self.scopes@[current as int].children@[jj]) == c as int
                                && self.scopes@[c as int].table.scope_name@ == seg@) by {
                            lemma_first_child_named_is_child(
                                *self,
                                current as int,
                                seg@,
                                0,
                                c as int,
                            );
                        }
                        let jj = choose|jj: int|
                            0 <= jj < self.scopes@[current as int].children@.len() && (
                            #[trigger] self.scopes@[current as int].children@[jj]) == c as int
                                && self.scopes@[c as int].table.scope_name@ == seg@;
                        lemma_path_snoc(
                            *self,
                            scope_id as int,
                            current as int,
                            c as int,
                            jj,
                            full.subrange(0, k as int),
                            seg@,
                        );
                        assert(full.subrange(0, k as int).push(seg@) =~= full.subrange(
                            0,
                            k + 1,
                        ));
                    }
                    current = c;
                },
                None => {
                    return Err(SymbolError::NoValue);
                },
            }
            k = k + 1;
        }
        proof {
            assert(full.subrange(0, path@.len() as int) =~= full);
            assert(full.subrange(path@.len() as int, full.len() as int)
                =~= Seq::<Seq<char>>::empty());
        }
        Ok(current)
    }

    /// Resolves an absolute dotted scope path, from the root: exactly the
    /// walk of the name's segments starting at scope 0.
    pub fn get_scope_id(&self, name: &str) -> (r: Result<ScopeId, SymbolError>)
        requires
            self.wf(),
        ensures
            r matches Ok(s) ==> s < self.scopes@.len() && walk_path(
                *self,
                0,
                split_path_from(name@, 0, 0),
            ) == Some(s as int),
            r matches Err(e) ==> e == SymbolError::NoValue && walk_path(
                *self,
                0,
                split_path_from(name@, 0, 0),
            ) is None,
    {
        let path = split_scope_path(name);
        self.find_sub_scope_id(path.as_slice(), 0)
    }

    /// Resolves a dotted scope path relative to the given scope: exactly
    /// the walk of the name's segments from that scope; a scope id that
    /// names no scope is refused.
    pub fn get_sub_scope_id(&self, name: &str, scope_id: ScopeId) -> (r: Result<
        ScopeId,
        SymbolError,
    >)
        requires
            self.wf(),
        ensures
            r matches Ok(s) ==> scope_id < self.scopes@.len() && s < self.scopes@.len()
                && walk_path(*self, scope_id as int, split_path_from(name@, 0, 0)) == Some(
                s as int,
            ),
            r matches Err(e) ==> {
                ||| (e == SymbolError::InvalidScope && scope_id >= self.scopes@.len())
                ||| (e == SymbolError::NoValue && scope_id < self.scopes@.len() && walk_path(
                    *self,
                    scope_id as int,
                    split_path_from(name@, 0, 0),
                ) is None)
            },
    {
        let n = self.scopes.len();
        if scope_id >= n as u64 {
            return Err(SymbolError::InvalidScope);
        }
        let path = split_scope_path(name);
        self.find_sub_scope_id(path.as_slice(), scope_id)
    }

    /// The record of a symbol looked up by name in one scope's own table.
    pub fn get_symbol_info(&self, name: &str, scope_id: ScopeId) -> (r: Result<
        &SymbolInfo<V>,
        SymbolError,
    >)
        requires
            self.wf(),
        ensures
            match r {
                Ok(info) => {
                    &&& scope_id < self.scopes@.len()
                    &&& self.spec_bound(scope_id as int, name@)
                    &&& info.name@ == name@
                    &&& info.symbol_id.scope_id == scope_id
                    &&& info.symbol_id.symbol_id < self.scopes@[scope_id as int].infos@.len()
                    &&& *info == self.scopes@[scope_id as int].infos@[
                        info.symbol_id.symbol_id as int
                    ]
                },
                Err(e) => {
                    ||| (e == SymbolError::InvalidScope && scope_id >= self.scopes@.len())
                    ||| (e == SymbolError::NotFound && scope_id < self.scopes@.len()
                        && !self.spec_bound(scope_id as int, name@))
                },
            },
    {
        let n = self.scopes.len();
        if scope_id >= n as u64 {
            return Err(SymbolError::InvalidScope);
        }
        let node = &self.scopes[scope_id as usize];
        let m = node.infos.len();
        match node.table.get_symbol_id(name) {
            Some(sym) => {
                proof {
                    assert(self.scopes@[scope_id as int].table.names@[sym as int]@ == name@);
                    assert(self.scopes@[scope_id as int].infos@[sym as int].name@
                        == self.scopes@[scope_id as int].table.names@[sym as int]@);
                }
                let info = &node.infos[sym as usize];
                Ok(info)
            },
            None => Err(SymbolError::NotFound),
        }
    }

    /// The record of a symbol named by an absolute dotted path whose last
    /// segment is the symbol's own name: succeeds exactly when the leading
    /// segments walk from the root to a scope whose table binds the final
    /// segment, returning that symbol's record; any missing segment, and a
    /// final segment bound nowhere there, is `NotFound`.
    pub fn get_symbol_info_from_scoped_name(&self, name: &str) -> (r: Result<
        &SymbolInfo<V>,
        SymbolError,
    >)
        requires
            self.wf(),
        ensures
            ({
                let segs = split_path_from(name@, 0, 0);
                match r {
                    Ok(info) => {
                        &&& segs.len() >= 1
                        &&& walk_path(*self, 0, segs.drop_last()) matches Some(sc)
                            && self.spec_bound(sc, segs.last()) && info.name@ == segs.last()
                            && info.symbol_id.scope_id == sc && info.symbol_id.scope_id
                            < self.scopes@.len()
                    },
                    Err(e) => {
                        &&& e == SymbolError::NotFound
                        &&& (segs.len() == 0 || (match walk_path(*self, 0, segs.drop_last()) {
                            Some(sc) => !self.spec_bound(sc, segs.last()),
                            None => true,
                        }))
                    },
                }
            }),
    {
        let mut path = split_scope_path(name);
        if path.len() == 0 {
            return Err(SymbolError::NotFound);
        }
        let sym_name = path.pop().unwrap();
        proof {
            assert(path@.map_values(|x: String| x@) =~= split_path_from(
                name@,
                0,
                0,
            ).drop_last());
            assert(sym_name@ == split_path_from(name@, 0, 0).last());
        }
        let scope = match self.find_sub_scope_id(path.as_slice(), 0) {
            Ok(s) => s,
            Err(_) => {
                proof {
                    assert(walk_path(*self, 0, split_path_from(name@, 0, 0).drop_last())
                        is None);
                }
                return Err(SymbolError::NotFound);
            },
        };
        proof {
            assert(walk_path(*self, 0, split_path_from(name@, 0, 0).drop_last()) == Some(
                scope as int,
            ));
        }
        match self.get_symbol_info(sym_name.as_str(), scope) {
            Ok(info) => {
                proof {
                    assert(self.spec_bound(scope as int, split_path_from(name@, 0, 0).last()));
                    assert(info.symbol_id.scope_id == scope);
                }
                Ok(info)
            },
            Err(_) => {
                proof {
                    assert(!self.spec_bound(scope as int, split_path_from(name@, 0, 0).last()));
                }
                Err(SymbolError::NotFound)
            },
        }
    }
}

/// The segments a dotted scope path splits into, scanning from position
/// `i` with the current segment starting at `seg_start`: segments are the
/// maximal runs between `::` separators, empty runs dropped.
pub open spec fn split_path_from(s: Seq<char>, seg_start: int, i: int) -> Seq<Seq<char>>
    decreases s.len() - i,
{
    if i >= s.len() || i < 0 {
        if seg_start < s.len() && s.len() > seg_start {
            seq![s.subrange(seg_start, s.len() as int)]
        } else {
            seq![]
        }
    } else if s[i] == ':' && i + 1 < s.len() && s[i + 1] == ':' {
        (if i > seg_start {
            seq![s.subrange(seg_start, i)]
        } else {
            seq![]
        }) + split_path_from(s, i + 2, i + 2)
    } else {
        split_path_from(s, seg_start, i + 1)
    }
}

/// Splits a dotted scope path on `::` into its segments, exactly as the
/// split specification reads the characters; a leading separator, as
/// absolute paths carry, adds no empty segment.
pub fn split_scope_path(name: &str) -> (r: Vec<String>)
    ensures
        r@.map_values(|x: String| x@) == split_path_from(name@, 0, 0),
{
    let n = name.unicode_len();
    let mut out: Vec<String> = Vec::new();
    let mut seg_start: usize = 0;
    let mut i: usize = 0;
    proof {
        assert(out@.map_values(|x: String| x@) =~= Seq::<Seq<char>>::empty());
    }
    while i < n
        invariant
            n == name@.len(),
            seg_start <= i <= n,
            split_path_from(name@, 0, 0) =~= out@.map_values(|x: String| x@)
                + split_path_from(name@, seg_start as int, i as int),
        decreases n - i,
    {
        if name.get_char(i) == ':' && n - i > 1 && name.get_char(i + 1) == ':' {
            if i > seg_start {
                let seg = name.substring_char(seg_start, i).to_owned();
                let ghost pre = out@;
                out.push(seg);
                proof {
                    assert(out@.map_values(|x: String| x@) =~= pre.map_values(|x: String| x@)
                        + seq![name@.subrange(seg_start as int, i as int)]);
                }
            }
            i = i + 2;
            seg_start = i;
        } else {
            i = i + 1;
        }
        proof {
            assert(split_path_from(name@, 0, 0) =~= out@.map_values(|x: String| x@)
                + split_path_from(name@, seg_start as int, i as int));
        }
    }
    if n > seg_start {
        let seg = name.substring_char(seg_start, n).to_owned();
        let ghost pre = out@;
        out.push(seg);
        proof {
            assert(out@.map_values(|x: String| x@) =~= pre.map_values(|x: String| x@) + seq![
                name@.subrange(seg_start as int, n as int),
            ]);
            assert(split_path_from(name@, 0, 0) =~= out@.map_values(|x: String| x@));
        }
    } else {
        proof {
            assert(split_path_from(name@, seg_start as int, n as int)
                =~= Seq::<Seq<char>>::empty());
            assert(split_path_from(name@, 0, 0) =~= out@.map_values(|x: String| x@));
        }
    }
    out
}

} // verus!
