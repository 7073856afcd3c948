//! Identities for scopes and symbols.
//!
//! Scope and symbol ids are small integers, allocated monotonically and
//! never reused within a compilation unit. A symbol is identified globally
//! by the pair of the scope that owns it and its id within that scope.

use vstd::prelude::*;

verus! {

/// Identifies one scope in a symbol tree. Id 0 is always the root scope.
pub type ScopeId = u64;

/// Identifies one symbol within the table of one scope.
pub type SymbolId = u64;

/// Identifies one symbol globally: the owning scope plus the symbol's id in
/// that scope's table.
#[derive(Copy, Clone, Debug, PartialEq, Eq, Structural)]
pub struct SymbolScopeId {
    pub scope_id: ScopeId,
    pub symbol_id: SymbolId,
}

impl SymbolScopeId {
    pub fn new(scope_id: ScopeId, symbol_id: SymbolId) -> (r: Self)
        ensures
            r.scope_id == scope_id,
            r.symbol_id == symbol_id,
    {
        SymbolScopeId { scope_id, symbol_id }
    }
}

/// Controls whether name resolution may continue from a scope into its
/// ancestors. A non-global barrier makes the scope lexically opaque.
#[derive(Copy, Clone, Debug, PartialEq, Eq, Structural)]
pub enum SymbolResolutionBarrier {
    Local,
    Module,
    Global,
}

impl SymbolResolutionBarrier {
    /// Whether a lookup made with barrier `barrier` may ascend past a scope
    /// whose own barrier is `self`.
    pub open spec fn spec_can_pass_barrier(&self, barrier: SymbolResolutionBarrier) -> bool {
        match (self, barrier) {
            (SymbolResolutionBarrier::Global, _) => true,
            (SymbolResolutionBarrier::Module, SymbolResolutionBarrier::Module) => true,
            (SymbolResolutionBarrier::Module, SymbolResolutionBarrier::Local) => true,
            (SymbolResolutionBarrier::Local, SymbolResolutionBarrier::Local) => true,
            _ => false,
        }
    }

    pub fn can_pass_barrier(&self, barrier: SymbolResolutionBarrier) -> (r: bool)
        ensures
            r == self.spec_can_pass_barrier(barrier),
    {
        match (self, barrier) {
            (SymbolResolutionBarrier::Global, _) => true,
            (SymbolResolutionBarrier::Module, SymbolResolutionBarrier::Module) => true,
            (SymbolResolutionBarrier::Module, SymbolResolutionBarrier::Local) => true,
            (SymbolResolutionBarrier::Local, SymbolResolutionBarrier::Local) => true,
            _ => false,
        }
    }
}

impl Default for SymbolResolutionBarrier {
    /// The default barrier lets lookups pass everywhere.
    fn default() -> (r: Self)
        ensures
            r is Global,
    {
        SymbolResolutionBarrier::Global
    }
}

} // verus!
