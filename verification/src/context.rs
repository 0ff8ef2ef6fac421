//! The explicit context threaded into every pass: session options, the
//! memoized results of the external type, layout and calling-convention
//! queries as plain tables, the optimization-fuel veto, and the observational
//! sinks (dump records, lint diagnostics).
//!
//! The queries are collaborators of the pipeline, not part of it: a caller
//! fills the tables once per compilation and the passes only read them. The
//! only mutable state is the fuel counter and the sinks.

use vstd::prelude::*;

use crate::ir::Phase;

verus! {

/// The calling-convention tag of plain functions.
pub const ABI_RUST: usize = 0;

/// The calling-convention tag of closure calls.
pub const ABI_RUST_CALL: usize = 1;

/// Syntactic shape of a type, as far as the passes care: enough to decide
/// cheaply whether a type could possibly be zero-sized.
#[derive(Clone, Copy, PartialEq, Eq, Structural, Debug)]
pub enum TyShape {
    Adt,
    Array,
    Closure,
    Tuple,
    Opaque,
    FnDef,
    Never,
    Other,
}

/// Memoized answers of the external type and layout queries for one type.
#[derive(Clone, Copy, Debug)]
pub struct TypeInfo {
    pub shape: TyShape,
    /// Whether the type is a union.
    pub is_union: bool,
    /// `Some(pack)` when the type is a packed aggregate with that packing.
    pub packed: Option<u64>,
    /// The type's alignment in bytes.
    pub align: u64,
    /// Whether the type's layout is zero-sized; `None` when no layout is
    /// computable for it yet.
    pub zst: Option<bool>,
    /// Whether dropping a value of this type has any effect.
    pub needs_drop: bool,
    /// The type this one normalizes to when all opaque definitions are
    /// revealed; `None` when normalization cannot resolve it.
    pub normalized: Option<usize>,
}

/// Memoized answers of the external queries about one function definition.
#[derive(Clone, Copy, Debug)]
pub struct FnInfo {
    /// The calling-convention tag of the function's own signature.
    pub abi: usize,
    /// Whether a call to exactly this function may unwind.
    pub can_unwind: bool,
    /// The enclosing trait-derivation impl, when this function was generated
    /// by an automatic derive.
    pub derive_impl: Option<usize>,
}

/// Session-wide configuration the passes consult.
#[derive(Clone, Copy, Debug)]
pub struct Session {
    pub mir_opt_level: u64,
    pub unsound_mir_opts: bool,
    pub validate_mir: bool,
    pub emit_lifetime_markers: bool,
    /// Whether the process-wide panic strategy is to unwind (as opposed to
    /// aborting on panic).
    pub panic_strategy_unwind: bool,
    /// Whether unwinding out of destructors is permitted.
    pub panic_in_drop_unwind: bool,
}

/// A record handed to the dump sink before or after a pass runs.
#[derive(Clone, Copy, Debug)]
pub struct DumpRecord {
    pub phase: Phase,
    pub pass: PassName,
    pub cnt: usize,
    pub is_after: bool,
}

/// Identity of a pass, used by the override table and the dump sink.
#[derive(Clone, Copy, PartialEq, Eq, Structural, Debug)]
pub enum PassName {
    AbortUnwindingCalls,
    CheckPackedRef,
    ConstDebugInfo,
    ConstGoto,
    MultipleReturnTerminators,
    RenameReturnPlace,
    RemoveNoopLandingPads,
    RemoveStorageMarkers,
    RemoveUnneededDrops,
    RemoveZsts,
    RevealAll,
    SimplifyConstCondition,
    UnreachablePropagation,
    PhaseMarker,
}

/// A lint diagnostic, addressed to the diagnostic sink.
#[derive(Clone, Copy, PartialEq, Eq, Structural, Debug)]
pub enum Diagnostic {
    /// A reference to a field of a packed aggregate is not guaranteed
    /// aligned; emitted at the borrow, inside the given block at the given
    /// statement index (the statement count of the block stands for the
    /// terminator).
    UnalignedReference { block: usize, statement: usize },
    /// The same hazard inside automatically derived code, deduplicated and
    /// reported once against the derivation impl's definition.
    UnsafeDeriveOnReprPacked { derive_impl: usize },
}

/// The context object: configuration, query tables, fuel, sinks.
#[derive(Clone, Debug)]
pub struct Ctx {
    pub sess: Session,
    /// Query answers per type id.
    pub types: Vec<TypeInfo>,
    /// Query answers per function definition id.
    pub fns: Vec<FnInfo>,
    /// Whether each calling-convention tag permits unwinding.
    pub abi_can_unwind: Vec<bool>,
    /// Optimization fuel: `None` grants every rewrite; `Some(n)` grants `n`
    /// more rewrites and then vetoes the rest.
    pub fuel: Option<u64>,
    /// Pass-override table: later entries win; `true` forces a pass on,
    /// `false` forces it off.
    pub overridden_passes: Vec<(PassName, bool)>,
    /// Dump sink.
    pub dumps: Vec<DumpRecord>,
    /// Diagnostic sink.
    pub diagnostics: Vec<Diagnostic>,
    /// Derivation impls already reported, for deduplication.
    pub reported_derives: Vec<usize>,
}

impl Ctx {
    /// The query tables and configuration agree between two context states;
    /// only fuel and the sinks may differ.
    pub open spec fn same_queries(self, other: Ctx) -> bool {
        &&& self.sess == other.sess
        &&& self.types@ == other.types@
        &&& self.fns@ == other.fns@
        &&& self.abi_can_unwind@ == other.abi_can_unwind@
        &&& self.overridden_passes@ == other.overridden_passes@
    }

    /// Whether the fuel veto currently grants every rewrite.
    pub open spec fn fuel_unlimited(self) -> bool {
        self.fuel is None
    }

    /// What the external query answers for a type id; out-of-table ids get
    /// the most conservative answer.
    pub open spec fn type_info(self, ty: usize) -> TypeInfo {
        if ty < self.types@.len() {
            self.types@[ty as int]
        } else {
            TypeInfo {
                shape: TyShape::Other,
                is_union: false,
                packed: None,
                align: 1,
                zst: None,
                needs_drop: true,
                normalized: None,
            }
        }
    }

    /// Executable counterpart of [`Ctx::type_info`].
    pub fn type_info_of(&self, ty: usize) -> (r: TypeInfo)
        ensures
            r == self.type_info(ty),
    {
        if ty < self.types.len() {
            self.types[ty]
        } else {
            TypeInfo {
                shape: TyShape::Other,
                is_union: false,
                packed: None,
                align: 1,
                zst: None,
                needs_drop: true,
                normalized: None,
            }
        }
    }

    /// The external calling-convention query: whether a call to the given
    /// callee (or an indirect call, for `None`) under the given convention
    /// may unwind.
    pub open spec fn spec_fn_can_unwind(self, callee: Option<usize>, abi: usize) -> bool {
        match callee {
            Some(f) if f < self.fns@.len() => self.fns@[f as int].can_unwind,
            _ => abi < self.abi_can_unwind@.len() && self.abi_can_unwind@[abi as int],
        }
    }

    /// Executable counterpart of [`Ctx::spec_fn_can_unwind`].
    pub fn fn_can_unwind(&self, callee: Option<usize>, abi: usize) -> (r: bool)
        ensures
            r == self.spec_fn_can_unwind(callee, abi),
    {
        match callee {
            Some(f) => {
                if f < self.fns.len() {
                    return self.fns[f].can_unwind;
                }
                abi < self.abi_can_unwind.len() && self.abi_can_unwind[abi]
            },
            None => abi < self.abi_can_unwind.len() && self.abi_can_unwind[abi],
        }
    }

    /// The calling-convention tag of a function definition's signature;
    /// plain functions outside the table get the plain convention.
    pub open spec fn spec_fn_abi(self, def_id: usize) -> usize {
        if def_id < self.fns@.len() {
            self.fns@[def_id as int].abi
        } else {
            ABI_RUST
        }
    }

    /// Executable counterpart of [`Ctx::spec_fn_abi`].
    pub fn fn_abi_of(&self, def_id: usize) -> (r: usize)
        ensures
            r == self.spec_fn_abi(def_id),
    {
        if def_id < self.fns.len() {
            self.fns[def_id].abi
        } else {
            ABI_RUST
        }
    }

    /// The derivation impl a function definition belongs to, when it was
    /// generated by an automatic derive.
    pub open spec fn spec_derive_impl(self, def_id: usize) -> Option<usize> {
        if def_id < self.fns@.len() {
            self.fns@[def_id as int].derive_impl
        } else {
            None
        }
    }

    /// Executable counterpart of [`Ctx::spec_derive_impl`].
    pub fn derive_impl_of(&self, def_id: usize) -> (r: Option<usize>)
        ensures
            r == self.spec_derive_impl(def_id),
    {
        if def_id < self.fns.len() {
            self.fns[def_id].derive_impl
        } else {
            None
        }
    }

    /// The cost collaborator every mutating pass consults before committing one
    /// rewrite: grants the rewrite unless the optimization fuel has run out,
    /// and burns one unit of fuel when it is limited.
    pub fn consider_optimizing(&mut self) -> (r: bool)
        ensures
            r == (old(self).fuel != Some(0u64)),
            final (self).fuel == (match old(self).fuel {
                None => None,
                Some(n) => if n == 0 { Some(0u64) } else { Some((n - 1) as u64) },
            }),
            final (self).sess == old(self).sess,
            final (self).types@ == old(self).types@,
            final (self).fns@ == old(self).fns@,
            final (self).abi_can_unwind@ == old(self).abi_can_unwind@,
            final (self).overridden_passes@ == old(self).overridden_passes@,
            final (self).dumps@ == old(self).dumps@,
            final (self).diagnostics@ == old(self).diagnostics@,
            final (self).reported_derives@ == old(self).reported_derives@,
    {
        match self.fuel {
            None => true,
            Some(n) => {
                if n == 0 {
                    false
                } else {
                    self.fuel = Some(n - 1);
                    true
                }
            },
        }
    }
}

} // verus!
