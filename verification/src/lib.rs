//! A verified mid-level IR optimization pipeline: a control-flow-graph
//! representation of function bodies, a set of rewriting and lint passes over
//! it, shared CFG cleanup utilities, and a pass manager that orchestrates an
//! ordered pass list while enforcing structural invariants and monotonic
//! phase progression.
//!
//! Type, layout and calling-convention facts are not computed here; they are
//! supplied by the caller as plain tables in an explicit [`context::Ctx`]
//! object that every pass receives.

pub mod abort_unwinding_calls;
pub mod check_packed_ref;
pub mod const_debuginfo;
pub mod const_goto;
pub mod context;
pub mod ir;
pub mod locals;
pub mod multiple_return_terminators;
pub mod nrvo;
pub mod pass_manager;
pub mod remove_noop_landing_pads;
pub mod remove_storage_markers;
pub mod remove_unneeded_drops;
pub mod remove_zsts;
pub mod reveal_all;
pub mod simplify;
pub mod simplify_branches;
pub mod traversal;
pub mod unreachable_prop;
pub mod visit;
