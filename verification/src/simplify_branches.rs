//! A pass that replaces a branch with a goto when its condition is a known
//! constant.

use vstd::prelude::*;

use crate::context::{Ctx, Session};
use crate::ir::{
    body_wf, const_eval_bits, const_eval_bool, const_try_eval_bits, const_try_eval_bool,
    lemma_term_ok_same_shape, term_ok, BasicBlockV, Body, BodyV, Operand, OperandV, SwitchTargetsV,
    Terminator, TerminatorV,
};

verus! {

/// The target a well-shaped switch table resolves to is one of its targets.
pub proof fn lemma_target_for_value_in(tv: SwitchTargetsV, v: u128)
    requires
        tv.wf(),
    ensures
        tv.targets.contains(tv.target_for_value(v)),
    decreases tv.values.len(),
{
    if tv.values.len() == 0 {
        assert(tv.targets[tv.targets.len() - 1] == tv.target_for_value(v));
    } else if tv.values[0] == v {
        assert(tv.targets[0] == tv.target_for_value(v));
    } else {
        let sub = SwitchTargetsV { values: tv.values.drop_first(), targets: tv.targets.drop_first() };
        lemma_target_for_value_in(sub, v);
        let t = sub.target_for_value(v);
        let i = choose|i: int| 0 <= i < sub.targets.len() && sub.targets[i] == t;
        assert(tv.targets[i + 1] == t);
    }
}

/// How one terminator is simplified: a switch on an evaluated constant, or an
/// assertion known to hold, becomes a plain goto.
pub open spec fn simplify_term(t: TerminatorV) -> TerminatorV {
    match t {
        TerminatorV::SwitchInt { discr: OperandV::Constant(c), switch_ty, targets } => {
            if targets.wf() && const_eval_bits(c, switch_ty) is Some {
                TerminatorV::Goto { target: targets.target_for_value(const_eval_bits(c, switch_ty)->0) }
            } else {
                t
            }
        },
        TerminatorV::Assert { cond: OperandV::Constant(c), expected, target, cleanup } => {
            if const_eval_bool(c) == Some(expected) {
                TerminatorV::Goto { target }
            } else {
                t
            }
        },
        _ => t,
    }
}

/// A body with every block's terminator simplified.
pub open spec fn simplify_branches_spec(b: BodyV) -> BodyV {
    BodyV {
        blocks: b.blocks.map_values(
            |bb: BasicBlockV| BasicBlockV {
                statements: bb.statements,
                terminator: simplify_term(bb.terminator),
                is_cleanup: bb.is_cleanup,
            },
        ),
        locals: b.locals,
        arg_count: b.arg_count,
        debug: b.debug,
        phase: b.phase,
        source: b.source,
    }
}

/// Simplification keeps a terminator structurally sound: a resolved goto
/// jumps to one of the switch's or assertion's own targets.
pub proof fn lemma_simplify_term_ok(t: TerminatorV, blocks: Seq<BasicBlockV>)
    requires
        term_ok(t, blocks),
    ensures
        term_ok(simplify_term(t), blocks),
{
    match t {
        TerminatorV::SwitchInt { discr: OperandV::Constant(c), switch_ty, targets } => {
            if targets.wf() && const_eval_bits(c, switch_ty) is Some {
                let v = const_eval_bits(c, switch_ty)->0;
                lemma_target_for_value_in(targets, v);
                let tgt = targets.target_for_value(v);
                let i = choose|i: int| 0 <= i < targets.targets.len() && targets.targets[i] == tgt;
                assert(t.succs()[i] == tgt);
                assert(simplify_term(t).succs()[0] == tgt);
            }
        },
        TerminatorV::Assert { cond: OperandV::Constant(c), expected, target, cleanup } => {
            if const_eval_bool(c) == Some(expected) {
                assert(t.succs()[0] == target);
                assert(simplify_term(t).succs()[0] == target);
            }
        },
        _ => {},
    }
}

/// Replaces a branch on a known constant condition with a goto.
pub struct SimplifyConstCondition;

impl SimplifyConstCondition {
    /// Builds the pass.
    pub fn new() -> (r: SimplifyConstCondition) {
        SimplifyConstCondition
    }

    /// Whether the pass runs at the given session options; it is part of
    /// every pipeline.
    pub open spec fn enabled_spec(sess: Session) -> bool {
        true
    }

    /// Executable counterpart of [`SimplifyConstCondition::enabled_spec`].
    pub fn is_enabled(&self, sess: &Session) -> (r: bool)
        ensures
            r == Self::enabled_spec(*sess),
    {
        true
    }

    /// Rewrites every switch on an evaluated constant, and every assertion
    /// that is known to succeed, into a plain goto.
    pub fn run_pass(&self, ctx: &mut Ctx, body: &mut Body)
        requires
            body_wf(old(body)@),
        ensures
            *final (ctx) == *old(ctx),
            body_wf(final (body)@),
            final (body)@ == simplify_branches_spec(old(body)@),
    {
        let n = body.basic_blocks.len();
        let mut i: usize = 0;
        while i < n
            invariant
                body_wf(old(body)@),
                n == old(body)@.blocks.len(),
                body@.blocks.len() == n,
                body.basic_blocks@.len() == n,
                i <= n,
                forall|m: int| 0 <= m < i ==> #[trigger] body@.blocks[m] == (BasicBlockV {
                    statements: old(body)@.blocks[m].statements,
                    terminator: simplify_term(old(body)@.blocks[m].terminator),
                    is_cleanup: old(body)@.blocks[m].is_cleanup,
                }),
                forall|m: int| i <= m < n ==> #[trigger] body@.blocks[m] == old(body)@.blocks[m],
                body@.locals == old(body)@.locals,
                body@.arg_count == old(body)@.arg_count,
                body@.debug == old(body)@.debug,
                body@.phase == old(body)@.phase,
                body@.source == old(body)@.source,
            decreases n - i,
        {
            let new_target: Option<usize> = match &body.basic_blocks[i].terminator {
                Terminator::SwitchInt { discr: Operand::Constant(c), switch_ty, targets } => {
                    if targets.targets.len() >= 1 && targets.targets.len() - 1
                        == targets.values.len() {
                        match const_try_eval_bits(c, *switch_ty) {
                            Some(v) => Some(targets.target_for_value(v)),
                            None => None,
                        }
                    } else {
                        None
                    }
                },
                Terminator::Assert { cond: Operand::Constant(c), expected, target, .. } => {
                    match const_try_eval_bool(c) {
                        Some(v) => {
                            if v == *expected {
                                Some(*target)
                            } else {
                                None
                            }
                        },
                        None => None,
                    }
                },
                _ => None,
            };
            match new_target {
                Some(t) => {
                    let mut bb = body.take_block(i);
                    bb.terminator = Terminator::Goto { target: t };
                    proof {
                        assert(bb@ =~= BasicBlockV {
                            statements: old(body)@.blocks[i as int].statements,
                            terminator: simplify_term(old(body)@.blocks[i as int].terminator),
                            is_cleanup: old(body)@.blocks[i as int].is_cleanup,
                        });
                        assert(body.basic_blocks@.len() == body@.blocks.len());
                    }
                    body.put_block(i, bb);
                    proof {
                        assert(body.basic_blocks@.len() == body@.blocks.len());
                    }
                },
                None => {
                    proof {
                        assert(body@.blocks[i as int] == (BasicBlockV {
                            statements: old(body)@.blocks[i as int].statements,
                            terminator: simplify_term(old(body)@.blocks[i as int].terminator),
                            is_cleanup: old(body)@.blocks[i as int].is_cleanup,
                        }));
                    }
                },
            }
            i = i + 1;
        }
        proof {
            assert(body@.blocks =~= simplify_branches_spec(old(body)@).blocks);
            assert(body@ =~= simplify_branches_spec(old(body)@));
            assert forall|m: int| 0 <= m < n implies term_ok(
                #[trigger] body@.blocks[m].terminator,
                body@.blocks,
            ) by {
                lemma_simplify_term_ok(old(body)@.blocks[m].terminator, old(body)@.blocks);
                lemma_term_ok_same_shape(
                    simplify_term(old(body)@.blocks[m].terminator),
                    old(body)@.blocks,
                    body@.blocks,
                );
            }
        }
    }
}

} // verus!
