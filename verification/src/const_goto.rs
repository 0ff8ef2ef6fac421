//! A pass that collapses a constant assignment followed by a goto into a
//! block that only switches on that same place: the goto jumps straight to
//! the arm the constant selects. Storage markers in the switching block are
//! hoisted into the rewritten block, and the cleanup afterwards prunes the
//! now-dead switch block and any dead locals.

use vstd::prelude::*;

use crate::context::{Ctx, Session};
use crate::ir::{
    body_wf, const_eval_bits, term_ok, BasicBlockV, Body, BodyV, Operand, OperandV, Place, Rvalue,
    RvalueV, Statement, StatementV, Terminator, TerminatorV,
};
use crate::locals::{simplify_locals, simplify_locals_spec};
use crate::simplify::{simplify_cfg, simplify_cfg_spec};
use crate::simplify_branches::lemma_target_for_value_in;

verus! {

/// The constant a block's trailing statement assigns, with the place it
/// assigns it to.
pub open spec fn trailing_const_assign(bb: BasicBlockV) -> Option<(crate::ir::PlaceV, crate::ir::Constant)> {
    if bb.statements.len() == 0 {
        None
    } else {
        match bb.statements.last() {
            StatementV::Assign(p, RvalueV::Use(OperandV::Constant(c))) => Some((p, c)),
            _ => None,
        }
    }
}

/// Whether every statement of a block is a storage-dead marker, which does
/// not affect the functionality of the IR and may move to a predecessor.
pub open spec fn all_storage_dead(ss: Seq<StatementV>) -> bool {
    forall|k: int| 0 <= k < ss.len() ==> (#[trigger] ss[k]) is StorageDead
}

/// The rewrite this pass performs at one block, when it applies: the arm the
/// assigned constant selects in the goto target's switch, and the storage
/// markers to hoist.
pub open spec fn const_goto_opt(b: BodyV, i: int) -> Option<(usize, Seq<StatementV>)> {
    if !(0 <= i < b.blocks.len()) {
        None
    } else {
        match b.blocks[i].terminator {
            TerminatorV::Goto { target } => {
                if target >= b.blocks.len() {
                    None
                } else {
                    match trailing_const_assign(b.blocks[i]) {
                        Some((p, c)) => {
                            let tb = b.blocks[target as int];
                            if all_storage_dead(tb.statements) {
                                match tb.terminator {
                                    TerminatorV::SwitchInt { discr, switch_ty, targets } => {
                                        if targets.wf() && discr.place() == Some(p) {
                                            match const_eval_bits(c, switch_ty) {
                                                Some(v) => Some(
                                                    (targets.target_for_value(v), tb.statements),
                                                ),
                                                None => None,
                                            }
                                        } else {
                                            None
                                        }
                                    },
                                    _ => None,
                                }
                            } else {
                                None
                            }
                        },
                        None => None,
                    }
                }
            },
            _ => None,
        }
    }
}

/// The body after every applicable block is rewritten: the hoisted storage
/// markers appended and the goto redirected to the resolved arm.
pub open spec fn const_goto_spec(b: BodyV) -> BodyV {
    BodyV {
        blocks: Seq::new(
            b.blocks.len(),
            |i: int|
                match const_goto_opt(b, i) {
                    Some((dest, hoist)) => BasicBlockV {
                        statements: b.blocks[i].statements + hoist,
                        terminator: TerminatorV::Goto { target: dest },
                        is_cleanup: b.blocks[i].is_cleanup,
                    },
                    None => b.blocks[i],
                },
        ),
        locals: b.locals,
        arg_count: b.arg_count,
        debug: b.debug,
        phase: b.phase,
        source: b.source,
    }
}

/// The resolved arm is one of the switch's own targets, so the rewrite keeps
/// the body structurally well formed.
pub proof fn lemma_const_goto_wf(b: BodyV)
    requires
        body_wf(b),
    ensures
        body_wf(const_goto_spec(b)),
{
    let after = const_goto_spec(b);
    assert forall|m: int| 0 <= m < after.blocks.len() implies term_ok(
        #[trigger] after.blocks[m].terminator,
        after.blocks,
    ) by {
        assert forall|u: int| 0 <= u < b.blocks.len() implies #[trigger] after.blocks[u].is_cleanup
            == b.blocks[u].is_cleanup by {
        }
        match const_goto_opt(b, m) {
            Some((dest, hoist)) => {
                match b.blocks[m].terminator {
                    TerminatorV::Goto { target } => {
                        match b.blocks[target as int].terminator {
                            TerminatorV::SwitchInt { discr, switch_ty, targets } => {
                                match trailing_const_assign(b.blocks[m]) {
                                    Some((p, c)) => {
                                        let v = const_eval_bits(c, switch_ty)->0;
                                        lemma_target_for_value_in(targets, v);
                                        let j = choose|j: int|
                                            0 <= j < targets.targets.len() && targets.targets[j]
                                                == dest;
                                        assert(term_ok(
                                            b.blocks[target as int].terminator,
                                            b.blocks,
                                        ));
                                        assert(b.blocks[target as int].terminator.succs()[j]
                                            == dest);
                                        assert(after.blocks[m].terminator.succs()[0] == dest);
                                    },
                                    None => {},
                                }
                            },
                            _ => {},
                        }
                    },
                    _ => {},
                }
            },
            None => {
                crate::ir::lemma_term_ok_same_shape(
                    b.blocks[m].terminator,
                    b.blocks,
                    after.blocks,
                );
            },
        }
    }
}

/// Collapses constant assignments followed by a switch on the same place.
pub struct ConstGoto;

/// The per-block scan of [`ConstGoto`]: recognizes the pattern at one block
/// and resolves the arm to jump to.
pub struct ConstGotoOptimizationFinder;

impl ConstGoto {
    /// Whether the pass runs at the given session options.
    pub open spec fn enabled_spec(sess: Session) -> bool {
        sess.mir_opt_level >= 4
    }

    /// Executable counterpart of [`ConstGoto::enabled_spec`].
    pub fn is_enabled(&self, sess: &Session) -> (r: bool)
        ensures
            r == Self::enabled_spec(*sess),
    {
        sess.mir_opt_level >= 4
    }

    /// The rewrite phase, exact: applies every found rewrite and reports
    /// whether any applied.
    pub fn apply_const_gotos(&self, body: &mut Body) -> (changed: bool)
        requires
            body_wf(old(body)@),
        ensures
            final (body)@ == const_goto_spec(old(body)@),
            body_wf(final (body)@),
            changed == exists|i: int| #[trigger] const_goto_opt(old(body)@, i) is Some,
    {
        let ghost b0 = old(body)@;
        let ghost spec_after = const_goto_spec(b0);
        proof {
            lemma_const_goto_wf(b0);
        }
        let n = body.basic_blocks.len();
        let mut changed = false;
        let mut i: usize = 0;
        while i < n
            invariant
                body_wf(b0),
                body_wf(body@),
                body_wf(spec_after),
                b0 == old(body)@,
                spec_after == const_goto_spec(b0),
                n == b0.blocks.len(),
                body@.blocks.len() == n,
                body.basic_blocks@.len() == n,
                i <= n,
                forall|m: int| 0 <= m < i ==> #[trigger] body@.blocks[m] == spec_after.blocks[m],
                forall|m: int| i <= m < n ==> #[trigger] body@.blocks[m] == b0.blocks[m],
                changed == exists|m: int|
                    0 <= m < i && #[trigger] const_goto_opt(b0, m) is Some,
                body@.locals == b0.locals,
                body@.arg_count == b0.arg_count,
                body@.debug == b0.debug,
                body@.phase == b0.phase,
                body@.source == b0.source,
            decreases n - i,
        {
            // The pattern only looks at this block and its goto target; a
            // rewritten block ends in a goto it was rewritten to, and a
            // pattern target always ends in a switch, so earlier rewrites
            // never disturb a later pattern: the scan works on the current
            // state of both blocks.
            proof {
                // This block is still in its original state, and every block
                // differs from the snapshot only where a pattern was
                // rewritten into a goto.
                assert(body@.blocks[i as int] == b0.blocks[i as int]);
                assert forall|m: int|
                    0 <= m < n implies body@.blocks[m] == b0.blocks[m] || ((
                #[trigger] const_goto_opt(b0, m)) is Some
                        && body@.blocks[m].terminator is Goto) by {
                    if m < i {
                        assert(body@.blocks[m] == spec_after.blocks[m]);
                    }
                }
            }
            let found = ConstGotoOptimizationFinder::find_opt_frozen(body, i, Ghost(b0));
            match found {
                Some(dest) => {
                    let target: usize = match &body.basic_blocks[i].terminator {
                        Terminator::Goto { target } => *target,
                        _ => {
                            proof {
                                assert(false);
                            }
                            0
                        },
                    };
                    // Hoist the target's storage markers into this block.
                    let ghost hoist = (const_goto_opt(b0, i as int)->0).1;
                    let mut bb = body.take_block(i);
                    proof {
                        assert(body.basic_blocks@.len() == body@.blocks.len());
                        assert(bb@ == b0.blocks[i as int]);
                        assert(target < n);
                        assert(target != i) by {
                            if target == i {
                                assert(b0.blocks[i as int].terminator is Goto);
                                assert(b0.blocks[target as int].terminator is SwitchInt);
                            }
                        }
                        assert(const_goto_opt(b0, target as int) is None);
                        assert(body@.blocks[target as int] == b0.blocks[target as int]);
                        assert(hoist == b0.blocks[target as int].statements);
                    }
                    let tn = body.basic_blocks[target].statements.len();
                    let mut k: usize = 0;
                    while k < tn
                        invariant
                            b0 == old(body)@,
                            target < n,
                            target != i,
                            i < n,
                            n == b0.blocks.len(),
                            body@.blocks.len() == n,
                            body.basic_blocks@.len() == n,
                            body@.blocks[target as int] == b0.blocks[target as int],
                            hoist == b0.blocks[target as int].statements,
                            tn == hoist.len(),
                            tn == body.basic_blocks@[target as int].statements@.len(),
                            all_storage_dead(hoist),
                            k <= tn,
                            bb@.statements == b0.blocks[i as int].statements + hoist.take(k as int),
                            bb@.terminator == b0.blocks[i as int].terminator,
                            bb.is_cleanup == b0.blocks[i as int].is_cleanup,
                        decreases tn - k,
                    {
                        proof {
                            assert(body@.blocks[target as int].statements[k as int]
                                == body.basic_blocks@[target as int].statements@[k as int]@);
                            assert(hoist[k as int] is StorageDead);
                        }
                        let hs: Statement = match &body.basic_blocks[target].statements[k] {
                            Statement::StorageDead(l) => Statement::StorageDead(*l),
                            _ => Statement::Nop,
                        };
                        proof {
                            assert(hs@ == hoist[k as int]);
                            assert(hoist.take(k + 1) =~= hoist.take(k as int).push(
                                hoist[k as int],
                            ));
                        }
                        let ghost sb = bb.statements@;
                        bb.statements.push(hs);
                        proof {
                            assert(bb.statements@ == sb.push(hs));
                            assert(bb@.statements =~= sb.map_values(|s: Statement| s@).push(hs@));
                            assert(bb@.statements =~= b0.blocks[i as int].statements + hoist.take(
                                k + 1,
                            ));
                        }
                        k = k + 1;
                    }
                    bb.terminator = Terminator::Goto { target: dest };
                    proof {
                        assert(hoist.take(tn as int) =~= hoist);
                        assert(bb@ =~= spec_after.blocks[i as int]);
                        assert(body.basic_blocks@.len() == body@.blocks.len());
                    }
                    body.put_block(i, bb);
                    changed = true;
                    proof {
                        assert(body.basic_blocks@.len() == body@.blocks.len());
                        assert(const_goto_opt(b0, i as int) is Some);
                        assert forall|u: int| 0 <= u < n implies #[trigger] body@.blocks[u].is_cleanup
                            == b0.blocks[u].is_cleanup by {
                            if u <= i {
                                assert(body@.blocks[u] == spec_after.blocks[u]);
                            }
                        }
                        assert forall|m2: int| 0 <= m2 < n implies term_ok(
                            #[trigger] body@.blocks[m2].terminator,
                            body@.blocks,
                        ) by {
                            if m2 <= i {
                                assert(body@.blocks[m2].terminator
                                    == spec_after.blocks[m2].terminator);
                                assert(term_ok(spec_after.blocks[m2].terminator, spec_after.blocks));
                                assert forall|u: int|
                                    0 <= u < n implies #[trigger] body@.blocks[u].is_cleanup
                                    == spec_after.blocks[u].is_cleanup by {
                                    assert(spec_after.blocks[u].is_cleanup
                                        == b0.blocks[u].is_cleanup);
                                }
                                crate::ir::lemma_term_ok_same_shape(
                                    spec_after.blocks[m2].terminator,
                                    spec_after.blocks,
                                    body@.blocks,
                                );
                            } else {
                                assert(body@.blocks[m2].terminator == b0.blocks[m2].terminator);
                                crate::ir::lemma_term_ok_same_shape(
                                    b0.blocks[m2].terminator,
                                    b0.blocks,
                                    body@.blocks,
                                );
                            }
                        }
                    }
                },
                None => {
                    proof {
                        assert(body@.blocks[i as int] == spec_after.blocks[i as int]);
                    }
                },
            }
            i = i + 1;
        }
        proof {
            assert(body@.blocks =~= spec_after.blocks);
            assert(body@ =~= spec_after);
            lemma_const_goto_wf(b0);
        }
        changed
    }

    /// Finds and applies every constant-goto rewrite, then cleans up the CFG
    /// and the dead locals if anything changed.
    pub fn run_pass(&self, ctx: &mut Ctx, body: &mut Body)
        requires
            body_wf(old(body)@),
        ensures
            *final (ctx) == *old(ctx),
            body_wf(final (body)@),
            final (body)@.arg_count == old(body)@.arg_count,
            final (body)@.phase == old(body)@.phase,
            final (body)@.source == old(body)@.source,
            (forall|i: int| #[trigger] const_goto_opt(old(body)@, i) is None) ==> final (body)@
                == old(body)@,
            (exists|i: int| (#[trigger] const_goto_opt(old(body)@, i)) is Some) ==> final (body)@
                == simplify_locals_spec(simplify_cfg_spec(const_goto_spec(old(body)@))),
    {
        let changed = self.apply_const_gotos(body);
        if changed {
            simplify_cfg(body);
            simplify_locals(body);
        } else {
            proof {
                assert(body@.blocks =~= old(body)@.blocks);
                assert(body@ =~= old(body)@);
            }
        }
    }
}

impl ConstGotoOptimizationFinder {
    /// The scan against a snapshot: the current state of the scanned block
    /// and its goto target agree with the snapshot, so the result speaks of
    /// the snapshot.
    fn find_opt_frozen(body: &Body, i: usize, Ghost(b0): Ghost<BodyV>) -> (r: Option<usize>)
        requires
            body_wf(body@),
            i < body@.blocks.len(),
            b0.blocks.len() == body@.blocks.len(),
            body@.blocks[i as int] == b0.blocks[i as int],
            forall|m: int|
                0 <= m < b0.blocks.len() ==> body@.blocks[m] == b0.blocks[m] || ((
                #[trigger] const_goto_opt(b0, m)) is Some
                    && body@.blocks[m].terminator is Goto),
        ensures
            r is Some <==> const_goto_opt(b0, i as int) is Some,
            r is Some ==> r->0 == (const_goto_opt(b0, i as int)->0).0,
    {
        proof {
            assert(body@.blocks[i as int] == body.basic_blocks@[i as int]@);
        }
        let target: usize = match &body.basic_blocks[i].terminator {
            Terminator::Goto { target } => *target,
            _ => {
                return None;
            },
        };
        proof {
            assert(term_ok(body@.blocks[i as int].terminator, body@.blocks));
            assert(body@.blocks[i as int].terminator.succs()[0] == target);
        }
        let sn = body.basic_blocks[i].statements.len();
        if sn == 0 {
            return None;
        }
        let (place, c): (&Place, crate::ir::Constant) = match &body.basic_blocks[i].statements[sn
            - 1] {
            Statement::Assign(p, Rvalue::Use(Operand::Constant(c))) => (p, *c),
            _ => {
                return None;
            },
        };
        proof {
            assert(body@.blocks[i as int].statements[sn - 1] == body.basic_blocks@[i as int].statements@[sn
                - 1]@);
            assert(trailing_const_assign(b0.blocks[i as int]) == Some((place@, c)));
            // A pattern in the snapshot needs its target block untouched; a
            // rewritten target would end in a goto, not a switch.
            if const_goto_opt(b0, i as int) is Some {
                assert(const_goto_opt(b0, target as int) is None);
                assert(!(const_goto_opt(b0, target as int) is Some
                    && body@.blocks[target as int].terminator is Goto));
                assert(body@.blocks[target as int] == b0.blocks[target as int]);
                assert(all_storage_dead(b0.blocks[target as int].statements));
            }
        }
        let tn = body.basic_blocks[target].statements.len();
        let mut k: usize = 0;
        while k < tn
            invariant
                body_wf(body@),
                target < body@.blocks.len(),
                tn == body@.blocks[target as int].statements.len(),
                tn == body.basic_blocks@[target as int].statements@.len(),
                k <= tn,
                const_goto_opt(b0, i as int) is Some ==> body@.blocks[target as int]
                    == b0.blocks[target as int] && all_storage_dead(
                    b0.blocks[target as int].statements,
                ),
                forall|x: int|
                    0 <= x < k ==> (#[trigger] body@.blocks[target as int].statements[x]) is StorageDead,
            decreases tn - k,
        {
            proof {
                assert(body@.blocks[target as int].statements[k as int]
                    == body.basic_blocks@[target as int].statements@[k as int]@);
            }
            match &body.basic_blocks[target].statements[k] {
                Statement::StorageDead(_) => {},
                _ => {
                    proof {
                        if const_goto_opt(b0, i as int) is Some {
                            assert(b0.blocks[target as int].statements[k as int] is StorageDead);
                            assert(body@.blocks[target as int].statements[k as int] is StorageDead);
                            assert(false);
                        }
                    }
                    return None;
                },
            }
            k = k + 1;
        }
        proof {
            assert(body@.blocks[target as int] == body.basic_blocks@[target as int]@);
        }
        match &body.basic_blocks[target].terminator {
            Terminator::SwitchInt { discr, switch_ty, targets } => {
                proof {
                    // The switch rules out a rewritten target, so the
                    // current block agrees with the snapshot from here on.
                    assert(body@.blocks[target as int].terminator is SwitchInt);
                    if body@.blocks[target as int] != b0.blocks[target as int] {
                        assert(const_goto_opt(b0, target as int) is Some);
                        assert(body@.blocks[target as int].terminator is Goto);
                        assert(false);
                    }
                    assert(all_storage_dead(b0.blocks[target as int].statements)) by {
                        assert(b0.blocks[target as int].statements
                            == body@.blocks[target as int].statements);
                        assert forall|x: int|
                            0 <= x < b0.blocks[target as int].statements.len() implies (
                        #[trigger] b0.blocks[target as int].statements[x]) is StorageDead by {
                            assert(body@.blocks[target as int].statements[x] is StorageDead);
                        }
                    }
                }
                if !(targets.targets.len() >= 1 && targets.targets.len() - 1
                    == targets.values.len()) {
                    proof {
                        if const_goto_opt(b0, i as int) is Some {
                            assert(false);
                        }
                    }
                    return None;
                }
                let dp: &Place = match discr {
                    Operand::Copy(p) => p,
                    Operand::Move(p) => p,
                    Operand::Constant(_) => {
                        proof {
                            if const_goto_opt(b0, i as int) is Some {
                                assert(false);
                            }
                        }
                        return None;
                    },
                };
                if !crate::ir::place_eq(dp, place) {
                    proof {
                        if const_goto_opt(b0, i as int) is Some {
                            assert(false);
                        }
                    }
                    return None;
                }
                match crate::ir::const_try_eval_bits(&c, *switch_ty) {
                    Some(v) => {
                        let dest = targets.target_for_value(v);
                        proof {
                            assert(const_goto_opt(b0, i as int) == Some(
                                (dest, b0.blocks[target as int].statements),
                            ));
                        }
                        Some(dest)
                    },
                    None => {
                        proof {
                            if const_goto_opt(b0, i as int) is Some {
                                assert(false);
                            }
                        }
                        None
                    },
                }
            },
            _ => {
                proof {
                    if const_goto_opt(b0, i as int) is Some {
                        assert(const_goto_opt(b0, target as int) is None);
                        assert(body@.blocks[target as int] == b0.blocks[target as int]);
                        assert(false);
                    }
                }
                None
            },
        }
    }
}

} // verus!
