//! A pass that replaces a drop of a type that does not need dropping with a
//! goto. It runs after type checking, so it sees fully revealed types through
//! the needs-destruction query.

use vstd::prelude::*;

use crate::context::{Ctx, Session};
use crate::ir::{
    body_wf, lemma_term_ok_same_shape, place_ty, term_ok, BasicBlockV, Body, BodyV, LocalDecl,
    Terminator, TerminatorV,
};
use crate::simplify::{simplify_cfg, simplify_cfg_spec};

verus! {

/// Whether the pass rewrites a block's terminator: a drop of a place whose
/// type needs no destruction becomes a goto to the drop's target.
pub open spec fn drop_removable(ctx: Ctx, locals: Seq<LocalDecl>, t: TerminatorV) -> bool {
    match t {
        TerminatorV::Drop { place, target, unwind } => match place_ty(locals, place) {
            Some(ty) => !ctx.type_info(ty).needs_drop,
            None => false,
        },
        _ => false,
    }
}

/// The rewriting the pass performs before cleanup.
pub open spec fn remove_drops_spec(ctx: Ctx, b: BodyV) -> BodyV {
    BodyV {
        blocks: b.blocks.map_values(
            |bb: BasicBlockV| BasicBlockV {
                statements: bb.statements,
                terminator: (match bb.terminator {
                    TerminatorV::Drop { place, target, unwind } => {
                        if drop_removable(ctx, b.locals, bb.terminator) {
                            TerminatorV::Goto { target }
                        } else {
                            bb.terminator
                        }
                    },
                    _ => bb.terminator,
                }),
                is_cleanup: bb.is_cleanup,
            },
        ),
        locals: b.locals,
        arg_count: b.arg_count,
        debug: b.debug,
        phase: b.phase,
        source: b.source,
    }
}

/// Replaces drops of types that need no destruction with gotos.
pub struct RemoveUnneededDrops;

impl RemoveUnneededDrops {
    /// Whether the pass runs; it is part of every pipeline.
    pub open spec fn enabled_spec(sess: Session) -> bool {
        true
    }

    /// Executable counterpart of [`RemoveUnneededDrops::enabled_spec`].
    pub fn is_enabled(&self, sess: &Session) -> (r: bool)
        ensures
            r == Self::enabled_spec(*sess),
    {
        true
    }

    /// The rewrite phase: turns each removable drop into a goto, with one
    /// cost-collaborator consultation per rewrite, and reports whether
    /// anything changed.
    pub fn remove_drops(&self, ctx: &mut Ctx, body: &mut Body) -> (changed: bool)
        requires
            body_wf(old(body)@),
        ensures
            old(ctx).same_queries(*final (ctx)),
            final (ctx).dumps@ == old(ctx).dumps@,
            final (ctx).diagnostics@ == old(ctx).diagnostics@,
            final (ctx).reported_derives@ == old(ctx).reported_derives@,
            body_wf(final (body)@),
            old(ctx).fuel_unlimited() ==> final (body)@ == remove_drops_spec(
                *old(ctx),
                old(body)@,
            ),
            old(ctx).fuel_unlimited() ==> final (ctx).fuel_unlimited(),
            !changed ==> final (body)@ == old(body)@,
            old(ctx).fuel_unlimited() ==> (changed <==> exists|m: int|
                0 <= m < old(body)@.blocks.len() && drop_removable(
                    *old(ctx),
                    old(body)@.locals,
                    (#[trigger] old(body)@.blocks[m]).terminator,
                )),
            old(ctx).fuel == Some(0u64) ==> !changed,
            final (body)@.locals == old(body)@.locals,
            final (body)@.arg_count == old(body)@.arg_count,
            final (body)@.debug == old(body)@.debug,
            final (body)@.phase == old(body)@.phase,
            final (body)@.source == old(body)@.source,
    {
        let ghost spec_body = remove_drops_spec(*old(ctx), old(body)@);
        let n = body.basic_blocks.len();
        let mut changed = false;
        let mut i: usize = 0;
        while i < n
            invariant
                body_wf(old(body)@),
                body_wf(body@),
                n == old(body)@.blocks.len(),
                body@.blocks.len() == n,
                body.basic_blocks@.len() == n,
                i <= n,
                spec_body == remove_drops_spec(*old(ctx), old(body)@),
                old(ctx).same_queries(*ctx),
                ctx.dumps@ == old(ctx).dumps@,
                ctx.diagnostics@ == old(ctx).diagnostics@,
                ctx.reported_derives@ == old(ctx).reported_derives@,
                old(ctx).fuel_unlimited() ==> ctx.fuel_unlimited(),
                old(ctx).fuel_unlimited() ==> forall|m: int|
                    0 <= m < i ==> #[trigger] body@.blocks[m] == spec_body.blocks[m],
                forall|m: int| i <= m < n ==> #[trigger] body@.blocks[m] == old(body)@.blocks[m],
                !changed ==> forall|m: int| 0 <= m < n ==> #[trigger] body@.blocks[m] == old(
                    body,
                )@.blocks[m],
                old(ctx).fuel_unlimited() ==> (changed <==> exists|m: int|
                    0 <= m < i && drop_removable(
                        *old(ctx),
                        old(body)@.locals,
                        (#[trigger] old(body)@.blocks[m]).terminator,
                    )),
                old(ctx).fuel == Some(0u64) ==> ctx.fuel == Some(0u64) && !changed,
                body@.locals == old(body)@.locals,
                body@.arg_count == old(body)@.arg_count,
                body@.debug == old(body)@.debug,
                body@.phase == old(body)@.phase,
                body@.source == old(body)@.source,
            decreases n - i,
        {
            proof {
                assert(body@.blocks[i as int] == body.basic_blocks@[i as int]@);
                assert(term_ok(body@.blocks[i as int].terminator, body@.blocks));
                match body@.blocks[i as int].terminator {
                    TerminatorV::Drop { target, .. } => {
                        assert(body@.blocks[i as int].terminator.succs()[0] == target);
                    },
                    _ => {},
                }
            }
            let rewrite: Option<usize> = match &body.basic_blocks[i].terminator {
                Terminator::Drop { place, target, .. } => {
                    match crate::ir::place_ty_of(&body.local_decls, place) {
                        Some(ty) => {
                            if !ctx.type_info_of(ty).needs_drop {
                                Some(*target)
                            } else {
                                None
                            }
                        },
                        None => None,
                    }
                },
                _ => None,
            };
            match rewrite {
                Some(target) => {
                    if ctx.consider_optimizing() {
                        let ghost prev = body@.blocks;
                        let mut bb = body.take_block(i);
                        bb.terminator = Terminator::Goto { target };
                        proof {
                            assert(body.basic_blocks@.len() == body@.blocks.len());
                        }
                        body.put_block(i, bb);
                        changed = true;
                        proof {
                            assert(body.basic_blocks@.len() == body@.blocks.len());
                            assert(body@.blocks =~= prev.update(
                                i as int,
                                BasicBlockV {
                                    statements: prev[i as int].statements,
                                    terminator: TerminatorV::Goto { target },
                                    is_cleanup: prev[i as int].is_cleanup,
                                },
                            ));
                            assert forall|m: int| 0 <= m < n implies term_ok(
                                #[trigger] body@.blocks[m].terminator,
                                body@.blocks,
                            ) by {
                                if m != i {
                                    lemma_term_ok_same_shape(prev[m].terminator, prev, body@.blocks);
                                } else {
                                    lemma_term_ok_same_shape(
                                        prev[m].terminator,
                                        prev,
                                        body@.blocks,
                                    );
                                    assert(prev[m].terminator.succs().contains(target)) by {
                                        assert(prev[m].terminator.succs()[0] == target);
                                    }
                                    assert(body@.blocks[m].terminator.succs()[0] == target);
                                }
                            }
                            assert(body@.blocks[i as int] =~= spec_body.blocks[i as int]);
                        }
                    } else {
                        proof {
                            assert(!old(ctx).fuel_unlimited());
                        }
                    }
                },
                None => {
                    proof {
                        if old(ctx).fuel_unlimited() {
                            assert(body@.blocks[i as int] =~= spec_body.blocks[i as int]);
                        }
                    }
                },
            }
            i = i + 1;
        }
        proof {
            if old(ctx).fuel_unlimited() {
                assert(body@.blocks =~= spec_body.blocks);
                assert(body@ =~= spec_body);
            }
            if !changed {
                assert(body@.blocks =~= old(body)@.blocks);
                assert(body@ =~= old(body)@);
            }
        }
        changed
    }

    /// Rewrites every removable drop and, if anything changed, runs CFG
    /// simplification.
    pub fn run_pass(&self, ctx: &mut Ctx, body: &mut Body)
        requires
            body_wf(old(body)@),
        ensures
            old(ctx).same_queries(*final (ctx)),
            final (ctx).dumps@ == old(ctx).dumps@,
            final (ctx).diagnostics@ == old(ctx).diagnostics@,
            final (ctx).reported_derives@ == old(ctx).reported_derives@,
            body_wf(final (body)@),
            old(ctx).fuel_unlimited() ==> final (body)@ == (if exists|m: int|
                0 <= m < old(body)@.blocks.len() && drop_removable(
                    *old(ctx),
                    old(body)@.locals,
                    (#[trigger] old(body)@.blocks[m]).terminator,
                ) {
                simplify_cfg_spec(remove_drops_spec(*old(ctx), old(body)@))
            } else {
                old(body)@
            }),
            old(ctx).fuel == Some(0u64) ==> final (body)@ == old(body)@,
            final (body)@.locals == old(body)@.locals,
            final (body)@.arg_count == old(body)@.arg_count,
            final (body)@.debug == old(body)@.debug,
            final (body)@.phase == old(body)@.phase,
            final (body)@.source == old(body)@.source,
    {
        let changed = self.remove_drops(ctx, body);
        if changed {
            simplify_cfg(body);
        }
    }
}

} // verus!
