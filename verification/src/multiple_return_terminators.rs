//! A pass that removes jumps to basic blocks containing only a return, and
//! replaces them with a return instead.

use vstd::prelude::*;

use crate::context::{Ctx, Session};
use crate::ir::{
    body_wf, lemma_term_ok_same_shape, term_ok, BasicBlockV, Body, BodyV, Terminator, TerminatorV,
};
use crate::simplify::{remove_dead_blocks, remove_dead_blocks_spec};

verus! {

/// A block holding nothing but a bare return.
pub open spec fn is_simple_return(bb: BasicBlockV) -> bool {
    bb.statements.len() == 0 && bb.terminator is Return
}

/// The rewriting the pass performs before cleanup: every goto into a
/// simple-return block becomes a return itself.
pub open spec fn fold_returns_spec(b: BodyV) -> BodyV {
    BodyV {
        blocks: b.blocks.map_values(
            |bb: BasicBlockV| BasicBlockV {
                statements: bb.statements,
                terminator: (match bb.terminator {
                    TerminatorV::Goto { target } => {
                        if target < b.blocks.len() && is_simple_return(b.blocks[target as int]) {
                            TerminatorV::Return
                        } else {
                            bb.terminator
                        }
                    },
                    _ => bb.terminator,
                }),
                is_cleanup: bb.is_cleanup,
            },
        ),
        locals: b.locals,
        arg_count: b.arg_count,
        debug: b.debug,
        phase: b.phase,
        source: b.source,
    }
}

/// Folds chains of gotos into empty return blocks directly to returns.
pub struct MultipleReturnTerminators;

impl MultipleReturnTerminators {
    /// Whether the pass runs at the given session options.
    pub open spec fn enabled_spec(sess: Session) -> bool {
        sess.mir_opt_level >= 4
    }

    /// Executable counterpart of [`MultipleReturnTerminators::enabled_spec`].
    pub fn is_enabled(&self, sess: &Session) -> (r: bool)
        ensures
            r == Self::enabled_spec(*sess),
    {
        sess.mir_opt_level >= 4
    }

    /// Replaces each goto into an empty return block with a return, checked
    /// per block against the cost collaborator, then removes dead blocks.
    pub fn run_pass(&self, ctx: &mut Ctx, body: &mut Body)
        requires
            body_wf(old(body)@),
        ensures
            old(ctx).same_queries(*final (ctx)),
            final (ctx).dumps@ == old(ctx).dumps@,
            final (ctx).diagnostics@ == old(ctx).diagnostics@,
            final (ctx).reported_derives@ == old(ctx).reported_derives@,
            body_wf(final (body)@),
            old(ctx).fuel_unlimited() ==> final (body)@ == remove_dead_blocks_spec(
                fold_returns_spec(old(body)@),
            ),
            old(ctx).fuel == Some(0u64) ==> final (body)@ == remove_dead_blocks_spec(
                old(body)@,
            ),
            old(ctx).fuel_unlimited() ==> final (ctx).fuel_unlimited(),
            final (body)@.locals == old(body)@.locals,
            final (body)@.arg_count == old(body)@.arg_count,
            final (body)@.debug == old(body)@.debug,
            final (body)@.phase == old(body)@.phase,
            final (body)@.source == old(body)@.source,
    {
        // Find the blocks with no statement and a bare return terminator.
        let n = body.basic_blocks.len();
        let mut simple_returns: Vec<bool> = Vec::new();
        let mut i: usize = 0;
        while i < n
            invariant
                n == body.basic_blocks@.len(),
                i <= n,
                simple_returns@.len() == i,
                forall|m: int| 0 <= m < i ==> (#[trigger] simple_returns@[m] <==> is_simple_return(
                    body@.blocks[m],
                )),
            decreases n - i,
        {
            let bb = &body.basic_blocks[i];
            let sr = bb.statements.len() == 0 && match &bb.terminator {
                Terminator::Return => true,
                _ => false,
            };
            proof {
                assert(body@.blocks[i as int] == body.basic_blocks@[i as int]@);
            }
            simple_returns.push(sr);
            i = i + 1;
        }
        let mut i: usize = 0;
        while i < n
            invariant
                body_wf(old(body)@),
                body_wf(body@),
                n == old(body)@.blocks.len(),
                n <= usize::MAX,
                body@.blocks.len() == n,
                body.basic_blocks@.len() == n,
                simple_returns@.len() == n,
                forall|m: int| 0 <= m < n ==> (#[trigger] simple_returns@[m] <==> is_simple_return(
                    old(body)@.blocks[m],
                )),
                i <= n,
                old(ctx).same_queries(*ctx),
                ctx.dumps@ == old(ctx).dumps@,
                ctx.diagnostics@ == old(ctx).diagnostics@,
                ctx.reported_derives@ == old(ctx).reported_derives@,
                old(ctx).fuel_unlimited() ==> ctx.fuel_unlimited(),
                old(ctx).fuel == Some(0u64) ==> ctx.fuel == Some(0u64) && forall|m: int|
                    0 <= m < n ==> #[trigger] body@.blocks[m] == old(body)@.blocks[m],
                old(ctx).fuel_unlimited() ==> forall|m: int|
                    0 <= m < i ==> #[trigger] body@.blocks[m] == fold_returns_spec(
                        old(body)@,
                    ).blocks[m],
                forall|m: int| i <= m < n ==> #[trigger] body@.blocks[m] == old(body)@.blocks[m],
                forall|m: int|
                    0 <= m < i ==> #[trigger] body@.blocks[m] == fold_returns_spec(
                        old(body)@,
                    ).blocks[m] || body@.blocks[m] == old(body)@.blocks[m],
                body@.locals == old(body)@.locals,
                body@.arg_count == old(body)@.arg_count,
                body@.debug == old(body)@.debug,
                body@.phase == old(body)@.phase,
                body@.source == old(body)@.source,
            ensures
                body_wf(body@),
                body@.blocks.len() == n,
                old(ctx).fuel == Some(0u64) ==> forall|m: int|
                    0 <= m < n ==> #[trigger] body@.blocks[m] == old(body)@.blocks[m],
                old(ctx).same_queries(*ctx),
                ctx.dumps@ == old(ctx).dumps@,
                ctx.diagnostics@ == old(ctx).diagnostics@,
                ctx.reported_derives@ == old(ctx).reported_derives@,
                old(ctx).fuel_unlimited() ==> ctx.fuel_unlimited(),
                old(ctx).fuel_unlimited() ==> forall|m: int|
                    0 <= m < n ==> #[trigger] body@.blocks[m] == fold_returns_spec(
                        old(body)@,
                    ).blocks[m],
                body@.locals == old(body)@.locals,
                body@.arg_count == old(body)@.arg_count,
                body@.debug == old(body)@.debug,
                body@.phase == old(body)@.phase,
                body@.source == old(body)@.source,
            decreases n - i,
        {
            if !ctx.consider_optimizing() {
                proof {
                    assert(!old(ctx).fuel_unlimited());
                }
                break ;
            }
            proof {
                assert(body@.blocks[i as int] == body.basic_blocks@[i as int]@);
                assert(term_ok(body@.blocks[i as int].terminator, body@.blocks));
                match body@.blocks[i as int].terminator {
                    TerminatorV::Goto { target } => {
                        assert(body@.blocks[i as int].terminator.succs()[0] == target);
                    },
                    _ => {},
                }
            }
            let fold: bool = match &body.basic_blocks[i].terminator {
                Terminator::Goto { target } => simple_returns[*target],
                _ => false,
            };
            if fold {
                let ghost prev = body@.blocks;
                let mut bb = body.take_block(i);
                bb.terminator = Terminator::Return;
                proof {
                    assert(body.basic_blocks@.len() == body@.blocks.len());
                }
                body.put_block(i, bb);
                proof {
                    assert(body.basic_blocks@.len() == body@.blocks.len());
                    assert(body@.blocks =~= prev.update(
                        i as int,
                        BasicBlockV {
                            statements: prev[i as int].statements,
                            terminator: TerminatorV::Return,
                            is_cleanup: prev[i as int].is_cleanup,
                        },
                    ));
                    assert forall|m: int| 0 <= m < n implies term_ok(
                        #[trigger] body@.blocks[m].terminator,
                        body@.blocks,
                    ) by {
                        if m != i {
                            lemma_term_ok_same_shape(prev[m].terminator, prev, body@.blocks);
                        }
                    }
                    assert(body@.blocks[i as int] =~= fold_returns_spec(
                        old(body)@,
                    ).blocks[i as int]);
                }
            } else {
                proof {
                    if old(ctx).fuel_unlimited() {
                        assert(body@.blocks[i as int] =~= fold_returns_spec(
                            old(body)@,
                        ).blocks[i as int]);
                    }
                }
            }
            i = i + 1;
        }
        proof {
            if old(ctx).fuel_unlimited() {
                assert(body@.blocks =~= fold_returns_spec(old(body)@).blocks);
                assert(body@ =~= fold_returns_spec(old(body)@));
            }
            if old(ctx).fuel == Some(0u64) {
                assert(body@.blocks =~= old(body)@.blocks);
                assert(body@ =~= old(body)@);
            }
        }
        remove_dead_blocks(body);
    }
}

} // verus!
