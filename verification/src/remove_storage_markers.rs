//! A pass that removes storage markers when codegen will not emit lifetime
//! markers anyway; it also drops no-op statements along the way.

use vstd::prelude::*;

use crate::context::{Ctx, Session};
use crate::ir::{
    body_wf, lemma_filter_take_step, lemma_term_ok_same_shape, term_ok, BasicBlock, BasicBlockV,
    Body, BodyV, Statement, StatementV,
};

verus! {

/// Whether a statement survives storage-marker removal.
pub open spec fn keeps_statement(s: StatementV) -> bool {
    !(s is StorageLive || s is StorageDead || s is Nop)
}

/// A block with its storage markers and no-ops removed.
pub open spec fn strip_markers_block(bb: BasicBlockV) -> BasicBlockV {
    BasicBlockV {
        statements: bb.statements.filter(|s: StatementV| keeps_statement(s)),
        terminator: bb.terminator,
        is_cleanup: bb.is_cleanup,
    }
}

/// What the pass produces when it is not skipped.
pub open spec fn strip_markers_spec(b: BodyV) -> BodyV {
    BodyV {
        blocks: b.blocks.map_values(|bb: BasicBlockV| strip_markers_block(bb)),
        locals: b.locals,
        arg_count: b.arg_count,
        debug: b.debug,
        phase: b.phase,
        source: b.source,
    }
}

/// Removes storage markers if they will not be emitted during codegen.
pub struct RemoveStorageMarkers;

impl RemoveStorageMarkers {
    /// Whether the pass runs at the given session options.
    pub open spec fn enabled_spec(sess: Session) -> bool {
        sess.mir_opt_level > 0
    }

    /// Executable counterpart of [`RemoveStorageMarkers::enabled_spec`].
    pub fn is_enabled(&self, sess: &Session) -> (r: bool)
        ensures
            r == Self::enabled_spec(*sess),
    {
        sess.mir_opt_level > 0
    }

    /// Drops every storage marker and no-op statement from the body, unless
    /// the session wants lifetime markers kept.
    pub fn run_pass(&self, ctx: &mut Ctx, body: &mut Body)
        requires
            body_wf(old(body)@),
        ensures
            *final (ctx) == *old(ctx),
            body_wf(final (body)@),
            final (body)@ == (if old(ctx).sess.emit_lifetime_markers {
                old(body)@
            } else {
                strip_markers_spec(old(body)@)
            }),
    {
        if ctx.sess.emit_lifetime_markers {
            return ;
        }
        let n = body.basic_blocks.len();
        let mut i: usize = 0;
        while i < n
            invariant
                body_wf(old(body)@),
                n == old(body)@.blocks.len(),
                body@.blocks.len() == n,
                i <= n,
                forall|m: int| 0 <= m < i ==> #[trigger] body@.blocks[m] == strip_markers_block(
                    old(body)@.blocks[m],
                ),
                forall|m: int| i <= m < n ==> #[trigger] body@.blocks[m] == old(body)@.blocks[m],
                body@.locals == old(body)@.locals,
                body@.arg_count == old(body)@.arg_count,
                body@.debug == old(body)@.debug,
                body@.phase == old(body)@.phase,
                body@.source == old(body)@.source,
            decreases n - i,
        {
            let bb = body.take_block(i);
            let ghost bbv = bb@;
            let mut stmts = bb.statements;
            let terminator = bb.terminator;
            let is_cleanup = bb.is_cleanup;
            let ghost sv = stmts@.map_values(|s: Statement| s@);
            let mut out: Vec<Statement> = Vec::new();
            let sn = stmts.len();
            let mut k: usize = 0;
            proof {
                reveal_with_fuel(Seq::<int>::filter, 1);
                assert(stmts@.map_values(|s: Statement| s@) =~= sv.skip(0));
                assert(sv.take(0).len() == 0);
                assert(out@.map_values(|s: Statement| s@) =~= sv.take(0).filter(
                    |s: StatementV| keeps_statement(s),
                ));
            }
            while k < sn
                invariant
                    k <= sn,
                    sn == sv.len(),
                    stmts@.map_values(|s: Statement| s@) == sv.skip(k as int),
                    out@.map_values(|s: Statement| s@) == sv.take(k as int).filter(
                        |s: StatementV| keeps_statement(s),
                    ),
                decreases sn - k,
            {
                let ghost sbefore = stmts@;
                proof {
                    assert(sbefore.map_values(|s: Statement| s@).len() == sbefore.len());
                }
                let st = stmts.remove(0);
                proof {
                    assert(sbefore.map_values(|s: Statement| s@)[0] == st@);
                    assert(st@ == sv[k as int]);
                    assert forall|x: int| 0 <= x < stmts@.len() implies (#[trigger] stmts@[x])@
                        == sv.skip(k + 1)[x] by {
                        assert(stmts@[x] == sbefore[x + 1]);
                        assert(sbefore.map_values(|s: Statement| s@)[x + 1] == sv.skip(
                            k as int,
                        )[x + 1]);
                    }
                    assert(stmts@.map_values(|s: Statement| s@) =~= sv.skip(k + 1));
                    lemma_filter_take_step(sv, |s: StatementV| keeps_statement(s), k as int);
                }
                let keep = match &st {
                    Statement::StorageLive(_) => false,
                    Statement::StorageDead(_) => false,
                    Statement::Nop => false,
                    _ => true,
                };
                proof {
                    assert(keep == keeps_statement(st@));
                }
                if keep {
                    let ghost obefore = out@;
                    out.push(st);
                    proof {
                        assert(out@.map_values(|s: Statement| s@) =~= obefore.map_values(
                            |s: Statement| s@,
                        ).push(sv[k as int]));
                    }
                }
                k = k + 1;
            }
            proof {
                assert(sv.take(sn as int) =~= sv);
            }
            let newbb = BasicBlock { statements: out, terminator, is_cleanup };
            proof {
                assert(newbb@ =~= strip_markers_block(bbv));
                assert(body.basic_blocks@.len() == body@.blocks.len());
            }
            body.put_block(i, newbb);
            i = i + 1;
        }
        proof {
            assert(body@.blocks =~= old(body)@.blocks.map_values(
                |bb: BasicBlockV| strip_markers_block(bb),
            ));
            assert(body@ =~= strip_markers_spec(old(body)@));
            assert forall|m: int| 0 <= m < n implies term_ok(
                #[trigger] body@.blocks[m].terminator,
                body@.blocks,
            ) by {
                lemma_term_ok_same_shape(
                    old(body)@.blocks[m].terminator,
                    old(body)@.blocks,
                    body@.blocks,
                );
            }
        }
    }
}

} // verus!
