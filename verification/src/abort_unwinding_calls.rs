//! A pass that upholds the codegen guarantees about unwinding for functions
//! whose own calling convention promises not to unwind.
//!
//! Codegen treats such functions as never unwinding, and it is
//! undefined behavior if they do. A call into a callee that may unwind must
//! therefore not let the unwind escape: its unwind edge is redirected to a
//! single synthetic cleanup block that aborts the process. Unwind edges of
//! calls that cannot unwind are dead and are removed instead.

use vstd::prelude::*;

use crate::context::{Ctx, Session, ABI_RUST, ABI_RUST_CALL};
use crate::ir::{
    body_wf, lemma_term_ok_grow, term_ok, BasicBlock, BasicBlockV, Body, BodyV, DefKind, Source,
    StatementV, Terminator, TerminatorV,
};
use crate::simplify::remove_dead_blocks;
use crate::simplify::remove_dead_blocks_spec;

verus! {

/// Whether this body is an executable function, closure or generator; the
/// pass skips everything else.
pub open spec fn is_function(kind: DefKind) -> bool {
    match kind {
        DefKind::Fn => true,
        DefKind::AssocFn => true,
        DefKind::Ctor => true,
        DefKind::Closure => true,
        DefKind::Generator => true,
        DefKind::Other => false,
    }
}

/// The calling convention under which this body itself runs.
pub open spec fn body_abi(ctx: Ctx, src: Source) -> usize {
    match src.kind {
        DefKind::Closure => ABI_RUST_CALL,
        DefKind::Generator => ABI_RUST,
        _ => ctx.spec_fn_abi(src.def_id),
    }
}

/// Whether this body's own signature permits unwinding.
pub open spec fn body_can_unwind(ctx: Ctx, src: Source) -> bool {
    ctx.spec_fn_can_unwind(Some(src.def_id), body_abi(ctx, src))
}

/// Whether a terminator's operation may raise exceptional control flow:
/// `None` for terminators that are not exceptional at all, `Some(b)` with
/// the answer of the calling-convention query otherwise.
pub open spec fn call_can_unwind(ctx: Ctx, t: TerminatorV) -> Option<bool> {
    match t {
        TerminatorV::Call { callee, callee_abi, .. } => Some(
            ctx.spec_fn_can_unwind(callee, callee_abi),
        ),
        TerminatorV::Drop { .. } => Some(
            ctx.sess.panic_in_drop_unwind && ctx.spec_fn_can_unwind(None, ABI_RUST),
        ),
        TerminatorV::DropAndReplace { .. } => Some(
            ctx.sess.panic_in_drop_unwind && ctx.spec_fn_can_unwind(None, ABI_RUST),
        ),
        TerminatorV::Assert { .. } => Some(ctx.spec_fn_can_unwind(None, ABI_RUST)),
        TerminatorV::FalseUnwind { .. } => Some(ctx.spec_fn_can_unwind(None, ABI_RUST)),
        _ => None,
    }
}

/// The synthetic cleanup block that aborts the process.
pub open spec fn abort_block() -> BasicBlockV {
    BasicBlockV {
        statements: Seq::<StatementV>::empty(),
        terminator: TerminatorV::Abort,
        is_cleanup: true,
    }
}

/// Whether the pass must create the abort block: the body itself cannot
/// unwind, and some non-cleanup block performs an operation that can.
pub open spec fn needs_abort_block(ctx: Ctx, b: BodyV) -> bool {
    !body_can_unwind(ctx, b.source) && exists|i: int|
        0 <= i < b.blocks.len() && !(#[trigger] b.blocks[i]).is_cleanup && call_can_unwind(
            ctx,
            b.blocks[i].terminator,
        ) == Some(true)
}

/// How one block's terminator is rewritten: a dead unwind edge is removed;
/// an unwind that would escape a non-unwinding body is redirected to the
/// abort block.
pub open spec fn abort_rewrite_block(ctx: Ctx, b: BodyV, bb: BasicBlockV) -> BasicBlockV {
    BasicBlockV {
        statements: bb.statements,
        terminator: (if !bb.is_cleanup {
            match call_can_unwind(ctx, bb.terminator) {
                Some(false) => bb.terminator.with_unwind(None),
                Some(true) => {
                    if !body_can_unwind(ctx, b.source) {
                        bb.terminator.with_unwind(Some(b.blocks.len() as usize))
                    } else {
                        bb.terminator
                    }
                },
                _ => bb.terminator,
            }
        } else {
            bb.terminator
        }),
        is_cleanup: bb.is_cleanup,
    }
}

/// The body after rewriting, before dead blocks are removed: every block's
/// unwind edges adjusted, and the abort block appended when needed.
pub open spec fn abort_rewrite_spec(ctx: Ctx, b: BodyV) -> BodyV {
    BodyV {
        blocks: b.blocks.map_values(|bb: BasicBlockV| abort_rewrite_block(ctx, b, bb)) + (
        if needs_abort_block(ctx, b) {
            seq![abort_block()]
        } else {
            Seq::<BasicBlockV>::empty()
        }),
        locals: b.locals,
        arg_count: b.arg_count,
        debug: b.debug,
        phase: b.phase,
        source: b.source,
    }
}

/// Forces all unwinding that a non-unwinding function could observe to abort
/// the process.
pub struct AbortUnwindingCalls;

impl AbortUnwindingCalls {
    /// Whether the pass runs; it is part of every pipeline.
    pub open spec fn enabled_spec(sess: Session) -> bool {
        true
    }

    /// Executable counterpart of [`AbortUnwindingCalls::enabled_spec`].
    pub fn is_enabled(&self, sess: &Session) -> (r: bool)
        ensures
            r == Self::enabled_spec(*sess),
    {
        true
    }

    /// Adjusts every unwind edge of the body as the calling-convention query
    /// dictates, then removes the cleanup blocks that became unreachable.
    pub fn run_pass(&self, ctx: &mut Ctx, body: &mut Body)
        requires
            body_wf(old(body)@),
        ensures
            *final (ctx) == *old(ctx),
            body_wf(final (body)@),
            !is_function(old(body)@.source.kind) ==> final (body)@ == old(body)@,
            is_function(old(body)@.source.kind) ==> final (body)@ == remove_dead_blocks_spec(
                abort_rewrite_spec(*old(ctx), old(body)@),
            ),
            final (body)@.phase == old(body)@.phase,
    {
        let is_fn = match body.source.kind {
            DefKind::Fn => true,
            DefKind::AssocFn => true,
            DefKind::Ctor => true,
            DefKind::Closure => true,
            DefKind::Generator => true,
            DefKind::Other => false,
        };
        if !is_fn {
            return ;
        }
        let abi = match body.source.kind {
            DefKind::Closure => ABI_RUST_CALL,
            DefKind::Generator => ABI_RUST,
            _ => ctx.fn_abi_of(body.source.def_id),
        };
        let bcu = ctx.fn_can_unwind(Some(body.source.def_id), abi);
        proof {
            assert(bcu == body_can_unwind(*ctx, body@.source));
        }
        // First scan: does any non-cleanup block perform an operation that
        // can unwind, while the body itself cannot?
        let n = body.basic_blocks.len();
        let mut needs_abort = false;
        let mut i: usize = 0;
        while i < n
            invariant
                n == body.basic_blocks@.len(),
                i <= n,
                needs_abort == (!body_can_unwind(*ctx, body@.source) && exists|m: int|
                    0 <= m < i && !(#[trigger] body@.blocks[m]).is_cleanup && call_can_unwind(
                        *ctx,
                        body@.blocks[m].terminator,
                    ) == Some(true)),
                bcu == body_can_unwind(*ctx, body@.source),
            decreases n - i,
        {
            let bb = &body.basic_blocks[i];
            proof {
                assert(body@.blocks[i as int] == body.basic_blocks@[i as int]@);
            }
            if !bb.is_cleanup && !bcu {
                let ccu: Option<bool> = Self::terminator_can_unwind(ctx, &bb.terminator);
                match ccu {
                    Some(true) => {
                        proof {
                            assert(!(body@.blocks[i as int]).is_cleanup && call_can_unwind(
                                *ctx,
                                body@.blocks[i as int].terminator,
                            ) == Some(true));
                        }
                        needs_abort = true;
                    },
                    _ => {},
                }
            }
            i = i + 1;
        }
        let ghost b0 = body@;
        let ghost spec_after = abort_rewrite_spec(*ctx, b0);
        proof {
            assert(needs_abort == needs_abort_block(*ctx, b0));
        }
        // Create the shared abort block if any unwind edge must be
        // redirected to it.
        if needs_abort {
            body.basic_blocks.push(
                BasicBlock {
                    statements: Vec::new(),
                    terminator: Terminator::Abort,
                    is_cleanup: true,
                },
            );
            proof {
                assert(body@.blocks =~~= b0.blocks + seq![abort_block()]);
            }
        }
        // Second scan: adjust the unwind edges.
        let mut i: usize = 0;
        while i < n
            invariant
                body_wf(b0),
                n == b0.blocks.len(),
                body@.blocks.len() == spec_after.blocks.len(),
                body.basic_blocks@.len() == body@.blocks.len(),
                spec_after == abort_rewrite_spec(*ctx, b0),
                spec_after.blocks.len() == n + (if needs_abort_block(*ctx, b0) {
                    1int
                } else {
                    0int
                }),
                bcu == body_can_unwind(*ctx, b0.source),
                body@.source == b0.source,
                i <= n,
                forall|m: int| 0 <= m < i ==> #[trigger] body@.blocks[m] == spec_after.blocks[m],
                forall|m: int| i <= m < n ==> #[trigger] body@.blocks[m] == b0.blocks[m],
                needs_abort_block(*ctx, b0) ==> body@.blocks[n as int] == abort_block(),
                body@.locals == b0.locals,
                body@.arg_count == b0.arg_count,
                body@.debug == b0.debug,
                body@.phase == b0.phase,
            decreases n - i,
        {
            proof {
                assert(body@.blocks[i as int] == body.basic_blocks@[i as int]@);
            }
            let action: u8 = {
                let bb = &body.basic_blocks[i];
                if bb.is_cleanup {
                    0
                } else {
                    match Self::terminator_can_unwind(ctx, &bb.terminator) {
                        Some(false) => 1,
                        Some(true) => {
                            if !bcu {
                                2
                            } else {
                                0
                            }
                        },
                        _ => 0,
                    }
                }
            };
            if action == 1 {
                let mut blk = body.take_block(i);
                blk.terminator.set_unwind(None);
                proof {
                    assert(body.basic_blocks@.len() == body@.blocks.len());
                }
                body.put_block(i, blk);
                proof {
                    assert(body.basic_blocks@.len() == body@.blocks.len());
                    assert(body@.blocks[i as int] =~= spec_after.blocks[i as int]);
                }
            } else if action == 2 {
                let mut blk = body.take_block(i);
                blk.terminator.set_unwind(Some(n));
                proof {
                    assert(body.basic_blocks@.len() == body@.blocks.len());
                }
                body.put_block(i, blk);
                proof {
                    assert(body.basic_blocks@.len() == body@.blocks.len());
                    assert(body@.blocks[i as int] =~= spec_after.blocks[i as int]);
                }
            } else {
                proof {
                    assert(body@.blocks[i as int] =~= spec_after.blocks[i as int]);
                }
            }
            i = i + 1;
        }
        proof {
            assert(body@.blocks =~= spec_after.blocks);
            assert(body@ =~= spec_after);
            lemma_abort_rewrite_wf(*ctx, b0);
        }
        // The removed and redirected edges may have left cleanup blocks
        // unreachable.
        remove_dead_blocks(body);
    }

    /// Executable counterpart of [`call_can_unwind`].
    fn terminator_can_unwind(ctx: &Ctx, t: &Terminator) -> (r: Option<bool>)
        ensures
            r == call_can_unwind(*ctx, t@),
    {
        match t {
            Terminator::Call { callee, callee_abi, .. } => Some(
                ctx.fn_can_unwind(*callee, *callee_abi),
            ),
            Terminator::Drop { .. } => Some(
                ctx.sess.panic_in_drop_unwind && ctx.fn_can_unwind(None, ABI_RUST),
            ),
            Terminator::DropAndReplace { .. } => Some(
                ctx.sess.panic_in_drop_unwind && ctx.fn_can_unwind(None, ABI_RUST),
            ),
            Terminator::Assert { .. } => Some(ctx.fn_can_unwind(None, ABI_RUST)),
            Terminator::FalseUnwind { .. } => Some(ctx.fn_can_unwind(None, ABI_RUST)),
            _ => None,
        }
    }
}

/// Replacing a terminator's unwind edge keeps every other successor; the new
/// edge is its only new target, and its unwind field holds exactly it.
pub proof fn lemma_with_unwind_edges(t: TerminatorV, e: Option<usize>)
    ensures
        t.unwind() is Some ==> t.with_unwind(e).unwind() == Some(e),
        t.unwind() is None ==> t.with_unwind(e) == t,
        forall|j: int|
            0 <= j < t.with_unwind(e).succs().len() ==> t.succs().contains(
                #[trigger] t.with_unwind(e).succs()[j],
            ) || (e is Some && t.with_unwind(e).succs()[j] == e->0),
{
    let t2 = t.with_unwind(e);
    assert forall|j: int| 0 <= j < t2.succs().len() implies t.succs().contains(
        #[trigger] t2.succs()[j],
    ) || (e is Some && t2.succs()[j] == e->0) by {
        match t {
            TerminatorV::Call { destination, cleanup, .. } => {
                if j < t2.succs().len() - (if e is Some {
                    1int
                } else {
                    0int
                }) {
                    assert(t2.succs()[j] == t.succs()[j]);
                }
            },
            TerminatorV::Drop { .. } => {
                if j == 0 {
                    assert(t2.succs()[0] == t.succs()[0]);
                }
            },
            TerminatorV::DropAndReplace { .. } => {
                if j == 0 {
                    assert(t2.succs()[0] == t.succs()[0]);
                }
            },
            TerminatorV::Assert { .. } => {
                if j == 0 {
                    assert(t2.succs()[0] == t.succs()[0]);
                }
            },
            TerminatorV::FalseUnwind { .. } => {
                if j == 0 {
                    assert(t2.succs()[0] == t.succs()[0]);
                }
            },
            TerminatorV::InlineAsm { destination, .. } => {
                if j < t2.succs().len() - (if e is Some {
                    1int
                } else {
                    0int
                }) {
                    assert(t2.succs()[j] == t.succs()[j]);
                }
            },
            _ => {
                assert(t2 == t);
            },
        }
    }
}

/// The rewriting phase keeps the body structurally well formed.
pub proof fn lemma_abort_rewrite_wf(ctx: Ctx, b: BodyV)
    requires
        body_wf(b),
        b.blocks.len() <= usize::MAX,
    ensures
        body_wf(abort_rewrite_spec(ctx, b)),
{
    let after = abort_rewrite_spec(ctx, b);
    let n = b.blocks.len() as int;
    assert forall|m: int| 0 <= m < after.blocks.len() implies term_ok(
        #[trigger] after.blocks[m].terminator,
        after.blocks,
    ) by {
        if m < n {
            let t = b.blocks[m].terminator;
            let t2 = after.blocks[m].terminator;
            assert(term_ok(t, b.blocks));
            assert forall|u: int| 0 <= u < n implies #[trigger] after.blocks[u].is_cleanup
                == b.blocks[u].is_cleanup by {
                assert(after.blocks[u] == abort_rewrite_block(ctx, b, b.blocks[u]));
            }
            if t2 == t {
                lemma_term_ok_grow(t, b.blocks, after.blocks);
            } else {
                if needs_abort_block(ctx, b) {
                    assert(after.blocks[n] == abort_block());
                }
                if t2 == t.with_unwind(None) {
                    lemma_with_unwind_edges(t, None);
                    assert forall|j: int| 0 <= j < t2.succs().len() implies
                        #[trigger] t2.succs()[j] < after.blocks.len() by {}
                    match t2.unwind() {
                        Some(Some(u)) => {
                            assert(t.unwind() is Some);
                            assert(t2.unwind() == Some(None::<usize>));
                        },
                        _ => {},
                    }
                } else {
                    assert(t2 == t.with_unwind(Some(n as usize)));
                    assert(needs_abort_block(ctx, b));
                    lemma_with_unwind_edges(t, Some(n as usize));
                    assert forall|j: int| 0 <= j < t2.succs().len() implies
                        #[trigger] t2.succs()[j] < after.blocks.len() by {}
                    match t2.unwind() {
                        Some(Some(u)) => {
                            assert(u == n);
                            assert(after.blocks[n].is_cleanup);
                        },
                        _ => {},
                    }
                }
            }
        } else {
            assert(after.blocks[m] == abort_block());
        }
    }
}

/// Unwind-enforcement soundness: in a body whose own convention promises not
/// to unwind, after this pass no terminator keeps an unwind edge leading
/// anywhere but the synthetic abort block. Cleanup blocks must not unwind
/// themselves, and inline-assembly terminators, which the pass does not
/// touch, must not carry an unwind edge.
pub proof fn lemma_unwind_enforcement(ctx: Ctx, b: BodyV)
    requires
        body_wf(b),
        b.blocks.len() < usize::MAX,
        !body_can_unwind(ctx, b.source),
        forall|i: int|
            0 <= i < b.blocks.len() && (#[trigger] b.blocks[i]).is_cleanup ==> (
            b.blocks[i].terminator.unwind() is None || b.blocks[i].terminator.unwind() == Some(
                None::<usize>,
            )),
        forall|i: int|
            0 <= i < b.blocks.len() && !(#[trigger] b.blocks[i]).is_cleanup ==> (match b.blocks[i].terminator {
                TerminatorV::InlineAsm { cleanup, .. } => cleanup is None,
                _ => true,
            }),
    ensures
        ({
            let r = crate::simplify::remove_dead_blocks_spec(abort_rewrite_spec(ctx, b));
            forall|i: int|
                0 <= i < r.blocks.len() ==> match (#[trigger] r.blocks[i]).terminator.unwind() {
                    Some(Some(u)) => u < r.blocks.len() && r.blocks[u as int] == abort_block(),
                    _ => true,
                }
        }),
{
    let mid = abort_rewrite_spec(ctx, b);
    let r = crate::simplify::remove_dead_blocks_spec(mid);
    let mb = mid.blocks;
    let n = b.blocks.len() as int;
    lemma_abort_rewrite_wf(ctx, b);
    crate::simplify::lemma_compact_len(mb, 0);
    assert forall|i: int| 0 <= i < r.blocks.len() implies match (#[trigger] r.blocks[i]).terminator.unwind() {
        Some(Some(u)) => u < r.blocks.len() && r.blocks[u as int] == abort_block(),
        _ => true,
    } by {
        crate::simplify::lemma_renum_onto(mb, 0, i as nat);
        let u = choose|u: usize|
            #![all_triggers]
            u < mb.len() && crate::simplify::reachable(mb, u) && crate::simplify::num_reachable_below(
                mb,
                u as int,
            ) == i;
        crate::simplify::lemma_nrb_mono(mb, 0, u as int);
        crate::simplify::lemma_compact_index(mb, 0, u);
        assert(r.blocks[i] == crate::simplify::block_renum(mb, mb[u as int]));
        let t = mb[u as int].terminator;
        crate::simplify::lemma_term_renum_edges(mb, t);
        match r.blocks[i].terminator.unwind() {
            Some(Some(w)) => {
                // The unwind edge of the renumbered terminator comes from an
                // unwind edge of the rewritten one.
                let w0 = choose|w0: usize|
                    t.unwind() == Some(Some(w0)) && w == crate::simplify::renum(mb, w0);
                assert(t.unwind() == Some(Some(w0)) && w == crate::simplify::renum(mb, w0)) by {
                    match t.unwind() {
                        Some(Some(x)) => {
                            assert(r.blocks[i].terminator.unwind() == Some(
                                Some(crate::simplify::renum(mb, x)),
                            ));
                        },
                        _ => {},
                    }
                }
                // Only the redirected case leaves an unwind edge behind, and
                // it points at the appended abort block.
                if u < b.blocks.len() {
                    assert(mb[u as int] == abort_rewrite_block(ctx, b, b.blocks[u as int]));
                    let bb0 = b.blocks[u as int];
                    if bb0.is_cleanup {
                        assert(t == bb0.terminator);
                        assert(false);
                    } else {
                        match call_can_unwind(ctx, bb0.terminator) {
                            Some(false) => {
                                lemma_with_unwind_edges(bb0.terminator, None);
                                assert(false);
                            },
                            Some(true) => {
                                lemma_with_unwind_edges(bb0.terminator, Some(n as usize));
                                assert(w0 == n);
                            },
                            None => {
                                assert(t == bb0.terminator);
                                match bb0.terminator {
                                    TerminatorV::InlineAsm { cleanup, .. } => {
                                        assert(false);
                                    },
                                    _ => {
                                        assert(bb0.terminator.unwind() is None);
                                        assert(false);
                                    },
                                }
                            },
                        }
                    }
                    // The abort block is reachable through this very edge.
                    assert(needs_abort_block(ctx, b));
                    assert(mb[n] == abort_block());
                    crate::simplify::lemma_unwind_in_succs(t, w0);
                    crate::simplify::lemma_reachable_step(mb, u, w0);
                    crate::simplify::lemma_nrb_strict(mb, w0, mb.len() as int);
                    crate::simplify::lemma_nrb_mono(mb, 0, w0 as int);
                    crate::simplify::lemma_compact_index(mb, 0, w0);
                    assert(r.blocks[w as int] == crate::simplify::block_renum(mb, mb[w0 as int]));
                    assert(crate::simplify::block_renum(mb, abort_block()) =~= abort_block());
                } else {
                    assert(mb[u as int] == abort_block());
                    assert(false);
                }
            },
            _ => {},
        }
    }
}

} // verus!
