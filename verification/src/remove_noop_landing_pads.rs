//! A pass that removes noop landing pads — cleanup blocks that perform no
//! observable action — and folds jumps and unwind edges that target them into
//! the single canonical resume block.

use vstd::prelude::*;

use crate::context::{Ctx, Session};
use crate::ir::{
    body_wf, lemma_term_ok_grow, lemma_term_ok_same_shape, term_ok, BasicBlock, BasicBlockV, Body,
    BodyV, Statement, StatementV, Terminator, TerminatorV,
};
use crate::locals::lookup;
use crate::simplify::term_succs_vec;
use crate::traversal::postorder;

verus! {

/// Whether a statement is harmless inside a landing pad: storage and
/// borrow-check markers, coverage, no-ops, and writes that only touch a bare
/// local (such as a drop flag).
pub open spec fn nop_pad_statement(s: StatementV) -> bool {
    match s {
        StatementV::FakeRead(_) => true,
        StatementV::StorageLive(_) => true,
        StatementV::StorageDead(_) => true,
        StatementV::AscribeUserType(_) => true,
        StatementV::Coverage => true,
        StatementV::Nop => true,
        StatementV::Assign(p, r) => match r {
            crate::ir::RvalueV::Use(_) => p.as_local() is Some,
            crate::ir::RvalueV::Discriminant(_) => p.as_local() is Some,
            _ => false,
        },
        _ => false,
    }
}

/// Whether a block is a noop landing pad, given which blocks are already
/// classified as such: its statements are all harmless and its terminator
/// merely forwards control, every successor already classified.
pub open spec fn nop_landing_pad(bb: BasicBlockV, nops: Seq<bool>) -> bool {
    (forall|k: int| 0 <= k < bb.statements.len() ==> nop_pad_statement(#[trigger] bb.statements[k]))
        && (match bb.terminator {
        TerminatorV::Goto { .. } => true,
        TerminatorV::Resume => true,
        TerminatorV::SwitchInt { .. } => true,
        TerminatorV::FalseEdge { .. } => true,
        TerminatorV::FalseUnwind { .. } => true,
        _ => false,
    }) && (forall|j: int|
        0 <= j < bb.terminator.succs().len() ==> #[trigger] bb.terminator.succs()[j] < nops.len()
            && nops[bb.terminator.succs()[j] as int])
}

/// A cleanup block holding only storage markers and ending in `Resume` is a
/// noop landing pad, whatever has been classified so far.
pub proof fn lemma_storage_resume_pad(bb: BasicBlockV, nops: Seq<bool>)
    requires
        forall|k: int| 0 <= k < bb.statements.len() ==> (#[trigger] bb.statements[k]) is StorageDead,
        bb.terminator is Resume,
    ensures
        nop_landing_pad(bb, nops),
{
}

/// The canonical resume block: a cleanup block with no statements that only
/// propagates the in-flight unwind.
pub open spec fn is_resume_block(bb: BasicBlockV) -> bool {
    bb.statements.len() == 0 && bb.terminator is Resume && bb.is_cleanup
}

/// A terminator with every block reference sent through the table.
pub open spec fn term_retarget(m: Seq<usize>, t: TerminatorV) -> TerminatorV {
    let rn = |u: usize| lookup(m, u);
    let rno = |o: Option<usize>|
        match o {
            Some(u) => Some(lookup(m, u)),
            None => None,
        };
    match t {
        TerminatorV::Goto { target } => TerminatorV::Goto { target: rn(target) },
        TerminatorV::SwitchInt { discr, switch_ty, targets } => TerminatorV::SwitchInt {
            discr,
            switch_ty,
            targets: crate::ir::SwitchTargetsV {
                values: targets.values,
                targets: targets.targets.map_values(rn),
            },
        },
        TerminatorV::Call { func, args, callee, callee_abi, destination, cleanup } => TerminatorV::Call {
            func,
            args,
            callee,
            callee_abi,
            destination: match destination {
                Some((p, u)) => Some((p, rn(u))),
                None => None,
            },
            cleanup: rno(cleanup),
        },
        TerminatorV::Drop { place, target, unwind } => TerminatorV::Drop {
            place,
            target: rn(target),
            unwind: rno(unwind),
        },
        TerminatorV::DropAndReplace { place, value, target, unwind } => TerminatorV::DropAndReplace {
            place,
            value,
            target: rn(target),
            unwind: rno(unwind),
        },
        TerminatorV::Assert { cond, expected, target, cleanup } => TerminatorV::Assert {
            cond,
            expected,
            target: rn(target),
            cleanup: rno(cleanup),
        },
        TerminatorV::Yield { value, resume, resume_arg, drop } => TerminatorV::Yield {
            value,
            resume: rn(resume),
            resume_arg,
            drop: rno(drop),
        },
        TerminatorV::FalseEdge { real_target, imaginary_target } => TerminatorV::FalseEdge {
            real_target: rn(real_target),
            imaginary_target: rn(imaginary_target),
        },
        TerminatorV::FalseUnwind { real_target, unwind } => TerminatorV::FalseUnwind {
            real_target: rn(real_target),
            unwind: rno(unwind),
        },
        TerminatorV::InlineAsm { destination, cleanup } => TerminatorV::InlineAsm {
            destination: rno(destination),
            cleanup: rno(cleanup),
        },
        _ => t,
    }
}

/// Retargeting maps the successor list pointwise and keeps the unwind field
/// shape.
pub proof fn lemma_term_retarget_edges(m: Seq<usize>, t: TerminatorV)
    ensures
        term_retarget(m, t).succs() =~= t.succs().map_values(|u: usize| lookup(m, u)),
        term_retarget(m, t).unwind() == (match t.unwind() {
            Some(Some(u)) => Some(Some(lookup(m, u))),
            Some(None) => Some(None::<usize>),
            None => None::<Option<usize>>,
        }),
{
}

/// One terminator after the pass's rewriting: a dead unwind edge into an
/// already-classified pad is cleared, then every edge into a classified pad
/// other than the resume block is redirected to the resume block.
pub open spec fn pad_rewrite(t: TerminatorV, m: Seq<usize>, nops: Seq<bool>) -> TerminatorV {
    let cleared = (match t.unwind() {
        Some(Some(u)) => {
            if u < nops.len() && nops[u as int] {
                t.with_unwind(None)
            } else {
                t
            }
        },
        _ => t,
    });
    term_retarget(m, cleared)
}


/// The first canonical resume block already in the body, if any.
pub open spec fn find_resume(blocks: Seq<BasicBlockV>, i: int) -> Option<usize>
    decreases blocks.len() - i,
{
    if i < 0 || i >= blocks.len() {
        None
    } else if is_resume_block(blocks[i]) {
        Some(i as usize)
    } else {
        find_resume(blocks, i + 1)
    }
}

/// The body with a canonical resume block made sure of, and that block's id:
/// the first existing one, or a fresh one appended at the end.
pub open spec fn with_resume(b: BodyV) -> (BodyV, usize) {
    match find_resume(b.blocks, 0) {
        Some(r) => (b, r),
        None => (
            BodyV {
                blocks: b.blocks + seq![
                    BasicBlockV {
                        statements: Seq::<StatementV>::empty(),
                        terminator: TerminatorV::Resume,
                        is_cleanup: true,
                    },
                ],
                locals: b.locals,
                arg_count: b.arg_count,
                debug: b.debug,
                phase: b.phase,
                source: b.source,
            },
            b.blocks.len() as usize,
        ),
    }
}

/// The redirect table the pass applies at one visit: classified pads other
/// than the resume block go to the resume block.
pub open spec fn table_of(nops: Seq<bool>, resume: usize) -> Seq<usize> {
    Seq::new(nops.len(), |x: int| if nops[x] && x != resume {
        resume
    } else {
        x as usize
    })
}

/// One visit of the folding: the block's terminator is rewritten against
/// the classification so far, and the block is then classified itself.
pub open spec fn pads_step(resume: usize, st: (Seq<BasicBlockV>, Seq<bool>), bb: usize) -> (
    Seq<BasicBlockV>,
    Seq<bool>,
) {
    if bb < st.0.len() {
        let blocks2 = st.0.update(
            bb as int,
            BasicBlockV {
                statements: st.0[bb as int].statements,
                terminator: pad_rewrite(st.0[bb as int].terminator, table_of(st.1, resume), st.1),
                is_cleanup: st.0[bb as int].is_cleanup,
            },
        );
        (blocks2, st.1.update(bb as int, nop_landing_pad(blocks2[bb as int], st.1)))
    } else {
        st
    }
}

/// The folding over the first `i` blocks of the visiting order.
pub open spec fn pads_fold(
    resume: usize,
    b1: Seq<BasicBlockV>,
    order: Seq<usize>,
    i: int,
) -> (Seq<BasicBlockV>, Seq<bool>)
    decreases i,
{
    if i <= 0 {
        (b1, Seq::new(b1.len(), |x: int| false))
    } else {
        pads_step(resume, pads_fold(resume, b1, order, i - 1), order[i - 1])
    }
}

/// What the pass produces under a given visiting order: the resume block
/// made sure of, then every visited block's edges folded against the
/// classification.
pub open spec fn noop_pads_spec(b: BodyV, order: Seq<usize>) -> BodyV {
    let br = with_resume(b);
    BodyV {
        blocks: pads_fold(br.1, br.0.blocks, order, order.len() as int).0,
        locals: b.locals,
        arg_count: b.arg_count,
        debug: b.debug,
        phase: b.phase,
        source: b.source,
    }
}

/// Removes noop landing pads and replaces jumps to them with jumps to the
/// canonical resume block.
pub struct RemoveNoopLandingPads;

impl RemoveNoopLandingPads {
    /// Whether the pass runs at the given session options: only when the
    /// panic strategy unwinds at all.
    pub open spec fn enabled_spec(sess: Session) -> bool {
        sess.panic_strategy_unwind
    }

    /// Executable counterpart of [`RemoveNoopLandingPads::enabled_spec`].
    pub fn is_enabled(&self, sess: &Session) -> (r: bool)
        ensures
            r == Self::enabled_spec(*sess),
    {
        sess.panic_strategy_unwind
    }

    /// Whether this block is a noop landing pad, given the classification so
    /// far.
    pub fn is_nop_landing_pad(bb: &BasicBlock, nops: &Vec<bool>) -> (r: bool)
        ensures
            r == nop_landing_pad(bb@, nops@),
    {
        let sn = bb.statements.len();
        let mut k: usize = 0;
        while k < sn
            invariant
                sn == bb.statements@.len(),
                k <= sn,
                forall|x: int| 0 <= x < k ==> nop_pad_statement(#[trigger] bb@.statements[x]),
            decreases sn - k,
        {
            proof {
                assert(bb@.statements[k as int] == bb.statements@[k as int]@);
            }
            let ok = match &bb.statements[k] {
                Statement::FakeRead(_) => true,
                Statement::StorageLive(_) => true,
                Statement::StorageDead(_) => true,
                Statement::AscribeUserType(_) => true,
                Statement::Coverage => true,
                Statement::Nop => true,
                Statement::Assign(p, r) => {
                    let bare = match p.as_local() {
                        Some(_) => true,
                        None => false,
                    };
                    let shape = match r {
                        crate::ir::Rvalue::Use(_) => true,
                        crate::ir::Rvalue::Discriminant(_) => true,
                        _ => false,
                    };
                    bare && shape
                },
                _ => false,
            };
            if !ok {
                proof {
                    assert(!nop_pad_statement(bb@.statements[k as int]));
                }
                return false;
            }
            k = k + 1;
        }
        let kind_ok = match &bb.terminator {
            Terminator::Goto { .. } => true,
            Terminator::Resume => true,
            Terminator::SwitchInt { .. } => true,
            Terminator::FalseEdge { .. } => true,
            Terminator::FalseUnwind { .. } => true,
            _ => false,
        };
        if !kind_ok {
            return false;
        }
        let succs = term_succs_vec(&bb.terminator);
        let m = succs.len();
        let mut j: usize = 0;
        while j < m
            invariant
                m == succs@.len(),
                succs@ == bb@.terminator.succs(),
                j <= m,
                nops@ == nops@,
                forall|x: int|
                    0 <= x < j ==> #[trigger] bb@.terminator.succs()[x] < nops@.len()
                        && nops@[bb@.terminator.succs()[x] as int],
            decreases m - j,
        {
            let s = succs[j];
            if !(s < nops.len() && nops[s]) {
                return false;
            }
            j = j + 1;
        }
        true
    }

    /// Makes sure there is a canonical resume block and returns its id:
    /// either an existing empty cleanup block ending in `Resume`, or a fresh
    /// one appended at the end.
    fn ensure_resume_block(body: &mut Body) -> (r: usize)
        requires
            body_wf(old(body)@),
        ensures
            body_wf(final (body)@),
            r < final (body)@.blocks.len(),
            is_resume_block(final (body)@.blocks[r as int]),
            (final (body)@, r) == with_resume(old(body)@),
            final (body)@.blocks.len() >= old(body)@.blocks.len(),
            forall|m: int|
                0 <= m < old(body)@.blocks.len() ==> #[trigger] final (body)@.blocks[m] == old(
                    body,
                )@.blocks[m],
            final (body)@.locals == old(body)@.locals,
            final (body)@.arg_count == old(body)@.arg_count,
            final (body)@.debug == old(body)@.debug,
            final (body)@.phase == old(body)@.phase,
            final (body)@.source == old(body)@.source,
    {
        let n = body.basic_blocks.len();
        let mut i: usize = 0;
        while i < n
            invariant
                body_wf(body@),
                body@ == old(body)@,
                n == body.basic_blocks@.len(),
                i <= n,
                find_resume(body@.blocks, 0) == find_resume(body@.blocks, i as int),
            decreases n - i,
        {
            let bb = &body.basic_blocks[i];
            let found = bb.is_cleanup && bb.statements.len() == 0 && match &bb.terminator {
                Terminator::Resume => true,
                _ => false,
            };
            proof {
                assert(body@.blocks[i as int] == body.basic_blocks@[i as int]@);
            }
            if found {
                proof {
                    assert(is_resume_block(body@.blocks[i as int]));
                    assert(find_resume(body@.blocks, i as int) == Some(i));
                    assert((body@, i) == with_resume(old(body)@));
                }
                return i;
            }
            proof {
                assert(!is_resume_block(body@.blocks[i as int]));
                assert(find_resume(body@.blocks, i as int) == find_resume(body@.blocks, i + 1));
            }
            i = i + 1;
        }
        let ghost b0 = body@;
        body.basic_blocks.push(
            BasicBlock { statements: Vec::new(), terminator: Terminator::Resume, is_cleanup: true },
        );
        proof {
            assert(body@.blocks =~~= b0.blocks + seq![
                BasicBlockV {
                    statements: Seq::<StatementV>::empty(),
                    terminator: TerminatorV::Resume,
                    is_cleanup: true,
                },
            ]);
            assert forall|m: int| 0 <= m < body@.blocks.len() implies term_ok(
                #[trigger] body@.blocks[m].terminator,
                body@.blocks,
            ) by {
                if m < b0.blocks.len() {
                    lemma_term_ok_grow(b0.blocks[m].terminator, b0.blocks, body@.blocks);
                }
            }
            assert(find_resume(b0.blocks, n as int) is None);
            assert(with_resume(b0).0 =~~= body@);
            assert((body@, n as usize) == with_resume(b0));
        }
        n
    }

    /// Folds noop landing pads into the canonical resume block: walks the
    /// blocks in postorder so each block is seen after its successors, clears
    /// unwind edges into already-classified pads, redirects the remaining
    /// edges into pads to the resume block, and classifies the block itself.
    pub fn remove_nop_landing_pads(&self, body: &mut Body)
        requires
            body_wf(old(body)@),
        ensures
            body_wf(final (body)@),
            exists|r: int|
                0 <= r < final (body)@.blocks.len() && is_resume_block(
                    #[trigger] final (body)@.blocks[r],
                ),
            exists|order: Seq<usize>|
                #![all_triggers]
                crate::traversal::postorder_valid(with_resume(old(body)@).0.blocks, order)
                    && crate::traversal::postorder_ordered(with_resume(old(body)@).0.blocks, order)
                    && final (body)@ == noop_pads_spec(old(body)@, order),
            final (body)@.locals == old(body)@.locals,
            final (body)@.arg_count == old(body)@.arg_count,
            final (body)@.debug == old(body)@.debug,
            final (body)@.phase == old(body)@.phase,
            final (body)@.source == old(body)@.source,
    {
        let resume_block = Self::ensure_resume_block(body);
        let ghost b1 = body@;
        let n = body.basic_blocks.len();
        let mut nops: Vec<bool> = Vec::new();
        let mut i: usize = 0;
        while i < n
            invariant
                i <= n,
                nops@.len() == i,
                forall|x: int| 0 <= x < i ==> !(#[trigger] nops@[x]),
            decreases n - i,
        {
            nops.push(false);
            i = i + 1;
        }
        let order = postorder(body);
        let ghost orderv = order@;
        proof {
            assert(nops@ =~= Seq::new(n as nat, |x: int| false));
            assert((body@.blocks, nops@) == pads_fold(resume_block, b1.blocks, orderv, 0));
        }
        let on = order.len();
        let mut e: usize = 0;
        while e < on
            invariant
                body_wf(body@),
                b1 == with_resume(old(body)@).0,
                resume_block == with_resume(old(body)@).1,
                n == b1.blocks.len(),
                n == body@.blocks.len(),
                n == body.basic_blocks@.len(),
                nops@.len() == n,
                on == order@.len(),
                orderv == order@,
                forall|x: int| 0 <= x < on ==> #[trigger] order@[x] < n,
                resume_block < n,
                is_resume_block(body@.blocks[resume_block as int]),
                e <= on,
                (body@.blocks, nops@) == pads_fold(resume_block, b1.blocks, orderv, e as int),
                body@.locals == old(body)@.locals,
                body@.arg_count == old(body)@.arg_count,
                body@.debug == old(body)@.debug,
                body@.phase == old(body)@.phase,
                body@.source == old(body)@.source,
            decreases on - e,
        {
            let bb = order[e];
            // The redirect table: classified pads other than the resume
            // block go to the resume block.
            let mut table: Vec<usize> = Vec::new();
            let mut t: usize = 0;
            while t < n
                invariant
                    t <= n,
                    n == nops@.len(),
                    resume_block < n,
                    table@.len() == t,
                    forall|x: int| 0 <= x < t ==> #[trigger] table@[x] == (
                    if nops@[x] && x != resume_block {
                        resume_block
                    } else {
                        x as usize
                    }),
                decreases n - t,
            {
                if nops[t] && t != resume_block {
                    table.push(resume_block);
                } else {
                    table.push(t);
                }
                t = t + 1;
            }
            let ghost prev = body@.blocks;
            let ghost nops_pre = nops@;
            proof {
                assert(table@ =~= table_of(nops_pre, resume_block));
            }
            let mut blk = body.take_block(bb);
            let ghost t0 = blk.terminator@;
            proof {
                assert(t0 == prev[bb as int].terminator);
            }
            // Clear a dead unwind edge into a classified pad.
            let clear = match blk.terminator.get_unwind() {
                Some(Some(u)) => u < nops.len() && nops[u],
                _ => false,
            };
            if clear {
                blk.terminator.set_unwind(None);
            }
            let ghost cleared = blk.terminator@;
            // Redirect the remaining edges into pads to the resume block.
            Self::retarget_terminator(&mut blk.terminator, &table);
            proof {
                assert(blk.terminator@ == pad_rewrite(t0, table@, nops@));
            }
            proof {
                assert(body.basic_blocks@.len() == body@.blocks.len());
            }
            let classify = Self::is_nop_landing_pad(&blk, &nops);
            let ghost blkv = blk@;
            body.put_block(bb, blk);
            nops[bb] = classify;
            proof {
                assert(body.basic_blocks@.len() == body@.blocks.len());
                // The iteration performed exactly one spec folding step.
                assert(body@.blocks =~= prev.update(
                    bb as int,
                    BasicBlockV {
                        statements: prev[bb as int].statements,
                        terminator: pad_rewrite(t0, table_of(nops_pre, resume_block), nops_pre),
                        is_cleanup: prev[bb as int].is_cleanup,
                    },
                ));
                assert(blkv == body@.blocks[bb as int]);
                assert(classify == nop_landing_pad(body@.blocks[bb as int], nops_pre));
                assert(nops@ == nops_pre.update(bb as int, classify));
                assert((body@.blocks, nops@) == pads_step(resume_block, (prev, nops_pre), bb));
                assert forall|m2: int| 0 <= m2 < n implies term_ok(
                    #[trigger] body@.blocks[m2].terminator,
                    body@.blocks,
                ) by {
                    assert(body@.blocks[m2].is_cleanup == prev[m2].is_cleanup);
                    if m2 == bb {
                        lemma_term_retarget_edges(table@, cleared);
                        crate::abort_unwinding_calls::lemma_with_unwind_edges(t0, None);
                        assert(term_ok(cleared, prev)) by {
                            assert(term_ok(t0, prev));
                            if cleared != t0 {
                                assert forall|j: int|
                                    0 <= j < cleared.succs().len() implies #[trigger] cleared.succs()[j]
                                    < prev.len() by {
                                    assert(t0.succs().contains(cleared.succs()[j]));
                                    let w = choose|w: int|
                                        0 <= w < t0.succs().len() && t0.succs()[w]
                                            == cleared.succs()[j];
                                }
                            }
                        }
                        assert forall|j: int|
                            0 <= j < body@.blocks[m2].terminator.succs().len() implies
                            #[trigger] body@.blocks[m2].terminator.succs()[j] < prev.len() by {
                            let oldt = cleared.succs()[j];
                            assert(body@.blocks[m2].terminator.succs()[j] == lookup(table@, oldt));
                        }
                        match body@.blocks[m2].terminator.unwind() {
                            Some(Some(w)) => {
                                assert(cleared.unwind() is Some);
                                match cleared.unwind() {
                                    Some(Some(w0)) => {
                                        assert(w == lookup(table@, w0));
                                        assert(cleared.unwind() == t0.unwind());
                                        assert(w0 < prev.len() && prev[w0 as int].is_cleanup);
                                        if w == resume_block {
                                            assert(prev[resume_block as int].is_cleanup);
                                        } else {
                                            assert(w == w0);
                                        }
                                    },
                                    _ => {
                                        assert(false);
                                    },
                                }
                            },
                            _ => {},
                        }
                    } else {
                        assert(body@.blocks[m2].terminator == prev[m2].terminator);
                        lemma_term_ok_same_shape(prev[m2].terminator, prev, body@.blocks);
                    }
                }
            }
            e = e + 1;
        }
        proof {
            assert(body@ =~= noop_pads_spec(old(body)@, orderv));
            assert(crate::traversal::postorder_valid(with_resume(old(body)@).0.blocks, orderv)
                && crate::traversal::postorder_ordered(with_resume(old(body)@).0.blocks, orderv)
                && body@ == noop_pads_spec(old(body)@, orderv));
        }
    }

    /// Runs the folding.
    pub fn run_pass(&self, ctx: &mut Ctx, body: &mut Body)
        requires
            body_wf(old(body)@),
        ensures
            *final (ctx) == *old(ctx),
            body_wf(final (body)@),
            exists|r: int|
                0 <= r < final (body)@.blocks.len() && is_resume_block(
                    #[trigger] final (body)@.blocks[r],
                ),
            exists|order: Seq<usize>|
                #![all_triggers]
                crate::traversal::postorder_valid(with_resume(old(body)@).0.blocks, order)
                    && crate::traversal::postorder_ordered(with_resume(old(body)@).0.blocks, order)
                    && final (body)@ == noop_pads_spec(old(body)@, order),
            final (body)@.locals == old(body)@.locals,
            final (body)@.arg_count == old(body)@.arg_count,
            final (body)@.debug == old(body)@.debug,
            final (body)@.phase == old(body)@.phase,
            final (body)@.source == old(body)@.source,
    {
        self.remove_nop_landing_pads(body);
    }

    /// Sends every block reference of a terminator through the table.
    fn retarget_terminator(t: &mut Terminator, table: &Vec<usize>)
        ensures
            final (t)@ == term_retarget(table@, old(t)@),
    {
        let ghost t0 = old(t)@;
        let mut tmp = Terminator::Return;
        core::mem::swap(t, &mut tmp);
        let newt = match tmp {
            Terminator::Goto { target } => Terminator::Goto { target: Self::look(table, target) },
            Terminator::SwitchInt { discr, switch_ty, targets } => {
                let mut tg = targets;
                let ghost tv0 = tg.targets@;
                let vn = tg.targets.len();
                let mut k: usize = 0;
                while k < vn
                    invariant
                        vn == tg.targets@.len(),
                        tv0.len() == vn,
                        k <= vn,
                        tg.values@ == t0->SwitchInt_targets.values,
                        forall|x: int| 0 <= x < k ==> #[trigger] tg.targets@[x] == lookup(
                            table@,
                            tv0[x],
                        ),
                        forall|x: int| k <= x < vn ==> #[trigger] tg.targets@[x] == tv0[x],
                    decreases vn - k,
                {
                    let cur = tg.targets[k];
                    tg.targets[k] = Self::look(table, cur);
                    k = k + 1;
                }
                proof {
                    assert(tg.targets@ =~= tv0.map_values(|u: usize| lookup(table@, u)));
                }
                Terminator::SwitchInt { discr, switch_ty, targets: tg }
            },
            Terminator::Call { func, args, callee, callee_abi, destination, cleanup } => {
                let destination = match destination {
                    Some(pair) => {
                        let (p, u) = pair;
                        Some((p, Self::look(table, u)))
                    },
                    None => None,
                };
                let cleanup = match cleanup {
                    Some(c) => Some(Self::look(table, c)),
                    None => None,
                };
                Terminator::Call { func, args, callee, callee_abi, destination, cleanup }
            },
            Terminator::Drop { place, target, unwind } => {
                let unwind = match unwind {
                    Some(c) => Some(Self::look(table, c)),
                    None => None,
                };
                Terminator::Drop { place, target: Self::look(table, target), unwind }
            },
            Terminator::DropAndReplace { place, value, target, unwind } => {
                let unwind = match unwind {
                    Some(c) => Some(Self::look(table, c)),
                    None => None,
                };
                Terminator::DropAndReplace {
                    place,
                    value,
                    target: Self::look(table, target),
                    unwind,
                }
            },
            Terminator::Assert { cond, expected, target, cleanup } => {
                let cleanup = match cleanup {
                    Some(c) => Some(Self::look(table, c)),
                    None => None,
                };
                Terminator::Assert { cond, expected, target: Self::look(table, target), cleanup }
            },
            Terminator::Yield { value, resume, resume_arg, drop } => {
                let drop = match drop {
                    Some(c) => Some(Self::look(table, c)),
                    None => None,
                };
                Terminator::Yield { value, resume: Self::look(table, resume), resume_arg, drop }
            },
            Terminator::FalseEdge { real_target, imaginary_target } => Terminator::FalseEdge {
                real_target: Self::look(table, real_target),
                imaginary_target: Self::look(table, imaginary_target),
            },
            Terminator::FalseUnwind { real_target, unwind } => {
                let unwind = match unwind {
                    Some(c) => Some(Self::look(table, c)),
                    None => None,
                };
                Terminator::FalseUnwind { real_target: Self::look(table, real_target), unwind }
            },
            Terminator::InlineAsm { destination, cleanup } => {
                let destination = match destination {
                    Some(d) => Some(Self::look(table, d)),
                    None => None,
                };
                let cleanup = match cleanup {
                    Some(c) => Some(Self::look(table, c)),
                    None => None,
                };
                Terminator::InlineAsm { destination, cleanup }
            },
            other => other,
        };
        *t = newt;
        proof {
            assert(t@ =~= term_retarget(table@, t0));
        }
    }

    /// Executable counterpart of [`lookup`].
    fn look(table: &Vec<usize>, u: usize) -> (r: usize)
        ensures
            r == lookup(table@, u),
    {
        if u < table.len() {
            table[u]
        } else {
            u
        }
    }
}

} // verus!
