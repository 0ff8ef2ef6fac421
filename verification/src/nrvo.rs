//! A pass that looks for bodies that always copy the same local into the
//! return slot and eliminates the copy by renaming every use of that local to
//! the return slot itself: named-return-value optimization.

use vstd::prelude::*;

use crate::context::{Ctx, Session};
use crate::ir::{
    body_wf, term_ok, BasicBlockV, Body, BodyV, LocalDecl, OperandV, RvalueV, Statement,
    StatementV,
};
use crate::locals::{body_map_locals, lemma_term_map_edges, map_locals};
use crate::simplify::{
    count_false, count_in, edge, lemma_two_preds, preds_below, preds_of, the_pred,
};
use crate::visit::{stmt_uses, term_uses, UseCtx};

verus! {

/// The local whose whole value a statement copies into the return slot, if
/// the statement has exactly that shape.
pub open spec fn ret_assign_source(s: StatementV) -> Option<usize> {
    match s {
        StatementV::Assign(p, RvalueV::Use(OperandV::Copy(q))) => {
            if p.as_local() == Some(0usize) {
                q.as_local()
            } else {
                None
            }
        },
        StatementV::Assign(p, RvalueV::Use(OperandV::Move(q))) => {
            if p.as_local() == Some(0usize) {
                q.as_local()
            } else {
                None
            }
        },
        _ => None,
    }
}

/// Executable counterpart of [`ret_assign_source`].
pub fn ret_assign_source_of(s: &Statement) -> (r: Option<usize>)
    ensures
        r == ret_assign_source(s@),
{
    match s {
        Statement::Assign(p, crate::ir::Rvalue::Use(crate::ir::Operand::Copy(q))) => {
            match p.as_local() {
                Some(l) => {
                    if l == 0 {
                        q.as_local()
                    } else {
                        None
                    }
                },
                None => None,
            }
        },
        Statement::Assign(p, crate::ir::Rvalue::Use(crate::ir::Operand::Move(q))) => {
            match p.as_local() {
                Some(l) => {
                    if l == 0 {
                        q.as_local()
                    } else {
                        None
                    }
                },
                None => None,
            }
        },
        _ => None,
    }
}

/// The most recent whole-local assignment to the return slot within a run of
/// statements, searched from the end.
pub open spec fn find_ret_assign(ss: Seq<StatementV>) -> Option<usize>
    decreases ss.len(),
{
    if ss.len() == 0 {
        None
    } else {
        match ret_assign_source(ss.last()) {
            Some(l) => Some(l),
            None => find_ret_assign(ss.drop_last()),
        }
    }
}

/// Walking backward from a return-terminated block through unique
/// predecessors, the first whole-local assignment to the return slot found;
/// `None` when a block has no such assignment and no unique predecessor, or
/// when the walk would revisit a block.
pub open spec fn chain_find(
    blocks: Seq<BasicBlockV>,
    block: usize,
    seen: Seq<bool>,
    fuel: nat,
) -> Option<usize>
    decreases fuel,
{
    if fuel == 0 || block >= seen.len() || seen[block as int] || block >= blocks.len() {
        None
    } else {
        match find_ret_assign(blocks[block as int].statements) {
            Some(l) => Some(l),
            None => {
                if preds_of(blocks, block) == 1 {
                    chain_find(
                        blocks,
                        the_pred(blocks, block),
                        seen.update(block as int, true),
                        (fuel - 1) as nat,
                    )
                } else {
                    None
                }
            },
        }
    }
}

/// The chain walk from a given block, with fresh bookkeeping.
pub open spec fn nrvo_chain(blocks: Seq<BasicBlockV>, block: usize) -> Option<usize> {
    chain_find(blocks, block, Seq::new(blocks.len(), |x: int| false), blocks.len() + 1)
}

/// Whether some statement or terminator reads the return slot: any use of
/// local 0 that is not a whole-slot assignment, the implicit use in `Return`
/// terminators excepted.
pub open spec fn reads_ret(us: Seq<(usize, UseCtx)>) -> bool {
    exists|x: int|
        0 <= x < us.len() && (#[trigger] us[x]).0 == 0 && us[x].1.is_use && !us[x].1.assignment
}

/// Whether position `k` of block `i` reads the return slot; the position one
/// past the statements stands for the terminator.
pub open spec fn slot_reads(b: BodyV, i: int, k: int) -> bool {
    0 <= i < b.blocks.len() && ((0 <= k < b.blocks[i].statements.len() && reads_ret(
        stmt_uses(b.blocks[i].statements[k]),
    )) || (k == b.blocks[i].statements.len() && reads_ret(term_uses(b.blocks[i].terminator))))
}

/// Whether the body reads the return slot before returning.
pub open spec fn return_place_read(b: BodyV) -> bool {
    exists|i: int, k: int| #[trigger] slot_reads(b, i, k)
}

/// The accumulating scan for the one local every return path copies into the
/// return slot: `None` as soon as two paths disagree, a path has no such
/// assignment, or the candidate is an argument or the slot itself.
pub open spec fn elig_from(b: BodyV, i: int, cand: Option<usize>) -> Option<usize>
    decreases b.blocks.len() - i,
{
    if i < 0 || i >= b.blocks.len() {
        cand
    } else if !(b.blocks[i].terminator is Return) {
        elig_from(b, i + 1, cand)
    } else {
        match nrvo_chain(b.blocks, i as usize) {
            None => None,
            Some(l) => {
                if 1 <= l <= b.arg_count || l == 0 {
                    None
                } else {
                    match cand {
                        Some(c) => {
                            if c != l {
                                None
                            } else {
                                elig_from(b, i + 1, cand)
                            }
                        },
                        None => elig_from(b, i + 1, Some(l)),
                    }
                }
            },
        }
    }
}

/// The local this body is eligible to rename to its return slot, if any.
pub open spec fn nrvo_candidate(b: BodyV) -> Option<usize> {
    if return_place_read(b) {
        None
    } else {
        elig_from(b, 0, None)
    }
}

/// The replacement table that renames `l` to the return slot.
pub open spec fn rename_table(b: BodyV, l: usize) -> Seq<usize> {
    Seq::new(b.locals.len(), |x: int| if x == l {
        0usize
    } else {
        x as usize
    })
}

/// The first rewriting step: the now-redundant copies into the return slot
/// and the storage markers of the renamed local become no-ops.
pub open spec fn nop_phase(b: BodyV, l: usize) -> BodyV {
    BodyV {
        blocks: b.blocks.map_values(
            |bb: BasicBlockV| BasicBlockV {
                statements: bb.statements.map_values(
                    |s: StatementV| if ret_assign_source(s) == Some(l) || s == StatementV::StorageLive(l)
                        || s == StatementV::StorageDead(l) {
                        StatementV::Nop
                    } else {
                        s
                    },
                ),
                terminator: bb.terminator,
                is_cleanup: bb.is_cleanup,
            },
        ),
        locals: b.locals,
        arg_count: b.arg_count,
        debug: b.debug,
        phase: b.phase,
        source: b.source,
    }
}

/// The last rewriting step: the no-ops inserted by the renaming are dropped.
pub open spec fn drop_nops(b: BodyV) -> BodyV {
    BodyV {
        blocks: b.blocks.map_values(
            |bb: BasicBlockV| BasicBlockV {
                statements: bb.statements.filter(|s: StatementV| !(s is Nop)),
                terminator: bb.terminator,
                is_cleanup: bb.is_cleanup,
            },
        ),
        locals: b.locals,
        arg_count: b.arg_count,
        debug: b.debug,
        phase: b.phase,
        source: b.source,
    }
}

/// What the whole transformation produces for candidate `l`: redundant
/// copies and storage markers dropped, every use of `l` renamed to the
/// return slot, and the slot taking over the renamed local's declaration,
/// forced mutable.
pub open spec fn nrvo_spec(b: BodyV, l: usize) -> BodyV {
    let renamed = drop_nops(body_map_locals(rename_table(b, l), nop_phase(b, l)));
    BodyV {
        blocks: renamed.blocks,
        locals: b.locals.update(
            0,
            LocalDecl {
                ty: (if l < b.locals.len() {
                    b.locals[l as int].ty
                } else {
                    b.locals[0].ty
                }),
                mutable: true,
            },
        ),
        arg_count: b.arg_count,
        debug: renamed.debug,
        phase: b.phase,
        source: b.source,
    }
}

/// A positive scan result can only be the candidate it started with.
proof fn lemma_elig_cand(b: BodyV, i: int, x: usize)
    requires
        elig_from(b, i, Some(x)) is Some,
    ensures
        elig_from(b, i, Some(x)) == Some(x),
    decreases b.blocks.len() - i,
{
    if i < 0 || i >= b.blocks.len() {
    } else if !(b.blocks[i].terminator is Return) {
        lemma_elig_cand(b, i + 1, x);
    } else {
        match nrvo_chain(b.blocks, i as usize) {
            None => {},
            Some(l) => {
                if 1 <= l <= b.arg_count || l == 0 {
                } else {
                    lemma_elig_cand(b, i + 1, x);
                }
            },
        }
    }
}

/// A positive scan pins every later return path's chain to its result.
proof fn lemma_elig_sound(b: BodyV, i: int, cand: Option<usize>, j: usize)
    requires
        0 <= i <= j < b.blocks.len(),
        elig_from(b, i, cand) is Some,
        b.blocks[j as int].terminator is Return,
    ensures
        nrvo_chain(b.blocks, j) == Some(elig_from(b, i, cand)->0),
    decreases b.blocks.len() - i,
{
    if !(b.blocks[i].terminator is Return) {
        assert(elig_from(b, i, cand) == elig_from(b, i + 1, cand));
        assert(j != i);
        lemma_elig_sound(b, i + 1, cand, j);
    } else {
        match nrvo_chain(b.blocks, i as usize) {
            None => {},
            Some(l) => {
                if 1 <= l <= b.arg_count || l == 0 {
                } else {
                    match cand {
                        Some(c) => {
                            if c != l {
                            } else {
                                if j == i {
                                    lemma_elig_cand(b, i + 1, c);
                                } else {
                                    lemma_elig_sound(b, i + 1, cand, j);
                                }
                            }
                        },
                        None => {
                            if j == i {
                                lemma_elig_cand(b, i + 1, l);
                            } else {
                                lemma_elig_sound(b, i + 1, Some(l), j);
                            }
                        },
                    }
                }
            },
        }
    }
}

/// A return-terminated block whose own statements copy a local into the
/// return slot has that local as its chain result.
proof fn lemma_chain_direct(blocks: Seq<BasicBlockV>, i: usize, l: usize)
    requires
        i < blocks.len(),
        blocks.len() <= usize::MAX,
        find_ret_assign(blocks[i as int].statements) == Some(l),
    ensures
        nrvo_chain(blocks, i) == Some(l),
{
    let seen = Seq::new(blocks.len(), |x: int| false);
    assert(!seen[i as int]);
    assert(chain_find(blocks, i, seen, blocks.len() + 1) == Some(l));
}

/// When two return paths end in whole-local copies of two different locals
/// into the return slot, the body is ineligible for the renaming: the pass
/// cannot pick a single local and leaves the body unchanged.
pub proof fn lemma_nrvo_disagreement(b: BodyV, i1: usize, i2: usize, l1: usize, l2: usize)
    requires
        i1 < b.blocks.len(),
        i2 < b.blocks.len(),
        b.blocks.len() <= usize::MAX,
        b.blocks[i1 as int].terminator is Return,
        b.blocks[i2 as int].terminator is Return,
        find_ret_assign(b.blocks[i1 as int].statements) == Some(l1),
        find_ret_assign(b.blocks[i2 as int].statements) == Some(l2),
        l1 != l2,
    ensures
        nrvo_candidate(b) is None,
{
    if !return_place_read(b) {
        match elig_from(b, 0, None) {
            Some(r) => {
                lemma_elig_sound(b, 0, None, i1);
                lemma_elig_sound(b, 0, None, i2);
                lemma_chain_direct(b.blocks, i1, l1);
                lemma_chain_direct(b.blocks, i2, l2);
                assert(false);
            },
            None => {},
        }
    }
}

/// Renames the one local every return path copies into the return slot to be
/// the return slot itself.
pub struct RenameReturnPlace;

impl RenameReturnPlace {
    /// Whether the pass runs at the given session options.
    pub open spec fn enabled_spec(sess: Session) -> bool {
        sess.mir_opt_level > 0
    }

    /// Executable counterpart of [`RenameReturnPlace::enabled_spec`].
    pub fn is_enabled(&self, sess: &Session) -> (r: bool)
        ensures
            r == Self::enabled_spec(*sess),
    {
        sess.mir_opt_level > 0
    }

    /// Applies the renaming when the body is eligible and the cost collaborator
    /// agrees; an ineligible body is left untouched.
    pub fn run_pass(&self, ctx: &mut Ctx, body: &mut Body)
        requires
            body_wf(old(body)@),
        ensures
            old(ctx).same_queries(*final (ctx)),
            final (ctx).dumps@ == old(ctx).dumps@,
            final (ctx).diagnostics@ == old(ctx).diagnostics@,
            final (ctx).reported_derives@ == old(ctx).reported_derives@,
            body_wf(final (body)@),
            nrvo_candidate(old(body)@) is None ==> final (body)@ == old(body)@,
            (nrvo_candidate(old(body)@) is Some && old(ctx).fuel != Some(0u64))
                ==> final (body)@ == nrvo_spec(old(body)@, nrvo_candidate(old(body)@)->0),
            old(ctx).fuel == Some(0u64) ==> final (body)@ == old(body)@,
            final (body)@.arg_count == old(body)@.arg_count,
            final (body)@.phase == old(body)@.phase,
            final (body)@.source == old(body)@.source,
    {
        let ghost b0 = old(body)@;
        let returned_local = match Self::local_eligible_for_nrvo(body) {
            Some(l) => l,
            None => {
                return ;
            },
        };
        if !ctx.consider_optimizing() {
            proof {
                assert(!old(ctx).fuel_unlimited());
            }
            return ;
        }
        // Turn the redundant copies and the storage markers of the renamed
        // local into no-ops.
        let n = body.basic_blocks.len();
        let ghost np = nop_phase(b0, returned_local);
        let mut i: usize = 0;
        while i < n
            invariant
                body_wf(b0),
                b0 == old(body)@,
                np == nop_phase(b0, returned_local),
                n == b0.blocks.len(),
                body@.blocks.len() == n,
                body.basic_blocks@.len() == n,
                i <= n,
                forall|m: int| 0 <= m < i ==> #[trigger] body@.blocks[m] == np.blocks[m],
                forall|m: int| i <= m < n ==> #[trigger] body@.blocks[m] == b0.blocks[m],
                body@.locals == b0.locals,
                body@.arg_count == b0.arg_count,
                body@.debug == b0.debug,
                body@.phase == b0.phase,
                body@.source == b0.source,
            decreases n - i,
        {
            let mut bb = body.take_block(i);
            let ghost bbv = bb@;
            proof {
                assert(bbv == b0.blocks[i as int]);
            }
            let ghost sv = bbv.statements;
            let sn = bb.statements.len();
            let mut k: usize = 0;
            while k < sn
                invariant
                    sn == bb.statements@.len(),
                    sv.len() == sn,
                    sv == b0.blocks[i as int].statements,
                    np == nop_phase(b0, returned_local),
                    i < n,
                    n == b0.blocks.len(),
                    k <= sn,
                    bb.terminator@ == bbv.terminator,
                    bb.is_cleanup == bbv.is_cleanup,
                    forall|x: int| 0 <= x < k ==> (#[trigger] bb.statements@[x])@
                        == np.blocks[i as int].statements[x],
                    forall|x: int| k <= x < sn ==> (#[trigger] bb.statements@[x])@ == sv[x],
                decreases sn - k,
            {
                let is_target = match ret_assign_source_of(&bb.statements[k]) {
                    Some(l) => l == returned_local,
                    None => false,
                };
                let is_marker = match &bb.statements[k] {
                    Statement::StorageLive(l) => *l == returned_local,
                    Statement::StorageDead(l) => *l == returned_local,
                    _ => false,
                };
                if is_target || is_marker {
                    bb.statements[k] = Statement::Nop;
                }
                proof {
                    assert((bb.statements@[k as int])@ == np.blocks[i as int].statements[k as int]);
                }
                k = k + 1;
            }
            proof {
                assert(bb@ =~= np.blocks[i as int]);
                assert(body.basic_blocks@.len() == body@.blocks.len());
            }
            body.put_block(i, bb);
            proof {
                assert(body.basic_blocks@.len() == body@.blocks.len());
            }
            i = i + 1;
        }
        proof {
            assert(body@.blocks =~= np.blocks);
            assert(body@ =~= np);
        }
        // Rename every use of the local to the return slot.
        let ln = body.local_decls.len();
        let mut table: Vec<usize> = Vec::new();
        let mut l: usize = 0;
        while l < ln
            invariant
                l <= ln,
                table@.len() == l,
                forall|x: int| 0 <= x < l ==> #[trigger] table@[x] == (if x == returned_local {
                    0usize
                } else {
                    x as usize
                }),
            decreases ln - l,
        {
            if l == returned_local {
                table.push(0);
            } else {
                table.push(l);
            }
            l = l + 1;
        }
        proof {
            assert(table@ =~= rename_table(b0, returned_local));
        }
        map_locals(&table, body);
        let ghost renamed = body_map_locals(rename_table(b0, returned_local), np);
        // Physically drop the no-ops the renaming left behind.
        let mut i: usize = 0;
        while i < n
            invariant
                renamed == body_map_locals(rename_table(b0, returned_local), np),
                n == renamed.blocks.len(),
                body@.blocks.len() == n,
                body.basic_blocks@.len() == n,
                i <= n,
                forall|m: int| 0 <= m < i ==> #[trigger] body@.blocks[m] == drop_nops(
                    renamed,
                ).blocks[m],
                forall|m: int| i <= m < n ==> #[trigger] body@.blocks[m] == renamed.blocks[m],
                body@.locals == renamed.locals,
                body@.arg_count == renamed.arg_count,
                body@.debug == renamed.debug,
                body@.phase == renamed.phase,
                body@.source == renamed.source,
            decreases n - i,
        {
            let bb = body.take_block(i);
            let ghost bbv = bb@;
            proof {
                assert(bbv == renamed.blocks[i as int]);
            }
            let mut stmts = bb.statements;
            let terminator = bb.terminator;
            let is_cleanup = bb.is_cleanup;
            let ghost sv = stmts@.map_values(|s: Statement| s@);
            let mut out: Vec<Statement> = Vec::new();
            let sn = stmts.len();
            let mut k: usize = 0;
            proof {
                reveal_with_fuel(Seq::<int>::filter, 1);
                assert(stmts@.map_values(|s: Statement| s@) =~= sv.skip(0));
                assert(sv.take(0).len() == 0);
                assert(out@.map_values(|s: Statement| s@) =~= sv.take(0).filter(
                    |s: StatementV| !(s is Nop),
                ));
            }
            while k < sn
                invariant
                    k <= sn,
                    sn == sv.len(),
                    stmts@.map_values(|s: Statement| s@) == sv.skip(k as int),
                    out@.map_values(|s: Statement| s@) == sv.take(k as int).filter(
                        |s: StatementV| !(s is Nop),
                    ),
                decreases sn - k,
            {
                let ghost sbefore = stmts@;
                proof {
                    assert(sbefore.map_values(|s: Statement| s@).len() == sbefore.len());
                }
                let st = stmts.remove(0);
                proof {
                    assert(sbefore.map_values(|s: Statement| s@)[0] == st@);
                    assert(st@ == sv[k as int]);
                    assert forall|x: int| 0 <= x < stmts@.len() implies (#[trigger] stmts@[x])@
                        == sv.skip(k + 1)[x] by {
                        assert(stmts@[x] == sbefore[x + 1]);
                        assert(sbefore.map_values(|s: Statement| s@)[x + 1] == sv.skip(
                            k as int,
                        )[x + 1]);
                    }
                    assert(stmts@.map_values(|s: Statement| s@) =~= sv.skip(k + 1));
                    crate::ir::lemma_filter_take_step(sv, |s: StatementV| !(s is Nop), k as int);
                }
                let keep = match &st {
                    Statement::Nop => false,
                    _ => true,
                };
                proof {
                    assert(keep == !(st@ is Nop));
                }
                if keep {
                    let ghost obefore = out@;
                    out.push(st);
                    proof {
                        assert(out@.map_values(|s: Statement| s@) =~= obefore.map_values(
                            |s: Statement| s@,
                        ).push(sv[k as int]));
                    }
                }
                k = k + 1;
            }
            proof {
                assert(sv.take(sn as int) =~= sv);
            }
            let newblock = crate::ir::BasicBlock { statements: out, terminator, is_cleanup };
            proof {
                assert(newblock@ =~= drop_nops(renamed).blocks[i as int]);
                assert(body.basic_blocks@.len() == body@.blocks.len());
            }
            body.put_block(i, newblock);
            proof {
                assert(body.basic_blocks@.len() == body@.blocks.len());
            }
            i = i + 1;
        }
        // The return slot takes over the renamed local's declaration and is
        // always mutable.
        if returned_local < body.local_decls.len() {
            let d = body.local_decls[returned_local];
            body.local_decls[0] = LocalDecl { ty: d.ty, mutable: true };
        } else {
            let d = body.local_decls[0];
            body.local_decls[0] = LocalDecl { ty: d.ty, mutable: true };
        }
        proof {
            assert(body@.blocks =~= nrvo_spec(b0, returned_local).blocks);
            assert(body@.locals =~= nrvo_spec(b0, returned_local).locals);
            assert(body@ =~= nrvo_spec(b0, returned_local));
            assert forall|m: int| 0 <= m < n implies term_ok(
                #[trigger] body@.blocks[m].terminator,
                body@.blocks,
            ) by {
                lemma_term_map_edges(
                    rename_table(b0, returned_local),
                    np.blocks[m].terminator,
                );
                crate::ir::lemma_term_ok_same_shape(b0.blocks[m].terminator, b0.blocks, body@.blocks);
            }
        }
    }

    /// The executable eligibility check, mirroring [`nrvo_candidate`].
    fn local_eligible_for_nrvo(body: &Body) -> (r: Option<usize>)
        requires
            body_wf(body@),
        ensures
            r == nrvo_candidate(body@),
    {
        if Self::is_return_place_read(body) {
            return None;
        }
        let n = body.basic_blocks.len();
        // One incoming-edge count and one predecessor per block.
        let mut pcount: Vec<usize> = Vec::new();
        let mut pone: Vec<usize> = Vec::new();
        let mut i: usize = 0;
        while i < n
            invariant
                i <= n,
                pcount@.len() == i,
                pone@.len() == i,
                forall|x: int| 0 <= x < i ==> #[trigger] pcount@[x] == 0,
            decreases n - i,
        {
            pcount.push(0);
            pone.push(0);
            i = i + 1;
        }
        let ghost blocks = body@.blocks;
        let mut i: usize = 0;
        while i < n
            invariant
                body_wf(body@),
                blocks == body@.blocks,
                n == blocks.len(),
                n == body.basic_blocks@.len(),
                pcount@.len() == n,
                pone@.len() == n,
                i <= n,
                forall|t: int| 0 <= t < n ==> #[trigger] pcount@[t] == preds_below(
                    blocks,
                    t as usize,
                    i as int,
                ) || (pcount@[t] == usize::MAX && preds_below(blocks, t as usize, i as int)
                    >= usize::MAX),
                forall|t: int|
                    0 <= t < n && pcount@[t] > 0 ==> edge(blocks, #[trigger] pone@[t], t as usize),
            decreases n - i,
        {
            let succs = crate::simplify::term_succs_vec(&body.basic_blocks[i].terminator);
            let ghost svv = succs@;
            proof {
                assert(body@.blocks[i as int] == body.basic_blocks@[i as int]@);
                assert(svv == blocks[i as int].terminator.succs());
                assert(term_ok(blocks[i as int].terminator, blocks));
            }
            let m = succs.len();
            let mut e: usize = 0;
            while e < m
                invariant
                    body_wf(body@),
                    blocks == body@.blocks,
                    n == blocks.len(),
                    i < n,
                    m == svv.len(),
                    succs@ == svv,
                    svv == blocks[i as int].terminator.succs(),
                    forall|x: int| 0 <= x < m ==> #[trigger] svv[x] < n,
                    e <= m,
                    pcount@.len() == n,
                    pone@.len() == n,
                    forall|t: int| 0 <= t < n ==> #[trigger] pcount@[t] as nat == (preds_below(
                        blocks,
                        t as usize,
                        i as int,
                    ) + count_in(svv.take(e as int), t as usize)) || (pcount@[t] == usize::MAX
                        && preds_below(blocks, t as usize, i as int) + count_in(
                        svv.take(e as int),
                        t as usize,
                    ) >= usize::MAX),
                    forall|t: int|
                        0 <= t < n && pcount@[t] > 0 ==> edge(
                            blocks,
                            #[trigger] pone@[t],
                            t as usize,
                        ),
            decreases m - e,
        {
                let s = succs[e];
                proof {
                    assert(svv.take(e + 1).drop_last() =~= svv.take(e as int));
                    assert(svv.take(e + 1).last() == svv[e as int]);
                    assert(svv[e as int] < n);
                    assert(blocks[i as int].terminator.succs().contains(svv[e as int])) by {
                        assert(blocks[i as int].terminator.succs()[e as int] == svv[e as int]);
                    }
                    assert(edge(blocks, i, s));
                }
                let c = pcount[s];
                if c < usize::MAX {
                    pcount[s] = c + 1;
                }
                pone[s] = i;
                e = e + 1;
            }
            proof {
                assert(svv.take(m as int) =~= svv);
                assert forall|t: int| 0 <= t < n implies #[trigger] pcount@[t] == preds_below(
                    blocks,
                    t as usize,
                    i + 1,
                ) || (pcount@[t] == usize::MAX && preds_below(blocks, t as usize, i + 1)
                    >= usize::MAX) by {
                    assert(preds_below(blocks, t as usize, i + 1) == preds_below(
                        blocks,
                        t as usize,
                        i as int,
                    ) + count_in(svv, t as usize));
                }
            }
            i = i + 1;
        }
        // Walk every return-terminated block's chain.
        let mut cand: Option<usize> = None;
        let mut i: usize = 0;
        while i < n
            invariant
                body_wf(body@),
                blocks == body@.blocks,
                n == blocks.len(),
                n == body.basic_blocks@.len(),
                pcount@.len() == n,
                pone@.len() == n,
                forall|t: int| 0 <= t < n ==> #[trigger] pcount@[t] == preds_of(blocks, t as usize)
                    || (pcount@[t] == usize::MAX && preds_of(blocks, t as usize) >= usize::MAX),
                forall|t: int|
                    0 <= t < n && pcount@[t] > 0 ==> edge(blocks, #[trigger] pone@[t], t as usize),
                i <= n,
                elig_from(body@, 0, None) == elig_from(body@, i as int, cand),
            decreases n - i,
        {
            let is_return = match &body.basic_blocks[i].terminator {
                crate::ir::Terminator::Return => true,
                _ => false,
            };
            proof {
                assert(body@.blocks[i as int] == body.basic_blocks@[i as int]@);
            }
            if is_return {
                let found = Self::chain_walk(body, &pcount, &pone, i, Ghost(blocks));
                match found {
                    None => {
                        proof {
                            assert(elig_from(body@, i as int, cand) is None);
                        }
                        return None;
                    },
                    Some(l) => {
                        if l == 0 || (1 <= l && l <= body.arg_count) {
                            proof {
                                assert(elig_from(body@, i as int, cand) is None);
                            }
                            return None;
                        }
                        match cand {
                            Some(c) => {
                                if c != l {
                                    proof {
                                        assert(elig_from(body@, i as int, cand) is None);
                                    }
                                    return None;
                                }
                            },
                            None => {
                                cand = Some(l);
                            },
                        }
                    },
                }
            }
            i = i + 1;
        }
        cand
    }

    /// The executable chain walk, mirroring [`nrvo_chain`].
    fn chain_walk(
        body: &Body,
        pcount: &Vec<usize>,
        pone: &Vec<usize>,
        start: usize,
        Ghost(blocks): Ghost<Seq<crate::ir::BasicBlockV>>,
    ) -> (r: Option<usize>)
        requires
            body_wf(body@),
            blocks == body@.blocks,
            start < blocks.len(),
            pcount@.len() == blocks.len(),
            pone@.len() == blocks.len(),
            forall|t: int|
                0 <= t < blocks.len() ==> #[trigger] pcount@[t] == preds_of(blocks, t as usize)
                    || (pcount@[t] == usize::MAX && preds_of(blocks, t as usize) >= usize::MAX),
            forall|t: int|
                0 <= t < blocks.len() && pcount@[t] > 0 ==> edge(
                    blocks,
                    #[trigger] pone@[t],
                    t as usize,
                ),
        ensures
            r == nrvo_chain(blocks, start),
    {
        let n = body.basic_blocks.len();
        let mut seen: Vec<bool> = Vec::new();
        let mut i: usize = 0;
        while i < n
            invariant
                i <= n,
                seen@.len() == i,
                forall|x: int| 0 <= x < i ==> !(#[trigger] seen@[x]),
            decreases n - i,
        {
            seen.push(false);
            i = i + 1;
        }
        let mut block = start;
        let ghost fuel0: nat = blocks.len() + 1;
        let ghost mut fuel: nat = fuel0;
        proof {
            assert(seen@ =~= Seq::new(blocks.len(), |x: int| false));
            crate::simplify::lemma_count_false_le(seen@);
            assert(fuel >= count_false(seen@) + 1);
        }
        loop
            invariant
                body_wf(body@),
                blocks == body@.blocks,
                n == blocks.len(),
                n == body.basic_blocks@.len(),
                pcount@.len() == n,
                pone@.len() == n,
                forall|t: int|
                    0 <= t < n ==> #[trigger] pcount@[t] == preds_of(blocks, t as usize) || (
                    pcount@[t] == usize::MAX && preds_of(blocks, t as usize) >= usize::MAX),
                forall|t: int|
                    0 <= t < n && pcount@[t] > 0 ==> edge(blocks, #[trigger] pone@[t], t as usize),
                seen@.len() == n,
                block < n,
                fuel >= count_false(seen@) + 1,
                nrvo_chain(blocks, start) == chain_find(blocks, block, seen@, fuel),
            decreases count_false(seen@),
        {
            if seen[block] {
                proof {
                    assert(chain_find(blocks, block, seen@, fuel) is None);
                }
                return None;
            }
            proof {
                assert(fuel > 0);
            }
            let found = Self::block_find_ret_assign(&body.basic_blocks[block]);
            proof {
                assert(body@.blocks[block as int] == body.basic_blocks@[block as int]@);
            }
            match found {
                Some(l) => {
                    proof {
                        assert(chain_find(blocks, block, seen@, fuel) == Some(l));
                    }
                    return Some(l);
                },
                None => {},
            }
            if pcount[block] != 1 {
                proof {
                    assert(preds_of(blocks, block) != 1);
                    assert(chain_find(blocks, block, seen@, fuel) is None);
                }
                return None;
            }
            let pred = pone[block];
            proof {
                assert(pcount@[block as int] == 1);
                assert(preds_of(blocks, block) == 1);
                assert(edge(blocks, pone@[block as int], block));
                // The unique incoming edge pins the predecessor down.
                let cj = the_pred(blocks, block);
                assert(edge(blocks, cj, block));
                if cj != pred {
                    if cj < pred {
                        lemma_two_preds(blocks, block, cj, pred);
                    } else {
                        lemma_two_preds(blocks, block, pred, cj);
                    }
                    assert(false);
                }
                crate::simplify::lemma_count_false_update(seen@, block as int);
            }
            seen[block] = true;
            proof {
                fuel = (fuel - 1) as nat;
                assert(chain_find(blocks, pred, seen@, fuel) == nrvo_chain(blocks, start));
            }
            block = pred;
        }
    }

    /// The most recent whole-local copy into the return slot within one
    /// block's statements.
    fn block_find_ret_assign(bb: &crate::ir::BasicBlock) -> (r: Option<usize>)
        ensures
            r == find_ret_assign(bb@.statements),
    {
        let ghost sv = bb@.statements;
        let n = bb.statements.len();
        let mut k: usize = n;
        proof {
            assert(sv.take(n as int) =~= sv);
        }
        while k > 0
            invariant
                n == bb.statements@.len(),
                sv == bb@.statements,
                sv.len() == n,
                k <= n,
                find_ret_assign(sv) == find_ret_assign(sv.take(k as int)),
            decreases k,
        {
            proof {
                assert(sv.take(k as int).drop_last() =~= sv.take(k - 1));
                assert(sv.take(k as int).last() == sv[k - 1]);
                assert(bb.statements@[k - 1]@ == sv[k - 1]);
            }
            match ret_assign_source_of(&bb.statements[k - 1]) {
                Some(l) => {
                    return Some(l);
                },
                None => {},
            }
            k = k - 1;
        }
        proof {
            assert(sv.take(0).len() == 0);
        }
        None
    }

    /// The executable read check, mirroring [`return_place_read`].
    fn is_return_place_read(body: &Body) -> (r: bool)
        ensures
            r == return_place_read(body@),
    {
        let n = body.basic_blocks.len();
        let mut i: usize = 0;
        while i < n
            invariant
                n == body.basic_blocks@.len(),
                i <= n,
                forall|i2: int, k2: int| 0 <= i2 < i ==> !(#[trigger] slot_reads(body@, i2, k2)),
            decreases n - i,
        {
            proof {
                assert(body@.blocks[i as int] == body.basic_blocks@[i as int]@);
            }
            let sn = body.basic_blocks[i].statements.len();
            let mut k: usize = 0;
            while k < sn
                invariant
                    n == body.basic_blocks@.len(),
                    i < n,
                    sn == body@.blocks[i as int].statements.len(),
                    k <= sn,
                    forall|i2: int, k2: int|
                        0 <= i2 < i ==> !(#[trigger] slot_reads(body@, i2, k2)),
                    forall|k2: int| 0 <= k2 < k ==> !(#[trigger] slot_reads(body@, i as int, k2)),
                decreases sn - k,
            {
                proof {
                    assert(body@.blocks[i as int].statements[k as int]
                        == body.basic_blocks@[i as int].statements@[k as int]@);
                }
                let mut us: Vec<(usize, UseCtx)> = Vec::new();
                crate::visit::collect_stmt_uses(&mut us, &body.basic_blocks[i].statements[k]);
                proof {
                    assert(us@ =~= stmt_uses(body@.blocks[i as int].statements[k as int]));
                }
                if Self::scan_reads(&us) {
                    proof {
                        assert(slot_reads(body@, i as int, k as int));
                    }
                    return true;
                }
                k = k + 1;
            }
            let mut us: Vec<(usize, UseCtx)> = Vec::new();
            crate::visit::collect_term_uses(&mut us, &body.basic_blocks[i].terminator);
            proof {
                assert(us@ =~= term_uses(body@.blocks[i as int].terminator));
            }
            if Self::scan_reads(&us) {
                proof {
                    assert(slot_reads(
                        body@,
                        i as int,
                        body@.blocks[i as int].statements.len() as int,
                    ));
                }
                return true;
            }
            i = i + 1;
        }
        false
    }

    /// Whether a use list contains a read of the return slot.
    fn scan_reads(us: &Vec<(usize, UseCtx)>) -> (r: bool)
        ensures
            r == reads_ret(us@),
    {
        let n = us.len();
        let mut x: usize = 0;
        while x < n
            invariant
                n == us@.len(),
                x <= n,
                forall|y: int|
                    0 <= y < x ==> !((#[trigger] us@[y]).0 == 0 && us@[y].1.is_use
                        && !us@[y].1.assignment),
            decreases n - x,
        {
            let (l, c) = us[x];
            if l == 0 && c.is_use && !c.assignment {
                proof {
                    assert((us@[x as int]).0 == 0 && us@[x as int].1.is_use
                        && !us@[x as int].1.assignment);
                }
                return true;
            }
            x = x + 1;
        }
        false
    }
}

} // verus!
