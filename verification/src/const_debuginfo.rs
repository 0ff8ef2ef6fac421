//! A pass that finds locals assigned once to a constant and otherwise unused
//! except by debug info, and rewrites their debug-info entries to carry the
//! constant directly, letting the local be removed later.

use vstd::prelude::*;

use crate::context::{Ctx, Session};
use crate::ir::{
    body_wf, Body, BodyV, Constant, DebugContents, DebugContentsV, OperandV, RvalueV,
    Statement, StatementV, VarDebugInfoV,
};
use crate::visit::{collect_stmt_uses, collect_term_uses, stmt_uses, term_uses, UseCtx};

verus! {

/// The uses at slot `k` of block `i`: a statement, or, at the position one
/// past the statements, the terminator.
pub open spec fn slot_uses(b: BodyV, i: int, k: int) -> Seq<(usize, UseCtx)> {
    if 0 <= i < b.blocks.len() && 0 <= k < b.blocks[i].statements.len() {
        stmt_uses(b.blocks[i].statements[k])
    } else if 0 <= i < b.blocks.len() && k == b.blocks[i].statements.len() {
        term_uses(b.blocks[i].terminator)
    } else {
        Seq::<(usize, UseCtx)>::empty()
    }
}

/// How many mutating uses of `l` a use list holds.
pub open spec fn count_mut(us: Seq<(usize, UseCtx)>, l: usize) -> nat
    decreases us.len(),
{
    if us.len() == 0 {
        0
    } else {
        count_mut(us.drop_last(), l) + (if us.last().0 == l && us.last().1.mutating {
            1nat
        } else {
            0nat
        })
    }
}

/// Whether a use list assigns the whole local `l`.
pub open spec fn has_assign(us: Seq<(usize, UseCtx)>, l: usize) -> bool {
    exists|x: int| 0 <= x < us.len() && (#[trigger] us[x]).0 == l && us[x].1.assignment
}

/// The mutating uses of `l` in the first `i` blocks plus the first `k` slots
/// of block `i`.
pub open spec fn count_upto(b: BodyV, i: int, k: int, l: usize) -> nat
    decreases i, k,
{
    if i <= 0 && k <= 0 {
        0
    } else if k <= 0 {
        count_upto(b, i - 1, b.blocks[i - 1].statements.len() as int + 1, l)
    } else {
        count_upto(b, i, k - 1, l) + count_mut(slot_uses(b, i, k - 1), l)
    }
}

/// The last slot, in scan order, that assigns the whole local `l`, among the
/// first `i` blocks plus the first `k` slots of block `i`.
pub open spec fn assign_loc_upto(b: BodyV, i: int, k: int, l: usize) -> Option<(int, int)>
    decreases i, k,
{
    if i <= 0 && k <= 0 {
        None
    } else if k <= 0 {
        assign_loc_upto(b, i - 1, b.blocks[i - 1].statements.len() as int + 1, l)
    } else {
        if has_assign(slot_uses(b, i, k - 1), l) {
            Some((i, k - 1))
        } else {
            assign_loc_upto(b, i, k - 1, l)
        }
    }
}

/// The mutating uses of `l` in the whole body.
pub open spec fn count_total(b: BodyV, l: usize) -> nat {
    count_upto(b, b.blocks.len() as int, 0, l)
}

/// The recorded assignment location of `l` for the whole body.
pub open spec fn assign_loc_total(b: BodyV, l: usize) -> Option<(int, int)> {
    assign_loc_upto(b, b.blocks.len() as int, 0, l)
}

/// Whether some debug-info entry observes the bare local `l`.
pub open spec fn debug_has_bare(b: BodyV, l: usize) -> bool {
    exists|j: int|
        0 <= j < b.debug.len() && (match (#[trigger] b.debug[j]).value {
            DebugContentsV::Place(p) => p.as_local() == Some(l),
            DebugContentsV::Const(_) => false,
        })
}

/// The constant a local's debug info may be folded to: the local has exactly
/// one mutating use, some debug entry observes it bare, and that one use is
/// a statement assigning a literal constant to the bare local.
pub open spec fn elig_const(b: BodyV, l: usize) -> Option<Constant> {
    if l < b.locals.len() && count_total(b, l) == 1 && debug_has_bare(b, l) {
        match assign_loc_total(b, l) {
            Some((i, k)) => {
                if 0 <= i < b.blocks.len() && 0 <= k < b.blocks[i].statements.len() {
                    match b.blocks[i].statements[k] {
                        StatementV::Assign(p, RvalueV::Use(OperandV::Constant(c))) => {
                            if p.as_local() == Some(l) {
                                Some(c)
                            } else {
                                None
                            }
                        },
                        _ => None,
                    }
                } else {
                    None
                }
            },
            None => None,
        }
    } else {
        None
    }
}

/// What the pass produces: every debug entry naming an eligible bare local
/// carries the assigned constant instead.
pub open spec fn const_debuginfo_spec(b: BodyV) -> BodyV {
    BodyV {
        blocks: b.blocks,
        locals: b.locals,
        arg_count: b.arg_count,
        debug: b.debug.map_values(
            |d: VarDebugInfoV| VarDebugInfoV {
                name: d.name,
                value: (match d.value {
                    DebugContentsV::Place(p) => {
                        if p.projection.len() == 0 && elig_const(b, p.local) is Some {
                            DebugContentsV::Const(elig_const(b, p.local)->0)
                        } else {
                            d.value
                        }
                    },
                    DebugContentsV::Const(_) => d.value,
                }),
            },
        ),
        phase: b.phase,
        source: b.source,
    }
}

/// Folds single-assignment constants into the debug info that observes them.
pub struct ConstDebugInfo;

impl ConstDebugInfo {
    /// Whether the pass runs: it is opt-in, behind the unsound-optimizations
    /// flag, and needs some optimization level.
    pub open spec fn enabled_spec(sess: Session) -> bool {
        sess.unsound_mir_opts && sess.mir_opt_level > 0
    }

    /// Executable counterpart of [`ConstDebugInfo::enabled_spec`].
    pub fn is_enabled(&self, sess: &Session) -> (r: bool)
        ensures
            r == Self::enabled_spec(*sess),
    {
        sess.unsound_mir_opts && sess.mir_opt_level > 0
    }

    /// Rewrites every debug entry of every eligible local to carry the
    /// assigned constant.
    pub fn run_pass(&self, ctx: &mut Ctx, body: &mut Body)
        requires
            body_wf(old(body)@),
        ensures
            *final (ctx) == *old(ctx),
            body_wf(final (body)@),
            final (body)@ == const_debuginfo_spec(old(body)@),
    {
        let ghost b0 = old(body)@;
        let ln = body.local_decls.len();
        let n = body.basic_blocks.len();
        // Count the mutating uses and record the assignment slots.
        let mut counts: Vec<u8> = Vec::new();
        let mut locs: Vec<Option<(usize, usize)>> = Vec::new();
        let mut l: usize = 0;
        while l < ln
            invariant
                l <= ln,
                counts@.len() == l,
                locs@.len() == l,
                forall|x: int| 0 <= x < l ==> #[trigger] counts@[x] == 0,
                forall|x: int| 0 <= x < l ==> #[trigger] locs@[x] is None,
            decreases ln - l,
        {
            counts.push(0);
            locs.push(None);
            l = l + 1;
        }
        let mut i: usize = 0;
        while i < n
            invariant
                b0 == old(body)@,
                body@ == b0,
                n == b0.blocks.len(),
                n == body.basic_blocks@.len(),
                ln == b0.locals.len(),
                ln == body.local_decls@.len(),
                i <= n,
                counts@.len() == ln,
                locs@.len() == ln,
                forall|x: int|
                    0 <= x < ln ==> #[trigger] counts@[x] as nat == (if count_upto(
                        b0,
                        i as int,
                        0,
                        x as usize,
                    ) < 255 {
                        count_upto(b0, i as int, 0, x as usize)
                    } else {
                        255nat
                    }),
                forall|x: int| 0 <= x < ln ==> #[trigger] locs@[x] == (match assign_loc_upto(
                    b0,
                    i as int,
                    0,
                    x as usize,
                ) {
                    Some((bi, bk)) => Some((bi as usize, bk as usize)),
                    None => None::<(usize, usize)>,
                }),
            decreases n - i,
        {
            let sn = body.basic_blocks[i].statements.len();
            let mut k: usize = 0;
            while k < sn
                invariant
                    b0 == old(body)@,
                    body@ == b0,
                    n == b0.blocks.len(),
                    n == body.basic_blocks@.len(),
                    ln == b0.locals.len(),
                    i < n,
                    sn == b0.blocks[i as int].statements.len(),
                    k <= sn,
                    counts@.len() == ln,
                    locs@.len() == ln,
                    forall|x: int|
                        0 <= x < ln ==> #[trigger] counts@[x] as nat == (if count_upto(
                            b0,
                            i as int,
                            k as int,
                            x as usize,
                        ) < 255 {
                            count_upto(b0, i as int, k as int, x as usize)
                        } else {
                            255nat
                        }),
                    forall|x: int| 0 <= x < ln ==> #[trigger] locs@[x] == (
                    match assign_loc_upto(b0, i as int, k as int, x as usize) {
                        Some((bi, bk)) => Some((bi as usize, bk as usize)),
                        None => None::<(usize, usize)>,
                    }),
                decreases sn - k,
            {
                let mut us: Vec<(usize, UseCtx)> = Vec::new();
                proof {
                    assert(body@.blocks[i as int].statements[k as int]
                        == body.basic_blocks@[i as int].statements@[k as int]@);
                }
                collect_stmt_uses(&mut us, &body.basic_blocks[i].statements[k]);
                proof {
                    assert(us@ =~= slot_uses(b0, i as int, k as int));
                }
                Self::scan_slot(&mut counts, &mut locs, &us, i, k, Ghost(b0));
                k = k + 1;
            }
            let mut us: Vec<(usize, UseCtx)> = Vec::new();
            proof {
                assert(body@.blocks[i as int] == body.basic_blocks@[i as int]@);
            }
            collect_term_uses(&mut us, &body.basic_blocks[i].terminator);
            proof {
                assert(us@ =~= slot_uses(b0, i as int, sn as int));
            }
            Self::scan_slot(&mut counts, &mut locs, &us, i, sn, Ghost(b0));
            proof {
                assert forall|y: int| 0 <= y < ln implies #[trigger] count_upto(
                    b0,
                    i + 1,
                    0,
                    y as usize,
                ) == count_upto(b0, i as int, sn + 1, y as usize) by {
                }
                assert forall|y: int| 0 <= y < ln implies #[trigger] assign_loc_upto(
                    b0,
                    i + 1,
                    0,
                    y as usize,
                ) == assign_loc_upto(b0, i as int, sn + 1, y as usize) by {
                }
            }
            i = i + 1;
        }
        // Which locals some debug entry observes bare.
        let dn = body.var_debug_info.len();
        let mut in_debug: Vec<bool> = Vec::new();
        let mut l: usize = 0;
        while l < ln
            invariant
                l <= ln,
                in_debug@.len() == l,
                forall|x: int| 0 <= x < l ==> !(#[trigger] in_debug@[x]),
            decreases ln - l,
        {
            in_debug.push(false);
            l = l + 1;
        }
        let mut j: usize = 0;
        while j < dn
            invariant
                b0 == old(body)@,
                body@ == b0,
                dn == b0.debug.len(),
                dn == body.var_debug_info@.len(),
                ln == b0.locals.len(),
                j <= dn,
                in_debug@.len() == ln,
                forall|y: int|
                    0 <= y < ln ==> (#[trigger] in_debug@[y] <==> exists|j2: int|
                        0 <= j2 < j && (match (#[trigger] b0.debug[j2]).value {
                            DebugContentsV::Place(p) => p.as_local() == Some(y as usize),
                            DebugContentsV::Const(_) => false,
                        })),
            decreases dn - j,
        {
            proof {
                assert(body@.debug[j as int] == body.var_debug_info@[j as int]@);
            }
            let bare: Option<usize> = match &body.var_debug_info[j].value {
                DebugContents::Place(p) => p.as_local(),
                DebugContents::Const(_) => None,
            };
            match bare {
                Some(bl) => {
                    if bl < ln && !in_debug[bl] {
                        in_debug[bl] = true;
                    }
                },
                None => {},
            }
            j = j + 1;
        }
        proof {
            assert forall|y: int| 0 <= y < ln implies (#[trigger] in_debug@[y] <==> debug_has_bare(
                b0,
                y as usize,
            )) by {
            }
        }
        // Rewrite the debug entries of the eligible locals.
        let ghost spec_after = const_debuginfo_spec(b0);
        let mut j: usize = 0;
        while j < dn
            invariant
                b0 == old(body)@,
                spec_after == const_debuginfo_spec(b0),
                dn == b0.debug.len(),
                dn == body.var_debug_info@.len(),
                ln == b0.locals.len(),
                n == b0.blocks.len(),
                n == body.basic_blocks@.len(),
                counts@.len() == ln,
                locs@.len() == ln,
                in_debug@.len() == ln,
                forall|x: int|
                    0 <= x < ln ==> #[trigger] counts@[x] as nat == (if count_total(b0, x as usize)
                        < 255 {
                        count_total(b0, x as usize)
                    } else {
                        255nat
                    }),
                forall|x: int| 0 <= x < ln ==> #[trigger] locs@[x] == (match assign_loc_total(
                    b0,
                    x as usize,
                ) {
                    Some((bi, bk)) => Some((bi as usize, bk as usize)),
                    None => None::<(usize, usize)>,
                }),
                forall|y: int|
                    0 <= y < ln ==> (#[trigger] in_debug@[y] <==> debug_has_bare(b0, y as usize)),
                j <= dn,
                body@.blocks == b0.blocks,
                body@.locals == b0.locals,
                body@.arg_count == b0.arg_count,
                body@.phase == b0.phase,
                body@.source == b0.source,
                forall|x: int| 0 <= x < j ==> #[trigger] body@.debug[x] == spec_after.debug[x],
                forall|x: int| j <= x < dn ==> #[trigger] body@.debug[x] == b0.debug[x],
            decreases dn - j,
        {
            proof {
                assert(body@.debug[j as int] == body.var_debug_info@[j as int]@);
            }
            let bare: Option<usize> = match &body.var_debug_info[j].value {
                DebugContents::Place(p) => p.as_local(),
                DebugContents::Const(_) => None,
            };
            let replace: Option<Constant> = match bare {
                Some(bl) => {
                    if bl < ln && counts[bl] == 1 && in_debug[bl] {
                        match locs[bl] {
                            Some((bi, bk)) => {
                                proof {
                                    assert(bi < n && bk <= b0.blocks[bi as int].statements.len())
                                        by {
                                        lemma_assign_loc_in_range(
                                            b0,
                                            n as int,
                                            0,
                                            bl,
                                        );
                                    }
                                    assert(body@.blocks[bi as int] == body.basic_blocks@[bi as int]@);
                                }
                                if bk < body.basic_blocks[bi].statements.len() {
                                    proof {
                                        assert(body@.blocks[bi as int].statements[bk as int]
                                            == body.basic_blocks@[bi as int].statements@[bk as int]@);
                                    }
                                    match &body.basic_blocks[bi].statements[bk] {
                                        Statement::Assign(
                                            p,
                                            crate::ir::Rvalue::Use(crate::ir::Operand::Constant(c)),
                                        ) => {
                                            match p.as_local() {
                                                Some(pl) => {
                                                    if pl == bl {
                                                        proof {
                                                            match assign_loc_total(b0, bl) {
                                                                Some((sbi, sbk)) => {
                                                                    lemma_assign_loc_in_range(
                                                                        b0,
                                                                        n as int,
                                                                        0,
                                                                        bl,
                                                                    );
                                                                    assert(0 <= sbi < n);
                                                                    assert(bi == sbi as usize);
                                                                    assert(sbi == bi as int);
                                                                    assert(b0.blocks[sbi].statements.len()
                                                                        == body.basic_blocks@[sbi].statements@.len());
                                                                    assert(sbk <= b0.blocks[sbi].statements.len());
                                                                    assert(bk == sbk as usize);
                                                                    assert(sbk == bk as int);
                                                                    assert(elig_const(
                                                                        b0,
                                                                        bl,
                                                                    ) is Some);
                                                                },
                                                                None => {
                                                                    assert(false);
                                                                },
                                                            }
                                                        }
                                                        Some(*c)
                                                    } else {
                                                        None
                                                    }
                                                },
                                                None => None,
                                            }
                                        },
                                        _ => None,
                                    }
                                } else {
                                    None
                                }
                            },
                            None => None,
                        }
                    } else {
                        None
                    }
                },
                None => None,
            };
            proof {
                match bare {
                    Some(bl) => {
                        if bl < ln {
                            assert(replace == elig_const(b0, bl));
                        } else {
                            assert(elig_const(b0, bl) is None);
                            assert(replace is None);
                        }
                    },
                    None => {},
                }
            }
            let ghost dpre = body@.debug;
            match replace {
                Some(c) => {
                    let name = body.var_debug_info[j].name;
                    body.var_debug_info[j] = crate::ir::VarDebugInfo {
                        name,
                        value: DebugContents::Const(c),
                    };
                    proof {
                        assert forall|x: int| 0 <= x < dn && x != j implies #[trigger] body@.debug[x]
                            == dpre[x] by {
                            assert(body.var_debug_info@[x]@ == body@.debug[x]);
                        }
                        assert(body@.debug[j as int] == spec_after.debug[j as int]);
                    }
                },
                None => {
                    proof {
                        assert(body@.debug[j as int] == spec_after.debug[j as int]);
                    }
                },
            }
            j = j + 1;
        }
        proof {
            assert(body@.debug =~= spec_after.debug);
            assert(body@ =~= spec_after);
        }
    }

    /// Feeds one slot's uses into the counting tables.
    fn scan_slot(
        counts: &mut Vec<u8>,
        locs: &mut Vec<Option<(usize, usize)>>,
        us: &Vec<(usize, UseCtx)>,
        i: usize,
        k: usize,
        Ghost(b0): Ghost<BodyV>,
    )
        requires
            us@ == slot_uses(b0, i as int, k as int),
            old(counts)@.len() == old(locs)@.len(),
            forall|x: int|
                0 <= x < old(counts)@.len() ==> #[trigger] old(counts)@[x] as nat == (
                if count_upto(b0, i as int, k as int, x as usize) < 255 {
                    count_upto(b0, i as int, k as int, x as usize)
                } else {
                    255nat
                }),
            forall|x: int| 0 <= x < old(locs)@.len() ==> #[trigger] old(locs)@[x] == (
            match assign_loc_upto(b0, i as int, k as int, x as usize) {
                Some((bi, bk)) => Some((bi as usize, bk as usize)),
                None => None::<(usize, usize)>,
            }),
        ensures
            final (counts)@.len() == old(counts)@.len(),
            final (locs)@.len() == old(locs)@.len(),
            forall|x: int|
                0 <= x < final (counts)@.len() ==> #[trigger] final (counts)@[x] as nat == (
                if count_upto(b0, i as int, k + 1, x as usize) < 255 {
                    count_upto(b0, i as int, k + 1, x as usize)
                } else {
                    255nat
                }),
            forall|x: int| 0 <= x < final (locs)@.len() ==> #[trigger] final (locs)@[x] == (
            match assign_loc_upto(b0, i as int, k + 1, x as usize) {
                Some((bi, bk)) => Some((bi as usize, bk as usize)),
                None => None::<(usize, usize)>,
            }),
    {
        let ghost slot = us@;
        let ln = counts.len();
        let un = us.len();
        let mut x: usize = 0;
        proof {
            assert(slot.take(0).len() == 0);
        }
        while x < un
            invariant
                un == slot.len(),
                us@ == slot,
                slot == slot_uses(b0, i as int, k as int),
                ln == counts@.len(),
                ln == locs@.len(),
                x <= un,
                forall|y: int|
                    0 <= y < ln ==> #[trigger] counts@[y] as nat == (if count_upto(
                        b0,
                        i as int,
                        k as int,
                        y as usize,
                    ) + count_mut(slot.take(x as int), y as usize) < 255 {
                        count_upto(b0, i as int, k as int, y as usize) + count_mut(
                            slot.take(x as int),
                            y as usize,
                        )
                    } else {
                        255nat
                    }),
                forall|y: int| 0 <= y < ln ==> #[trigger] locs@[y] == (
                if has_assign(slot.take(x as int), y as usize) {
                    Some((i, k))
                } else {
                    match assign_loc_upto(b0, i as int, k as int, y as usize) {
                        Some((bi, bk)) => Some((bi as usize, bk as usize)),
                        None => None::<(usize, usize)>,
                    }
                }),
            decreases un - x,
        {
            proof {
                assert(slot.take(x + 1).drop_last() =~= slot.take(x as int));
                assert(slot.take(x + 1).last() == slot[x as int]);
                assert forall|y: int| 0 <= y < ln implies #[trigger] has_assign(
                    slot.take(x + 1),
                    y as usize,
                ) == (has_assign(slot.take(x as int), y as usize) || (slot[x as int].0 == y
                    && slot[x as int].1.assignment)) by {
                    let t1 = slot.take(x + 1);
                    if has_assign(t1, y as usize) {
                        let w = choose|w: int|
                            0 <= w < t1.len() && (#[trigger] t1[w]).0 == y as usize
                                && t1[w].1.assignment;
                        if w < x {
                            assert(slot.take(x as int)[w] == t1[w]);
                        }
                    }
                    if has_assign(slot.take(x as int), y as usize) {
                        let w = choose|w: int|
                            0 <= w < slot.take(x as int).len() && (#[trigger] slot.take(
                                x as int,
                            )[w]).0 == y as usize && slot.take(x as int)[w].1.assignment;
                        assert(t1[w] == slot.take(x as int)[w]);
                    }
                    if slot[x as int].0 == y && slot[x as int].1.assignment {
                        assert(t1[x as int] == slot[x as int]);
                    }
                }
            }
            let (ul, uc) = us[x];
            if ul < ln {
                if uc.mutating {
                    let c = counts[ul];
                    if c < 255 {
                        counts[ul] = c + 1;
                    }
                }
                if uc.assignment {
                    locs[ul] = Some((i, k));
                }
            }
            x = x + 1;
        }
        proof {
            assert(slot.take(un as int) =~= slot);
            assert forall|y: int| 0 <= y < ln implies #[trigger] count_upto(
                b0,
                i as int,
                k + 1,
                y as usize,
            ) == count_upto(b0, i as int, k as int, y as usize) + count_mut(slot, y as usize) by {
            }
            assert forall|y: int| 0 <= y < ln implies #[trigger] assign_loc_upto(
                b0,
                i as int,
                k + 1,
                y as usize,
            ) == (if has_assign(slot, y as usize) {
                Some((i as int, k as int))
            } else {
                assign_loc_upto(b0, i as int, k as int, y as usize)
            }) by {
            }
        }
    }
}

/// The recorded assignment location always lies inside the scanned range.
proof fn lemma_assign_loc_in_range(b: BodyV, i: int, k: int, l: usize)
    requires
        0 <= i <= b.blocks.len(),
        i < b.blocks.len() ==> 0 <= k <= b.blocks[i].statements.len() + 1,
        i == b.blocks.len() ==> k == 0,
    ensures
        match assign_loc_upto(b, i, k, l) {
            Some((bi, bk)) => 0 <= bi < b.blocks.len() && 0 <= bk
                <= b.blocks[bi].statements.len(),
            None => true,
        },
    decreases i, k,
{
    if i <= 0 && k <= 0 {
    } else if k <= 0 {
        lemma_assign_loc_in_range(b, i - 1, b.blocks[i - 1].statements.len() as int + 1, l);
    } else {
        lemma_assign_loc_in_range(b, i, k - 1, l);
    }
}

} // verus!
