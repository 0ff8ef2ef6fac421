//! A pass that propagates the unreachable terminator of a block to its
//! predecessors when all of their remaining live successors are unreachable.
//! This is achieved through a post-order traversal of the blocks.

use vstd::prelude::*;

use crate::context::{Ctx, Session};
use crate::ir::{
    body_wf, lemma_term_ok_same_shape, term_ok, BasicBlockV, Body, BodyV, Operand, Place,
    SwitchTargets, SwitchTargetsV, Terminator, TerminatorV,
};
use crate::simplify::{remove_dead_blocks, remove_dead_blocks_spec};
use crate::traversal::postorder;

verus! {

/// Whether a successor edge into `t` is known dead.
pub open spec fn arm_unreach(t: usize, unreach: Seq<bool>) -> bool {
    t < unreach.len() && unreach[t as int]
}

/// The value arms that survive pruning: the pairs whose target is not known
/// unreachable, in order.
pub open spec fn filter_arms(values: Seq<u128>, targets: Seq<usize>, unreach: Seq<bool>) -> (
    Seq<u128>,
    Seq<usize>,
)
    decreases values.len(),
{
    if values.len() == 0 || targets.len() == 0 {
        (Seq::<u128>::empty(), Seq::<usize>::empty())
    } else {
        let rest = filter_arms(values.drop_last(), targets.drop_last(), unreach);
        if arm_unreach(targets.last(), unreach) {
            rest
        } else {
            (rest.0.push(values.last()), rest.1.push(targets.last()))
        }
    }
}

/// The pruned arm lists stay aligned and no longer than the originals.
pub proof fn lemma_filter_arms_len(values: Seq<u128>, targets: Seq<usize>, unreach: Seq<bool>)
    requires
        values.len() == targets.len(),
    ensures
        filter_arms(values, targets, unreach).0.len() == filter_arms(
            values,
            targets,
            unreach,
        ).1.len(),
        filter_arms(values, targets, unreach).1.len() <= targets.len(),
    decreases values.len(),
{
    if values.len() > 0 {
        lemma_filter_arms_len(values.drop_last(), targets.drop_last(), unreach);
    }
}

/// Every surviving target was one of the original targets.
pub proof fn lemma_filter_arms_sub(
    values: Seq<u128>,
    targets: Seq<usize>,
    unreach: Seq<bool>,
    e: int,
)
    requires
        values.len() == targets.len(),
        0 <= e < filter_arms(values, targets, unreach).1.len(),
    ensures
        targets.contains(filter_arms(values, targets, unreach).1[e]),
        !arm_unreach(filter_arms(values, targets, unreach).1[e], unreach),
    decreases values.len(),
{
    if values.len() > 0 {
        let rest = filter_arms(values.drop_last(), targets.drop_last(), unreach);
        if arm_unreach(targets.last(), unreach) {
            lemma_filter_arms_sub(values.drop_last(), targets.drop_last(), unreach, e);
            let x = rest.1[e];
            let j = choose|j: int| 0 <= j < targets.drop_last().len() && targets.drop_last()[j]
                == x;
            assert(targets[j] == x);
        } else {
            if e < rest.1.len() {
                lemma_filter_arms_sub(values.drop_last(), targets.drop_last(), unreach, e);
                let x = rest.1[e];
                let j = choose|j: int| 0 <= j < targets.drop_last().len() && targets.drop_last()[j]
                    == x;
                assert(targets[j] == x);
            } else {
                assert(targets[targets.len() - 1] == filter_arms(values, targets, unreach).1[e]);
            }
        }
    }
}

/// What pruning the dead successors of one terminator yields: `None` when
/// nothing changes; otherwise the rewritten terminator. A goto into a dead
/// block becomes unreachable. A switch drops its dead value arms; a dead
/// `otherwise` target drops out too, the last surviving value arm then
/// standing in as the new implicit default. A switch left with no live
/// target becomes unreachable, and with exactly one, a goto.
pub open spec fn remove_successors_spec(t: TerminatorV, unreach: Seq<bool>) -> Option<TerminatorV> {
    match t {
        TerminatorV::Goto { target } => {
            if arm_unreach(target, unreach) {
                Some(TerminatorV::Unreachable)
            } else {
                None
            }
        },
        TerminatorV::SwitchInt { discr, switch_ty, targets } => {
            if !targets.wf() {
                None
            } else {
                let arms = filter_arms(
                    targets.values,
                    targets.targets.take(targets.values.len() as int),
                    unreach,
                );
                let otherwise = targets.otherwise();
                let pruned: (Seq<u128>, Seq<usize>) = if !arm_unreach(otherwise, unreach) {
                    (arms.0, arms.1.push(otherwise))
                } else if arms.0.len() > 0 {
                    (arms.0.drop_last(), arms.1)
                } else {
                    (arms.0, arms.1)
                };
                if pruned.1.len() == 0 {
                    Some(TerminatorV::Unreachable)
                } else if pruned.1.len() == 1 {
                    Some(TerminatorV::Goto { target: pruned.1[0] })
                } else if pruned.1.len() != targets.targets.len() {
                    Some(
                        TerminatorV::SwitchInt {
                            discr,
                            switch_ty,
                            targets: SwitchTargetsV { values: pruned.0, targets: pruned.1 },
                        },
                    )
                } else {
                    None
                }
            }
        },
        _ => None,
    }
}

/// A switch with three arms of which exactly one leads to a live block is
/// pruned to a plain goto to that live target.
pub proof fn lemma_three_arm_switch_to_live(
    discr: crate::ir::OperandV,
    switch_ty: usize,
    tv: SwitchTargetsV,
    unreach: Seq<bool>,
    j0: int,
)
    requires
        tv.wf(),
        tv.targets.len() == 3,
        0 <= j0 < 3,
        !arm_unreach(tv.targets[j0], unreach),
        forall|j: int| 0 <= j < 3 && j != j0 ==> arm_unreach(#[trigger] tv.targets[j], unreach),
    ensures
        remove_successors_spec(
            TerminatorV::SwitchInt { discr, switch_ty, targets: tv },
            unreach,
        ) == Some(TerminatorV::Goto { target: tv.targets[j0] }),
{
    let head = tv.targets.take(2);
    lemma_two_arms_filtered(tv.values, head, unreach);
    assert(head.len() == 2 && head[0] == tv.targets[0] && head[1] == tv.targets[1]);
    assert(tv.otherwise() == tv.targets[2]);
}

/// A switch with three arms all leading to unreachable blocks is pruned to
/// an unreachable terminator.
pub proof fn lemma_three_arm_switch_all_dead(
    discr: crate::ir::OperandV,
    switch_ty: usize,
    tv: SwitchTargetsV,
    unreach: Seq<bool>,
)
    requires
        tv.wf(),
        tv.targets.len() == 3,
        forall|j: int| 0 <= j < 3 ==> arm_unreach(#[trigger] tv.targets[j], unreach),
    ensures
        remove_successors_spec(
            TerminatorV::SwitchInt { discr, switch_ty, targets: tv },
            unreach,
        ) == Some(TerminatorV::Unreachable),
{
    let head = tv.targets.take(2);
    lemma_two_arms_filtered(tv.values, head, unreach);
    assert(head[0] == tv.targets[0] && head[1] == tv.targets[1]);
    assert(tv.otherwise() == tv.targets[2]);
}

/// Spells out the arm filter on exactly two value arms.
proof fn lemma_two_arms_filtered(values: Seq<u128>, targets: Seq<usize>, unreach: Seq<bool>)
    requires
        values.len() == 2,
        targets.len() == 2,
    ensures
        filter_arms(values, targets, unreach) == (if arm_unreach(targets[0], unreach) {
            if arm_unreach(targets[1], unreach) {
                (Seq::<u128>::empty(), Seq::<usize>::empty())
            } else {
                (seq![values[1]], seq![targets[1]])
            }
        } else {
            if arm_unreach(targets[1], unreach) {
                (seq![values[0]], seq![targets[0]])
            } else {
                (seq![values[0], values[1]], seq![targets[0], targets[1]])
            }
        }),
{
    let v1 = values.drop_last();
    let t1 = targets.drop_last();
    assert(v1.len() == 1 && t1.len() == 1);
    assert(v1.drop_last().len() == 0);
    assert(filter_arms(v1.drop_last(), t1.drop_last(), unreach) == (
        Seq::<u128>::empty(),
        Seq::<usize>::empty(),
    ));
    assert(v1.last() == values[0] && t1.last() == targets[0]);
    assert(values.last() == values[1] && targets.last() == targets[1]);
    if arm_unreach(targets[0], unreach) {
        assert(filter_arms(v1, t1, unreach) == (Seq::<u128>::empty(), Seq::<usize>::empty()));
        if arm_unreach(targets[1], unreach) {
        } else {
            assert(filter_arms(values, targets, unreach).0 =~= seq![values[1]]);
            assert(filter_arms(values, targets, unreach).1 =~= seq![targets[1]]);
        }
    } else {
        assert(filter_arms(v1, t1, unreach).0 =~= seq![values[0]]);
        assert(filter_arms(v1, t1, unreach).1 =~= seq![targets[0]]);
        if arm_unreach(targets[1], unreach) {
            assert(filter_arms(values, targets, unreach).0 =~= seq![values[0]]);
            assert(filter_arms(values, targets, unreach).1 =~= seq![targets[0]]);
        } else {
            assert(filter_arms(values, targets, unreach).0 =~= seq![values[0], values[1]]);
            assert(filter_arms(values, targets, unreach).1 =~= seq![targets[0], targets[1]]);
        }
    }
}

/// Pruning keeps a terminator structurally sound.
pub proof fn lemma_remove_successors_ok(t: TerminatorV, unreach: Seq<bool>, blocks: Seq<BasicBlockV>)
    requires
        term_ok(t, blocks),
    ensures
        match remove_successors_spec(t, unreach) {
            Some(t2) => term_ok(t2, blocks),
            None => true,
        },
{
    match t {
        TerminatorV::SwitchInt { discr, switch_ty, targets } => {
            if targets.wf() {
                let vlen = targets.values.len() as int;
                let head = targets.targets.take(vlen);
                let arms = filter_arms(targets.values, head, unreach);
                let otherwise = targets.otherwise();
                lemma_filter_arms_len(targets.values, head, unreach);
                assert forall|e: int| 0 <= e < arms.1.len() implies #[trigger] arms.1[e]
                    < blocks.len() by {
                    lemma_filter_arms_sub(targets.values, head, unreach, e);
                    let x = arms.1[e];
                    let j = choose|j: int| 0 <= j < head.len() && head[j] == x;
                    assert(t.succs()[j] == x);
                }
                assert(t.succs()[targets.targets.len() - 1] == otherwise);
                match remove_successors_spec(t, unreach) {
                    Some(t2) => {
                        match t2 {
                            TerminatorV::Goto { target } => {
                                assert(t2.succs() =~= seq![target]);
                            },
                            TerminatorV::SwitchInt { targets: tg2, .. } => {
                                assert forall|j: int| 0 <= j < t2.succs().len() implies
                                    #[trigger] t2.succs()[j] < blocks.len() by {
                                    assert(t2.succs() == tg2.targets);
                                }
                            },
                            _ => {},
                        }
                    },
                    None => {},
                }
            }
        },
        _ => {},
    }
}

/// Executable counterpart of [`remove_successors_spec`].
pub fn remove_successors(t: &Terminator, unreach: &Vec<bool>) -> (r: Option<Terminator>)
    ensures
        match (r, remove_successors_spec(t@, unreach@)) {
            (Some(t2), Some(s2)) => t2@ == s2,
            (None, None) => true,
            _ => false,
        },
{
    match t {
        Terminator::Goto { target } => {
            if *target < unreach.len() && unreach[*target] {
                Some(Terminator::Unreachable)
            } else {
                None
            }
        },
        Terminator::SwitchInt { discr, switch_ty, targets } => {
            if !(targets.targets.len() >= 1 && targets.targets.len() - 1 == targets.values.len()) {
                return None;
            }
            let ghost head = targets.targets@.take(targets.values@.len() as int);
            let vn = targets.values.len();
            let mut fv: Vec<u128> = Vec::new();
            let mut ft: Vec<usize> = Vec::new();
            let mut k: usize = 0;
            proof {
                assert(targets.values@.take(0) =~= Seq::<u128>::empty());
                assert(head.take(0) =~= Seq::<usize>::empty());
            }
            while k < vn
                invariant
                    vn == targets.values@.len(),
                    targets.targets@.len() == vn + 1,
                    head == targets.targets@.take(vn as int),
                    k <= vn,
                    (fv@, ft@) == filter_arms(
                        targets.values@.take(k as int),
                        head.take(k as int),
                        unreach@,
                    ),
                decreases vn - k,
            {
                proof {
                    assert(targets.values@.take(k + 1).drop_last() =~= targets.values@.take(
                        k as int,
                    ));
                    assert(head.take(k + 1).drop_last() =~= head.take(k as int));
                    assert(targets.values@.take(k + 1).last() == targets.values@[k as int]);
                    assert(head.take(k + 1).last() == targets.targets@[k as int]);
                }
                let tg = targets.targets[k];
                if !(tg < unreach.len() && unreach[tg]) {
                    fv.push(targets.values[k]);
                    ft.push(tg);
                }
                k = k + 1;
            }
            proof {
                assert(targets.values@.take(vn as int) =~= targets.values@);
                assert(head.take(vn as int) =~= head);
            }
            let otherwise = targets.targets[targets.targets.len() - 1];
            if !(otherwise < unreach.len() && unreach[otherwise]) {
                ft.push(otherwise);
            } else if fv.len() > 0 {
                let _ = fv.pop();
            }
            proof {
                lemma_filter_arms_len(targets.values@, head, unreach@);
            }
            if ft.len() == 0 {
                Some(Terminator::Unreachable)
            } else if ft.len() == 1 {
                Some(Terminator::Goto { target: ft[0] })
            } else if ft.len() != targets.targets.len() {
                let newt = Terminator::SwitchInt {
                    discr: clone_operand(discr),
                    switch_ty: *switch_ty,
                    targets: SwitchTargets { values: fv, targets: ft },
                };
                proof {
                    assert(newt@ == remove_successors_spec(t@, unreach@)->0);
                }
                Some(newt)
            } else {
                None
            }
        },
        _ => None,
    }
}

/// A structural copy of a place.
fn clone_place(p: &Place) -> (r: Place)
    ensures
        r@ == p@,
{
    let mut projection: Vec<crate::ir::ProjElem> = Vec::new();
    let n = p.projection.len();
    let mut k: usize = 0;
    while k < n
        invariant
            n == p.projection@.len(),
            k <= n,
            projection@ == p.projection@.take(k as int),
        decreases n - k,
    {
        projection.push(p.projection[k]);
        proof {
            assert(p.projection@.take(k + 1) =~= p.projection@.take(k as int).push(
                p.projection@[k as int],
            ));
        }
        k = k + 1;
    }
    proof {
        assert(p.projection@.take(n as int) =~= p.projection@);
    }
    let r = Place { local: p.local, projection };
    proof {
        assert(r@ =~= p@);
    }
    r
}

/// A structural copy of an operand.
fn clone_operand(o: &Operand) -> (r: Operand)
    ensures
        r@ == o@,
{
    match o {
        Operand::Copy(p) => Operand::Copy(clone_place(p)),
        Operand::Move(p) => Operand::Move(clone_place(p)),
        Operand::Constant(c) => Operand::Constant(*c),
    }
}


/// One visit of the propagation scan: an unreachable terminator marks its
/// block; otherwise a successful pruning against the set so far records the
/// replacement, marking the block too when the pruning resolved to
/// unreachable.
pub open spec fn prop_step(
    b1: Seq<BasicBlockV>,
    bb: usize,
    st: (Seq<bool>, Seq<(usize, TerminatorV)>),
) -> (Seq<bool>, Seq<(usize, TerminatorV)>) {
    if bb < b1.len() {
        if b1[bb as int].terminator is Unreachable {
            (st.0.update(bb as int, true), st.1)
        } else {
            match remove_successors_spec(b1[bb as int].terminator, st.0) {
                Some(t2) => (
                    (if t2 is Unreachable {
                        st.0.update(bb as int, true)
                    } else {
                        st.0
                    }),
                    st.1.push((bb, t2)),
                ),
                None => st,
            }
        }
    } else {
        st
    }
}

/// The scan over the first `i` blocks of the visiting order.
pub open spec fn prop_scan(b1: Seq<BasicBlockV>, order: Seq<usize>, i: int) -> (
    Seq<bool>,
    Seq<(usize, TerminatorV)>,
)
    decreases i,
{
    if i <= 0 {
        (Seq::new(b1.len(), |x: int| false), Seq::<(usize, TerminatorV)>::empty())
    } else {
        prop_step(b1, order[i - 1], prop_scan(b1, order, i - 1))
    }
}

/// The first `i` recorded replacements applied, in order.
pub open spec fn apply_repl(
    bs: Seq<BasicBlockV>,
    rp: Seq<(usize, TerminatorV)>,
    i: int,
) -> Seq<BasicBlockV>
    decreases i,
{
    if i <= 0 {
        bs
    } else {
        let prev = apply_repl(bs, rp, i - 1);
        if rp[i - 1].0 < prev.len() {
            prev.update(
                rp[i - 1].0 as int,
                BasicBlockV {
                    statements: prev[rp[i - 1].0 as int].statements,
                    terminator: rp[i - 1].1,
                    is_cleanup: prev[rp[i - 1].0 as int].is_cleanup,
                },
            )
        } else {
            prev
        }
    }
}

/// What the pass produces under a given visiting order: the scan's recorded
/// replacements applied, and the dead blocks removed if any were recorded.
pub open spec fn unreachable_prop_spec(b: BodyV, order: Seq<usize>) -> BodyV {
    let st = prop_scan(b.blocks, order, order.len() as int);
    if st.1.len() > 0 {
        remove_dead_blocks_spec(
            BodyV {
                blocks: apply_repl(b.blocks, st.1, st.1.len() as int),
                locals: b.locals,
                arg_count: b.arg_count,
                debug: b.debug,
                phase: b.phase,
                source: b.source,
            },
        )
    } else {
        b
    }
}

/// Rewrites terminators whose live successors are all unreachable.
pub struct UnreachablePropagation;

impl UnreachablePropagation {
    /// Whether the pass runs at the given session options.
    pub open spec fn enabled_spec(sess: Session) -> bool {
        sess.mir_opt_level >= 4
    }

    /// Executable counterpart of [`UnreachablePropagation::enabled_spec`].
    pub fn is_enabled(&self, sess: &Session) -> (r: bool)
        ensures
            r == Self::enabled_spec(*sess),
    {
        sess.mir_opt_level >= 4
    }

    /// Walks the blocks in postorder, prunes dead successors from each
    /// terminator as unreachability propagates backward, applies the
    /// recorded rewrites under the cost collaborator, and removes dead blocks if
    /// anything changed.
    pub fn run_pass(&self, ctx: &mut Ctx, body: &mut Body)
        requires
            body_wf(old(body)@),
        ensures
            old(ctx).same_queries(*final (ctx)),
            final (ctx).dumps@ == old(ctx).dumps@,
            final (ctx).diagnostics@ == old(ctx).diagnostics@,
            final (ctx).reported_derives@ == old(ctx).reported_derives@,
            body_wf(final (body)@),
            old(ctx).fuel_unlimited() ==> exists|order: Seq<usize>|
                #![all_triggers]
                crate::traversal::postorder_valid(old(body)@.blocks, order)
                    && crate::traversal::postorder_ordered(old(body)@.blocks, order)
                    && final (body)@ == unreachable_prop_spec(old(body)@, order),
            final (body)@.locals == old(body)@.locals,
            final (body)@.arg_count == old(body)@.arg_count,
            final (body)@.debug == old(body)@.debug,
            final (body)@.phase == old(body)@.phase,
            final (body)@.source == old(body)@.source,
    {
        let order = postorder(body);
        let ghost b0 = old(body)@;
        let ghost orderv = order@;
        let n = body.basic_blocks.len();
        let mut unreach: Vec<bool> = Vec::new();
        let mut i: usize = 0;
        while i < n
            invariant
                i <= n,
                unreach@.len() == i,
                forall|x: int| 0 <= x < i ==> !(#[trigger] unreach@[x]),
            decreases n - i,
        {
            unreach.push(false);
            i = i + 1;
        }
        let mut replacements: Vec<(usize, Terminator)> = Vec::new();
        let mut e: usize = 0;
        let on = order.len();
        proof {
            assert(unreach@ =~= Seq::new(n as nat, |x: int| false));
            assert(replacements@.map_values(|pr: (usize, Terminator)| (pr.0, pr.1@)) =~= Seq::<
                (usize, TerminatorV),
            >::empty());
        }
        while e < on
            invariant
                body_wf(body@),
                body@ == old(body)@,
                b0 == old(body)@,
                n == body@.blocks.len(),
                n == body.basic_blocks@.len(),
                unreach@.len() == n,
                on == order@.len(),
                orderv == order@,
                forall|x: int| 0 <= x < on ==> #[trigger] order@[x] < n,
                e <= on,
                (unreach@, replacements@.map_values(|pr: (usize, Terminator)| (pr.0, pr.1@)))
                    == prop_scan(b0.blocks, orderv, e as int),
                forall|x: int| 0 <= x < replacements@.len() ==> #[trigger] replacements@[x].0 < n
                    && term_ok(replacements@[x].1@, body@.blocks),
            decreases on - e,
        {
            let ghost st_pre = (
                unreach@,
                replacements@.map_values(|pr: (usize, Terminator)| (pr.0, pr.1@)),
            );
            let bb = order[e];
            let is_unreachable = match &body.basic_blocks[bb].terminator {
                Terminator::Unreachable => true,
                _ => false,
            };
            proof {
                assert(body@.blocks[bb as int] == body.basic_blocks@[bb as int]@);
                assert(term_ok(body@.blocks[bb as int].terminator, body@.blocks));
            }
            if is_unreachable {
                unreach[bb] = true;
                proof {
                    assert((
                    unreach@,
                    replacements@.map_values(|pr: (usize, Terminator)| (pr.0, pr.1@)),
                    ) == prop_step(b0.blocks, bb, st_pre));
                }
            } else {
                match remove_successors(&body.basic_blocks[bb].terminator, &unreach) {
                    Some(newt) => {
                        proof {
                            lemma_remove_successors_ok(
                                body@.blocks[bb as int].terminator,
                                unreach@,
                                body@.blocks,
                            );
                        }
                        let record_unreachable = match &newt {
                            Terminator::Unreachable => true,
                            _ => false,
                        };
                        let ghost rv_pre = replacements@;
                        replacements.push((bb, newt));
                        if record_unreachable {
                            unreach[bb] = true;
                        }
                        proof {
                            assert(replacements@.map_values(
                                |pr: (usize, Terminator)| (pr.0, pr.1@),
                            ) =~= rv_pre.map_values(|pr: (usize, Terminator)| (pr.0, pr.1@)).push(
                                (bb, newt@),
                            ));
                            assert((
                            unreach@,
                            replacements@.map_values(|pr: (usize, Terminator)| (pr.0, pr.1@)),
                            ) == prop_step(b0.blocks, bb, st_pre));
                        }
                    },
                    None => {
                        proof {
                            assert((
                            unreach@,
                            replacements@.map_values(|pr: (usize, Terminator)| (pr.0, pr.1@)),
                            ) == prop_step(b0.blocks, bb, st_pre));
                        }
                    },
                }
            }
            e = e + 1;
        }
        let replaced = replacements.len() > 0;
        let ghost rp_full = prop_scan(b0.blocks, orderv, on as int).1;
        let ghost rn_full = replacements@.len();
        proof {
            assert(replacements@.map_values(|pr: (usize, Terminator)| (pr.0, pr.1@)) == rp_full);
            assert(rn_full == rp_full.len());
            assert(body@.blocks == apply_repl(b0.blocks, rp_full, 0));
            assert(replacements@.map_values(|pr: (usize, Terminator)| (pr.0, pr.1@))
                =~= rp_full.skip(0));
        }
        while replacements.len() > 0
            invariant
                body_wf(body@),
                b0 == old(body)@,
                n == body@.blocks.len(),
                n == body.basic_blocks@.len(),
                rn_full == rp_full.len(),
                rn_full >= replacements@.len(),
                forall|x: int| 0 <= x < replacements@.len() ==> #[trigger] replacements@[x].0 < n
                    && term_ok(replacements@[x].1@, body@.blocks),
                old(ctx).fuel_unlimited() ==> ctx.fuel_unlimited() && body@.blocks == apply_repl(
                    b0.blocks,
                    rp_full,
                    rn_full - replacements@.len(),
                ) && replacements@.map_values(|pr: (usize, Terminator)| (pr.0, pr.1@))
                    == rp_full.skip(rn_full - replacements@.len()),
                old(ctx).same_queries(*ctx),
                ctx.dumps@ == old(ctx).dumps@,
                ctx.diagnostics@ == old(ctx).diagnostics@,
                ctx.reported_derives@ == old(ctx).reported_derives@,
                body@.locals == old(body)@.locals,
                body@.arg_count == old(body)@.arg_count,
                body@.debug == old(body)@.debug,
                body@.phase == old(body)@.phase,
                body@.source == old(body)@.source,
            ensures
                body_wf(body@),
                n == body@.blocks.len(),
                old(ctx).fuel_unlimited() ==> body@.blocks == apply_repl(
                    b0.blocks,
                    rp_full,
                    rn_full as int,
                ),
                old(ctx).same_queries(*ctx),
                ctx.dumps@ == old(ctx).dumps@,
                ctx.diagnostics@ == old(ctx).diagnostics@,
                ctx.reported_derives@ == old(ctx).reported_derives@,
                body@.locals == old(body)@.locals,
                body@.arg_count == old(body)@.arg_count,
                body@.debug == old(body)@.debug,
                body@.phase == old(body)@.phase,
                body@.source == old(body)@.source,
            decreases replacements@.len(),
        {
            if !ctx.consider_optimizing() {
                proof {
                    assert(!old(ctx).fuel_unlimited());
                }
                break ;
            }
            let ghost prev = body@.blocks;
            let ghost rv = replacements@;
            let (bb, newt) = replacements.remove(0);
            proof {
                assert((bb, newt) == rv[0]);
                assert forall|x: int| 0 <= x < replacements@.len() implies
                    #[trigger] replacements@[x] == rv[x + 1] by {
                }
            }
            let ghost newtv = newt@;
            let mut blk = body.take_block(bb);
            blk.terminator = newt;
            proof {
                assert(body.basic_blocks@.len() == body@.blocks.len());
            }
            body.put_block(bb, blk);
            proof {
                assert(body.basic_blocks@.len() == body@.blocks.len());
                assert(body@.blocks =~= prev.update(
                    bb as int,
                    BasicBlockV {
                        statements: prev[bb as int].statements,
                        terminator: newtv,
                        is_cleanup: prev[bb as int].is_cleanup,
                    },
                ));
                assert forall|m: int| 0 <= m < n implies term_ok(
                    #[trigger] body@.blocks[m].terminator,
                    body@.blocks,
                ) by {
                    if m == bb {
                        lemma_term_ok_same_shape(newtv, prev, body@.blocks);
                    } else {
                        lemma_term_ok_same_shape(prev[m].terminator, prev, body@.blocks);
                    }
                }
                assert forall|x: int| 0 <= x < replacements@.len() implies
                    #[trigger] replacements@[x].0 < n && term_ok(
                    replacements@[x].1@,
                    body@.blocks,
                ) by {
                    assert(replacements@[x] == rv[x + 1]);
                    assert(rv[x + 1].0 < n && term_ok(rv[x + 1].1@, prev));
                    lemma_term_ok_same_shape(rv[x + 1].1@, prev, body@.blocks);
                }
                if old(ctx).fuel_unlimited() {
                    let consumed = rn_full - rv.len();
                    assert(rv.map_values(|pr: (usize, Terminator)| (pr.0, pr.1@))
                        == rp_full.skip(consumed));
                    assert(rp_full.skip(consumed)[0] == rp_full[consumed]);
                    assert(rv.map_values(|pr: (usize, Terminator)| (pr.0, pr.1@))[0] == (
                    bb,
                    newtv,
                    ));
                    assert(rp_full[consumed] == (bb, newtv));
                    assert(body@.blocks =~= apply_repl(b0.blocks, rp_full, consumed + 1));
                    assert forall|x: int| 0 <= x < replacements@.len() implies (
                    #[trigger] replacements@[x].0,
                    replacements@[x].1@,
                    ) == rp_full.skip(consumed + 1)[x] by {
                        assert(replacements@[x] == rv[x + 1]);
                        assert(rv.map_values(|pr: (usize, Terminator)| (pr.0, pr.1@))[x + 1]
                            == rp_full.skip(consumed)[x + 1]);
                    }
                    assert(replacements@.map_values(|pr: (usize, Terminator)| (pr.0, pr.1@))
                        =~= rp_full.skip(consumed + 1));
                }
            }
        }
        if replaced {
            remove_dead_blocks(body);
            proof {
                if old(ctx).fuel_unlimited() {
                    let st = prop_scan(b0.blocks, orderv, on as int);
                    assert(st.1 == rp_full && st.1.len() > 0);
                    assert(body@ == unreachable_prop_spec(b0, orderv)) by {
                        assert(BodyV {
                            blocks: apply_repl(b0.blocks, rp_full, rn_full as int),
                            locals: b0.locals,
                            arg_count: b0.arg_count,
                            debug: b0.debug,
                            phase: b0.phase,
                            source: b0.source,
                        } =~= BodyV {
                            blocks: apply_repl(b0.blocks, st.1, st.1.len() as int),
                            locals: b0.locals,
                            arg_count: b0.arg_count,
                            debug: b0.debug,
                            phase: b0.phase,
                            source: b0.source,
                        });
                    }
                }
            }
        } else {
            proof {
                if old(ctx).fuel_unlimited() {
                    let st = prop_scan(b0.blocks, orderv, on as int);
                    assert(st.1.len() == 0);
                    assert(body@.blocks =~= b0.blocks);
                    assert(body@ =~= b0);
                    assert(body@ == unreachable_prop_spec(b0, orderv));
                }
            }
        }
        proof {
            if old(ctx).fuel_unlimited() {
                assert(crate::traversal::postorder_valid(b0.blocks, orderv)
                    && crate::traversal::postorder_ordered(b0.blocks, orderv) && body@
                    == unreachable_prop_spec(b0, orderv));
            }
        }
    }
}

} // verus!
