//! Shared CFG cleanup: dead-block compaction with consistent renumbering of
//! every block reference, and the generic CFG simplification that merges
//! single-predecessor goto chains before compacting. Several passes finish by
//! calling these.

use vstd::prelude::*;

use crate::ir::{
    body_wf, lemma_term_ok_same_shape, term_ok, BasicBlock, BasicBlockV, Body, BodyV, Statement,
    SwitchTargetsV, Terminator, TerminatorV,
};

verus! {

// ---------------------------------------------------------------------------
// Reachability from the entry block, as a mathematical definition.
// ---------------------------------------------------------------------------

/// The CFG has an edge from block `j` to block `i`.
pub open spec fn edge(blocks: Seq<BasicBlockV>, j: usize, i: usize) -> bool {
    j < blocks.len() && blocks[j as int].terminator.succs().contains(i)
}

/// Block `i` can be reached from the entry block in at most `k` edge steps.
pub open spec fn reachable_in(blocks: Seq<BasicBlockV>, i: usize, k: nat) -> bool
    decreases k,
{
    if k == 0 {
        i == 0
    } else {
        reachable_in(blocks, i, (k - 1) as nat) || exists|j: usize|
            #[trigger] edge(blocks, j, i) && reachable_in(blocks, j, (k - 1) as nat)
    }
}

/// Block `i` is reachable from the entry block by forward traversal.
pub open spec fn reachable(blocks: Seq<BasicBlockV>, i: usize) -> bool {
    exists|k: nat| reachable_in(blocks, i, k)
}

/// The entry block is always reachable.
pub proof fn lemma_reachable_entry(blocks: Seq<BasicBlockV>)
    ensures
        reachable(blocks, 0),
{
    assert(reachable_in(blocks, 0, 0));
}

/// A successor of a reachable block is reachable.
pub proof fn lemma_reachable_step(blocks: Seq<BasicBlockV>, j: usize, t: usize)
    requires
        reachable(blocks, j),
        j < blocks.len(),
        blocks[j as int].terminator.succs().contains(t),
    ensures
        reachable(blocks, t),
{
    let k = choose|k: nat| reachable_in(blocks, j, k);
    assert(edge(blocks, j, t));
    assert(reachable_in(blocks, j, ((k + 1) - 1) as nat));
    assert(reachable_in(blocks, t, k + 1));
}


/// Block `to` can be reached from block `from` in at most `k` edge steps.
pub open spec fn reaches_in(blocks: Seq<BasicBlockV>, from: usize, to: usize, k: nat) -> bool
    decreases k,
{
    if k == 0 {
        from == to
    } else {
        reaches_in(blocks, from, to, (k - 1) as nat) || exists|j: usize|
            #[trigger] edge(blocks, j, to) && reaches_in(blocks, from, j, (k - 1) as nat)
    }
}

/// Block `to` is reachable from block `from` by forward traversal.
pub open spec fn reaches(blocks: Seq<BasicBlockV>, from: usize, to: usize) -> bool {
    exists|k: nat| reaches_in(blocks, from, to, k)
}

/// Every block reaches itself.
pub proof fn lemma_reaches_refl(blocks: Seq<BasicBlockV>, b: usize)
    ensures
        reaches(blocks, b, b),
{
    assert(reaches_in(blocks, b, b, 0));
}

/// Reachability between blocks extends along an edge.
pub proof fn lemma_reaches_extend(blocks: Seq<BasicBlockV>, from: usize, j: usize, to: usize)
    requires
        reaches(blocks, from, j),
        edge(blocks, j, to),
    ensures
        reaches(blocks, from, to),
{
    let k = choose|k: nat| reaches_in(blocks, from, j, k);
    assert(reaches_in(blocks, from, j, ((k + 1) - 1) as nat));
    assert(reaches_in(blocks, from, to, k + 1));
}

/// How many edges lead into block `t` from blocks below `j`.
pub open spec fn count_in(s: Seq<usize>, t: usize) -> nat
    decreases s.len(),
{
    if s.len() == 0 {
        0
    } else {
        count_in(s.drop_last(), t) + (if s.last() == t {
            1nat
        } else {
            0nat
        })
    }
}

/// How many edges of blocks `0..j` lead into block `t`.
pub open spec fn preds_below(blocks: Seq<BasicBlockV>, t: usize, j: int) -> nat
    decreases j,
{
    if j <= 0 {
        0
    } else {
        preds_below(blocks, t, j - 1) + count_in(blocks[j - 1].terminator.succs(), t)
    }
}

/// How many edges of the whole graph lead into block `t`.
pub open spec fn preds_of(blocks: Seq<BasicBlockV>, t: usize) -> nat {
    preds_below(blocks, t, blocks.len() as int)
}

/// The one predecessor of a block that has exactly one incoming edge.
pub open spec fn the_pred(blocks: Seq<BasicBlockV>, t: usize) -> usize {
    choose|j: usize| edge(blocks, j, t)
}

/// Counting over a prefix is monotone.
pub proof fn lemma_preds_split(blocks: Seq<BasicBlockV>, t: usize, i: int, j: int)
    requires
        i <= j,
    ensures
        preds_below(blocks, t, i) <= preds_below(blocks, t, j),
    decreases j - i,
{
    if i < j {
        lemma_preds_split(blocks, t, i, j - 1);
    }
}

/// A sequence containing `t` at some index counts it.
pub proof fn lemma_count_in_pos(s: Seq<usize>, t: usize, e: int)
    requires
        0 <= e < s.len(),
        s[e] == t,
    ensures
        count_in(s, t) >= 1,
    decreases s.len(),
{
    if e == s.len() - 1 {
    } else {
        lemma_count_in_pos(s.drop_last(), t, e);
    }
}

/// Two distinct predecessors force at least two incoming edges.
pub proof fn lemma_two_preds(blocks: Seq<BasicBlockV>, t: usize, j1: usize, j2: usize)
    requires
        edge(blocks, j1, t),
        edge(blocks, j2, t),
        j1 < j2,
    ensures
        preds_of(blocks, t) >= 2,
{
    let s1 = blocks[j1 as int].terminator.succs();
    let s2 = blocks[j2 as int].terminator.succs();
    let e1 = choose|e: int| 0 <= e < s1.len() && s1[e] == t;
    let e2 = choose|e: int| 0 <= e < s2.len() && s2[e] == t;
    lemma_count_in_pos(s1, t, e1);
    lemma_count_in_pos(s2, t, e2);
    lemma_preds_split(blocks, t, 0, j1 as int);
    lemma_preds_split(blocks, t, j1 as int + 1, j2 as int);
    assert(preds_below(blocks, t, j1 as int + 1) >= 1);
    assert(preds_below(blocks, t, j2 as int + 1) >= 2);
    lemma_preds_split(blocks, t, j2 as int + 1, blocks.len() as int);
}

// ---------------------------------------------------------------------------
// Renumbering: a surviving block's new id is the number of reachable blocks
// before it.
// ---------------------------------------------------------------------------

/// How many blocks with id below `i` are reachable.
pub open spec fn num_reachable_below(blocks: Seq<BasicBlockV>, i: int) -> nat
    decreases i,
{
    if i <= 0 {
        0
    } else {
        num_reachable_below(blocks, i - 1) + (if reachable(blocks, (i - 1) as usize) {
            1nat
        } else {
            0nat
        })
    }
}

/// The new id of an old block id after compaction.
pub open spec fn renum(blocks: Seq<BasicBlockV>, u: usize) -> usize {
    num_reachable_below(blocks, u as int) as usize
}

pub proof fn lemma_nrb_mono(blocks: Seq<BasicBlockV>, i: int, j: int)
    requires
        i <= j,
    ensures
        num_reachable_below(blocks, i) <= num_reachable_below(blocks, j),
        num_reachable_below(blocks, j) - num_reachable_below(blocks, i) <= j - i,
    decreases j - i,
{
    if i < j {
        lemma_nrb_mono(blocks, i, j - 1);
    }
}

/// A reachable block below `i` is counted strictly below the count at `i`.
pub proof fn lemma_nrb_strict(blocks: Seq<BasicBlockV>, t: usize, i: int)
    requires
        reachable(blocks, t),
        (t as int) < i,
    ensures
        num_reachable_below(blocks, t as int) < num_reachable_below(blocks, i),
{
    lemma_nrb_mono(blocks, t as int + 1, i);
}

// ---------------------------------------------------------------------------
// The compacted body, as a mathematical definition.
// ---------------------------------------------------------------------------

/// A terminator with every block reference renumbered.
pub open spec fn term_renum(blocks: Seq<BasicBlockV>, t: TerminatorV) -> TerminatorV {
    let rn = |u: usize| renum(blocks, u);
    let rno = |o: Option<usize>|
        match o {
            Some(u) => Some(renum(blocks, u)),
            None => None,
        };
    match t {
        TerminatorV::Goto { target } => TerminatorV::Goto { target: rn(target) },
        TerminatorV::SwitchInt { discr, switch_ty, targets } => TerminatorV::SwitchInt {
            discr,
            switch_ty,
            targets: SwitchTargetsV { values: targets.values, targets: targets.targets.map_values(rn) },
        },
        TerminatorV::Return => TerminatorV::Return,
        TerminatorV::Unreachable => TerminatorV::Unreachable,
        TerminatorV::Abort => TerminatorV::Abort,
        TerminatorV::Resume => TerminatorV::Resume,
        TerminatorV::GeneratorDrop => TerminatorV::GeneratorDrop,
        TerminatorV::Call { func, args, callee, callee_abi, destination, cleanup } => TerminatorV::Call {
            func,
            args,
            callee,
            callee_abi,
            destination: match destination {
                Some((p, u)) => Some((p, rn(u))),
                None => None,
            },
            cleanup: rno(cleanup),
        },
        TerminatorV::Drop { place, target, unwind } => TerminatorV::Drop {
            place,
            target: rn(target),
            unwind: rno(unwind),
        },
        TerminatorV::DropAndReplace { place, value, target, unwind } => TerminatorV::DropAndReplace {
            place,
            value,
            target: rn(target),
            unwind: rno(unwind),
        },
        TerminatorV::Assert { cond, expected, target, cleanup } => TerminatorV::Assert {
            cond,
            expected,
            target: rn(target),
            cleanup: rno(cleanup),
        },
        TerminatorV::Yield { value, resume, resume_arg, drop } => TerminatorV::Yield {
            value,
            resume: rn(resume),
            resume_arg,
            drop: rno(drop),
        },
        TerminatorV::FalseEdge { real_target, imaginary_target } => TerminatorV::FalseEdge {
            real_target: rn(real_target),
            imaginary_target: rn(imaginary_target),
        },
        TerminatorV::FalseUnwind { real_target, unwind } => TerminatorV::FalseUnwind {
            real_target: rn(real_target),
            unwind: rno(unwind),
        },
        TerminatorV::InlineAsm { destination, cleanup } => TerminatorV::InlineAsm {
            destination: rno(destination),
            cleanup: rno(cleanup),
        },
    }
}

/// A block with its terminator's references renumbered.
pub open spec fn block_renum(blocks: Seq<BasicBlockV>, bb: BasicBlockV) -> BasicBlockV {
    BasicBlockV {
        statements: bb.statements,
        terminator: term_renum(blocks, bb.terminator),
        is_cleanup: bb.is_cleanup,
    }
}

/// The surviving, renumbered blocks among `blocks[i..]`.
pub open spec fn compact_blocks(blocks: Seq<BasicBlockV>, i: int) -> Seq<BasicBlockV>
    decreases blocks.len() - i,
{
    if i < 0 || i >= blocks.len() {
        Seq::<BasicBlockV>::empty()
    } else {
        let rest = compact_blocks(blocks, i + 1);
        if reachable(blocks, i as usize) {
            seq![block_renum(blocks, blocks[i])] + rest
        } else {
            rest
        }
    }
}

/// What dead-block removal produces: unreachable blocks discarded, the rest
/// renumbered in order, everything else untouched.
pub open spec fn remove_dead_blocks_spec(b: BodyV) -> BodyV {
    BodyV {
        blocks: compact_blocks(b.blocks, 0),
        locals: b.locals,
        arg_count: b.arg_count,
        debug: b.debug,
        phase: b.phase,
        source: b.source,
    }
}

/// The compacted sequence has exactly one entry per reachable block.
pub proof fn lemma_compact_len(blocks: Seq<BasicBlockV>, i: int)
    requires
        0 <= i <= blocks.len(),
    ensures
        compact_blocks(blocks, i).len() == num_reachable_below(blocks, blocks.len() as int)
            - num_reachable_below(blocks, i),
    decreases blocks.len() - i,
{
    if i < blocks.len() {
        lemma_compact_len(blocks, i + 1);
    }
}

/// Where a reachable old block lands in the compacted sequence.
pub proof fn lemma_compact_index(blocks: Seq<BasicBlockV>, i: int, u: usize)
    requires
        0 <= i <= u,
        (u as int) < blocks.len(),
        reachable(blocks, u),
    ensures
        compact_blocks(blocks, i).len() > num_reachable_below(blocks, u as int)
            - num_reachable_below(blocks, i),
        compact_blocks(blocks, i)[num_reachable_below(blocks, u as int) - num_reachable_below(
            blocks,
            i,
        )] == block_renum(blocks, blocks[u as int]),
    decreases u - i,
{
    lemma_compact_len(blocks, i);
    lemma_nrb_strict(blocks, u, blocks.len() as int);
    lemma_nrb_mono(blocks, i, u as int);
    let rest = compact_blocks(blocks, i + 1);
    let d = num_reachable_below(blocks, u as int) - num_reachable_below(blocks, i);
    if i == u {
        assert(compact_blocks(blocks, i) == seq![block_renum(blocks, blocks[i])] + rest);
        assert(compact_blocks(blocks, i)[0] == block_renum(blocks, blocks[i]));
    } else {
        lemma_compact_index(blocks, i + 1, u);
        let d1 = num_reachable_below(blocks, u as int) - num_reachable_below(blocks, i + 1);
        if reachable(blocks, i as usize) {
            assert(num_reachable_below(blocks, i + 1) == num_reachable_below(blocks, i) + 1);
            lemma_nrb_strict(blocks, i as usize, u as int);
            assert(d == d1 + 1);
            assert(compact_blocks(blocks, i) == seq![block_renum(blocks, blocks[i])] + rest);
            assert(compact_blocks(blocks, i)[d] == rest[d1]);
        } else {
            assert(compact_blocks(blocks, i) == rest);
            assert(d == d1);
        }
    }
}

// ---------------------------------------------------------------------------
// Idempotence: compaction reaches a fixed point after one run.
// ---------------------------------------------------------------------------

/// Compaction maps reachability: a block reachable before is reachable at
/// its new id afterwards.
proof fn lemma_compact_reachable(blocks: Seq<BasicBlockV>, u: usize, k: nat)
    requires
        blocks.len() <= usize::MAX,
        forall|m: int| 0 <= m < blocks.len() ==> term_ok(#[trigger] blocks[m].terminator, blocks),
        reachable_in(blocks, u, k),
    ensures
        reachable_in(compact_blocks(blocks, 0), renum(blocks, u), k),
    decreases k,
{
    let cb = compact_blocks(blocks, 0);
    if k == 0 {
        assert(u == 0);
        assert(num_reachable_below(blocks, 0) == 0);
        assert(renum(blocks, 0) == 0);
    } else if reachable_in(blocks, u, (k - 1) as nat) {
        lemma_compact_reachable(blocks, u, (k - 1) as nat);
    } else {
        let j = choose|j: usize| #[trigger] edge(blocks, j, u) && reachable_in(
            blocks,
            j,
            (k - 1) as nat,
        );
        lemma_compact_reachable(blocks, j, (k - 1) as nat);
        assert(reachable(blocks, j));
        assert(blocks[j as int].terminator.succs().contains(u));
        lemma_reachable_step(blocks, j, u);
        assert(u < blocks.len()) by {
            let e = choose|e: int|
                0 <= e < blocks[j as int].terminator.succs().len()
                    && blocks[j as int].terminator.succs()[e] == u;
            assert(term_ok(blocks[j as int].terminator, blocks));
        }
        lemma_nrb_strict(blocks, j, blocks.len() as int);
        lemma_nrb_mono(blocks, 0, j as int);
        lemma_compact_index(blocks, 0, j);
        assert(cb[renum(blocks, j) as int] == block_renum(blocks, blocks[j as int]));
        lemma_term_renum_edges(blocks, blocks[j as int].terminator);
        let e = choose|e: int|
            0 <= e < blocks[j as int].terminator.succs().len()
                && blocks[j as int].terminator.succs()[e] == u;
        assert(cb[renum(blocks, j) as int].terminator.succs()[e] == renum(blocks, u));
        assert(cb[renum(blocks, j) as int].terminator.succs().contains(renum(blocks, u)));
        assert(edge(cb, renum(blocks, j), renum(blocks, u))) by {
            lemma_compact_len(blocks, 0);
            lemma_nrb_strict(blocks, j, blocks.len() as int);
        }
        assert(reachable_in(cb, renum(blocks, u), k));
    }
}

/// After one compaction, every block is reachable.
proof fn lemma_compact_all_reachable(blocks: Seq<BasicBlockV>, m: usize)
    requires
        blocks.len() <= usize::MAX,
        forall|m2: int| 0 <= m2 < blocks.len() ==> term_ok(
            #[trigger] blocks[m2].terminator,
            blocks,
        ),
        m < compact_blocks(blocks, 0).len(),
    ensures
        reachable(compact_blocks(blocks, 0), m),
{
    lemma_compact_len(blocks, 0);
    lemma_renum_onto(blocks, 0, m as nat);
    let u = choose|u: usize|
        #![all_triggers]
        u < blocks.len() && reachable(blocks, u) && num_reachable_below(blocks, u as int) == m;
    let k = choose|k: nat| #[trigger] reachable_in(blocks, u, k);
    lemma_compact_reachable(blocks, u, k);
    assert(renum(blocks, u) == m) by {
        lemma_nrb_mono(blocks, 0, u as int);
    }
}

/// Counting reachable blocks over an all-reachable range is the identity.
proof fn lemma_nrb_identity(blocks: Seq<BasicBlockV>, i: int)
    requires
        0 <= i <= blocks.len(),
        blocks.len() <= usize::MAX,
        forall|m: int| 0 <= m < blocks.len() ==> reachable(blocks, (#[trigger] (m + 0)) as usize),
    ensures
        num_reachable_below(blocks, i) == i,
    decreases i,
{
    if i > 0 {
        lemma_nrb_identity(blocks, i - 1);
        assert(reachable(blocks, ((i - 1) + 0) as usize));
    }
}

/// Renumbering over an all-reachable graph changes nothing in a sound
/// terminator.
proof fn lemma_term_renum_identity(blocks: Seq<BasicBlockV>, t: TerminatorV)
    requires
        blocks.len() <= usize::MAX,
        forall|m: int| 0 <= m < blocks.len() ==> reachable(blocks, (#[trigger] (m + 0)) as usize),
        term_ok(t, blocks),
    ensures
        term_renum(blocks, t) == t,
{
    assert forall|u: usize| u < blocks.len() implies #[trigger] renum(blocks, u) == u by {
        lemma_nrb_identity(blocks, u as int);
    }
    assert forall|j: int| 0 <= j < t.succs().len() implies #[trigger] t.succs()[j]
        < blocks.len() by {
    }
    match t {
        TerminatorV::Goto { target } => {
            assert(t.succs()[0] == target);
        },
        TerminatorV::SwitchInt { discr, switch_ty, targets } => {
            assert forall|x: int| 0 <= x < targets.targets.len() implies #[trigger] targets.targets[x]
                < blocks.len() by {
                assert(t.succs()[x] == targets.targets[x]);
            }
            assert(targets.targets.map_values(|u: usize| renum(blocks, u)) =~= targets.targets);
            assert(term_renum(blocks, t) =~= t);
        },
        TerminatorV::Call { destination, cleanup, .. } => {
            match destination {
                Some((_, u)) => {
                    assert(t.succs()[0] == u);
                },
                None => {},
            }
            match cleanup {
                Some(c) => {
                    assert(t.succs()[t.succs().len() - 1] == c);
                },
                None => {},
            }
            assert(term_renum(blocks, t) =~= t);
        },
        TerminatorV::Drop { target, unwind, .. } => {
            assert(t.succs()[0] == target);
            match unwind {
                Some(c) => {
                    assert(t.succs()[1] == c);
                },
                None => {},
            }
            assert(term_renum(blocks, t) =~= t);
        },
        TerminatorV::DropAndReplace { target, unwind, .. } => {
            assert(t.succs()[0] == target);
            match unwind {
                Some(c) => {
                    assert(t.succs()[1] == c);
                },
                None => {},
            }
            assert(term_renum(blocks, t) =~= t);
        },
        TerminatorV::Assert { target, cleanup, .. } => {
            assert(t.succs()[0] == target);
            match cleanup {
                Some(c) => {
                    assert(t.succs()[1] == c);
                },
                None => {},
            }
            assert(term_renum(blocks, t) =~= t);
        },
        TerminatorV::Yield { resume, drop, .. } => {
            assert(t.succs()[0] == resume);
            match drop {
                Some(c) => {
                    assert(t.succs()[1] == c);
                },
                None => {},
            }
            assert(term_renum(blocks, t) =~= t);
        },
        TerminatorV::FalseEdge { real_target, imaginary_target } => {
            assert(t.succs()[0] == real_target);
            assert(t.succs()[1] == imaginary_target);
        },
        TerminatorV::FalseUnwind { real_target, unwind } => {
            assert(t.succs()[0] == real_target);
            match unwind {
                Some(c) => {
                    assert(t.succs()[1] == c);
                },
                None => {},
            }
            assert(term_renum(blocks, t) =~= t);
        },
        TerminatorV::InlineAsm { destination, cleanup } => {
            match destination {
                Some(u) => {
                    assert(t.succs()[0] == u);
                },
                None => {},
            }
            match cleanup {
                Some(c) => {
                    assert(t.succs()[t.succs().len() - 1] == c);
                },
                None => {},
            }
            assert(term_renum(blocks, t) =~= t);
        },
        _ => {},
    }
}

/// Over an all-reachable, structurally sound graph, compaction keeps every
/// block as it is.
proof fn lemma_compact_identity(blocks: Seq<BasicBlockV>, i: int)
    requires
        0 <= i <= blocks.len(),
        blocks.len() <= usize::MAX,
        forall|m: int| 0 <= m < blocks.len() ==> reachable(blocks, (#[trigger] (m + 0)) as usize),
        forall|m: int| 0 <= m < blocks.len() ==> term_ok(#[trigger] blocks[m].terminator, blocks),
    ensures
        compact_blocks(blocks, i) == blocks.skip(i),
    decreases blocks.len() - i,
{
    if i == blocks.len() {
        assert(compact_blocks(blocks, i) =~= blocks.skip(i));
    } else {
        lemma_compact_identity(blocks, i + 1);
        assert(reachable(blocks, ((i + 0)) as usize));
        lemma_term_renum_identity(blocks, blocks[i].terminator);
        assert(block_renum(blocks, blocks[i]) =~= blocks[i]);
        assert(compact_blocks(blocks, i) =~= seq![blocks[i]] + blocks.skip(i + 1));
        assert(seq![blocks[i]] + blocks.skip(i + 1) =~= blocks.skip(i));
    }
}

/// Dead-block removal is idempotent: running it twice produces what one run
/// produces.
pub proof fn lemma_remove_dead_blocks_idempotent(b: BodyV)
    requires
        body_wf(b),
        b.blocks.len() <= usize::MAX,
    ensures
        remove_dead_blocks_spec(remove_dead_blocks_spec(b)) == remove_dead_blocks_spec(b),
{
    let c = remove_dead_blocks_spec(b);
    lemma_rdb_wf(b);
    lemma_compact_len(b.blocks, 0);
    lemma_nrb_mono(b.blocks, 0, b.blocks.len() as int);
    assert(c.blocks.len() <= b.blocks.len());
    assert forall|m: int| 0 <= m < c.blocks.len() implies reachable(
        c.blocks,
        (#[trigger] (m + 0)) as usize,
    ) by {
        lemma_compact_all_reachable(b.blocks, (m + 0) as usize);
    }
    assert forall|m: int| 0 <= m < c.blocks.len() implies term_ok(
        #[trigger] c.blocks[m].terminator,
        c.blocks,
    ) by {
    }
    lemma_compact_identity(c.blocks, 0);
    assert(c.blocks.skip(0) =~= c.blocks);
    assert(remove_dead_blocks_spec(c) =~= c);
}

// ---------------------------------------------------------------------------
// Executable reachability.
// ---------------------------------------------------------------------------

/// All successor block ids of a terminator, unwind edges included.
pub fn term_succs_vec(t: &Terminator) -> (r: Vec<usize>)
    ensures
        r@ == t@.succs(),
{
    let mut r: Vec<usize> = Vec::new();
    match t {
        Terminator::Goto { target } => {
            r.push(*target);
        },
        Terminator::SwitchInt { targets, .. } => {
            let n = targets.targets.len();
            let mut i: usize = 0;
            while i < n
                invariant
                    n == targets.targets@.len(),
                    i <= n,
                    r@ == targets.targets@.take(i as int),
                decreases n - i,
            {
                r.push(targets.targets[i]);
                proof {
                    assert(targets.targets@.take(i + 1) =~= targets.targets@.take(i as int).push(
                        targets.targets@[i as int],
                    ));
                }
                i = i + 1;
            }
            proof {
                assert(targets.targets@.take(n as int) =~= targets.targets@);
            }
        },
        Terminator::Return => {},
        Terminator::Unreachable => {},
        Terminator::Abort => {},
        Terminator::Resume => {},
        Terminator::GeneratorDrop => {},
        Terminator::Call { destination, cleanup, .. } => {
            match destination {
                Some((_, t)) => {
                    r.push(*t);
                },
                None => {},
            }
            match cleanup {
                Some(c) => {
                    r.push(*c);
                },
                None => {},
            }
        },
        Terminator::Drop { target, unwind, .. } => {
            r.push(*target);
            match unwind {
                Some(c) => {
                    r.push(*c);
                },
                None => {},
            }
        },
        Terminator::DropAndReplace { target, unwind, .. } => {
            r.push(*target);
            match unwind {
                Some(c) => {
                    r.push(*c);
                },
                None => {},
            }
        },
        Terminator::Assert { target, cleanup, .. } => {
            r.push(*target);
            match cleanup {
                Some(c) => {
                    r.push(*c);
                },
                None => {},
            }
        },
        Terminator::Yield { resume, drop, .. } => {
            r.push(*resume);
            match drop {
                Some(c) => {
                    r.push(*c);
                },
                None => {},
            }
        },
        Terminator::FalseEdge { real_target, imaginary_target } => {
            r.push(*real_target);
            r.push(*imaginary_target);
        },
        Terminator::FalseUnwind { real_target, unwind } => {
            r.push(*real_target);
            match unwind {
                Some(c) => {
                    r.push(*c);
                },
                None => {},
            }
        },
        Terminator::InlineAsm { destination, cleanup } => {
            match destination {
                Some(t) => {
                    r.push(*t);
                },
                None => {},
            }
            match cleanup {
                Some(c) => {
                    r.push(*c);
                },
                None => {},
            }
        },
    }
    proof {
        assert(r@ =~= t@.succs());
    }
    r
}

/// How many entries of a boolean sequence are still false.
pub open spec fn count_false(s: Seq<bool>) -> nat
    decreases s.len(),
{
    if s.len() == 0 {
        0
    } else {
        count_false(s.drop_last()) + (if s.last() {
            0nat
        } else {
            1nat
        })
    }
}

/// No more entries are false than there are entries.
pub proof fn lemma_count_false_le(s: Seq<bool>)
    ensures
        count_false(s) <= s.len(),
    decreases s.len(),
{
    if s.len() > 0 {
        lemma_count_false_le(s.drop_last());
    }
}

/// Setting a false entry to true lowers the false count by one.
pub proof fn lemma_count_false_update(s: Seq<bool>, i: int)
    requires
        0 <= i < s.len(),
        !s[i],
    ensures
        count_false(s.update(i, true)) + 1 == count_false(s),
    decreases s.len(),
{
    let t = s.update(i, true);
    if i == s.len() - 1 {
        assert(t.drop_last() =~= s.drop_last());
    } else {
        assert(t.drop_last() =~= s.drop_last().update(i, true));
        lemma_count_false_update(s.drop_last(), i);
    }
}

/// Membership after appending one element.
pub proof fn lemma_contains_push(s: Seq<usize>, x: usize, y: usize)
    ensures
        s.push(x).contains(y) <==> (s.contains(y) || y == x),
{
    if s.push(x).contains(y) {
        let i = choose|i: int| 0 <= i < s.push(x).len() && s.push(x)[i] == y;
        if i < s.len() {
            assert(s[i] == y);
        }
    }
    if s.contains(y) {
        let i = choose|i: int| 0 <= i < s.len() && s[i] == y;
        assert(s.push(x)[i] == y);
    }
    if y == x {
        assert(s.push(x)[s.len() as int] == y);
    }
}

/// Membership after removing the last element.
pub proof fn lemma_contains_drop_last(s: Seq<usize>, y: usize)
    requires
        s.len() > 0,
    ensures
        s.contains(y) <==> (s.drop_last().contains(y) || s.last() == y),
{
    if s.contains(y) {
        let i = choose|i: int| 0 <= i < s.len() && s[i] == y;
        if i < s.len() - 1 {
            assert(s.drop_last()[i] == y);
        }
    }
    if s.drop_last().contains(y) {
        let i = choose|i: int| 0 <= i < s.drop_last().len() && s.drop_last()[i] == y;
        assert(s[i] == y);
    }
}

/// A visited table that contains the entry and is closed under edges covers
/// everything reachable.
pub proof fn lemma_closed_covers_reachable(
    blocks: Seq<BasicBlockV>,
    visited: Seq<bool>,
    i: usize,
    k: nat,
)
    requires
        visited.len() == blocks.len(),
        blocks.len() >= 1,
        visited[0],
        forall|j: usize, s: usize|
            j < blocks.len() && visited[j as int] && #[trigger] edge(blocks, j, s) ==> s
                < blocks.len() && visited[s as int],
        reachable_in(blocks, i, k),
    ensures
        i < blocks.len() && visited[i as int],
    decreases k,
{
    if k == 0 {
    } else if reachable_in(blocks, i, (k - 1) as nat) {
        lemma_closed_covers_reachable(blocks, visited, i, (k - 1) as nat);
    } else {
        let j = choose|j: usize| #[trigger] edge(blocks, j, i) && reachable_in(
            blocks,
            j,
            (k - 1) as nat,
        );
        lemma_closed_covers_reachable(blocks, visited, j, (k - 1) as nat);
    }
}

/// Computes, for every block, whether it is reachable from the entry block.
pub fn compute_reachable(body: &Body) -> (r: Vec<bool>)
    requires
        body_wf(body@),
    ensures
        r@.len() == body@.blocks.len(),
        forall|i: int| 0 <= i < r@.len() ==> (r@[i] <==> reachable(body@.blocks, i as usize)),
{
    let ghost blocks = body@.blocks;
    let n = body.basic_blocks.len();
    let mut visited: Vec<bool> = Vec::new();
    let mut i: usize = 0;
    while i < n
        invariant
            i <= n,
            visited@.len() == i,
            forall|m: int| 0 <= m < i ==> !visited@[m],
        decreases n - i,
    {
        visited.push(false);
        i = i + 1;
    }
    let mut worklist: Vec<usize> = Vec::new();
    visited[0] = true;
    worklist.push(0);
    proof {
        lemma_reachable_entry(blocks);
        assert(worklist@[0] == 0);
        assert(worklist@.contains(0));
    }
    while worklist.len() > 0
        invariant
            body_wf(body@),
            blocks == body@.blocks,
            n == blocks.len(),
            visited@.len() == n,
            visited@[0],
            forall|m: int| 0 <= m < n ==> (#[trigger] visited@[m] ==> reachable(blocks, m as usize)),
            forall|w: int| 0 <= w < worklist@.len() ==> #[trigger] worklist@[w] < n && visited@[worklist@[w] as int],
            forall|j: usize, s: usize|
                j < n && visited@[j as int] && !worklist@.contains(j) && #[trigger] edge(
                    blocks,
                    j,
                    s,
                ) ==> visited@[s as int],
        decreases count_false(visited@), worklist@.len(),
    {
        let ghost old_visited = visited@;
        let ghost old_worklist = worklist@;
        let j = worklist.pop().unwrap();
        proof {
            assert forall|y: usize| old_worklist.contains(y) implies worklist@.contains(y) || y
                == j by {
                lemma_contains_drop_last(old_worklist, y);
            }
            assert forall|y: usize| worklist@.contains(y) implies old_worklist.contains(y) by {
                lemma_contains_drop_last(old_worklist, y);
            }
        }
        let succs = term_succs_vec(&body.basic_blocks[j].terminator);
        let ghost sv = succs@;
        proof {
            assert(body@.blocks[j as int] == body.basic_blocks@.map_values(|b: BasicBlock| b@)[j as int]);
            assert(sv == blocks[j as int].terminator.succs());
            assert(term_ok(blocks[j as int].terminator, blocks));
        }
        let m = succs.len();
        let mut e: usize = 0;
        while e < m
            invariant
                body_wf(body@),
                blocks == body@.blocks,
                n == blocks.len(),
                j < n,
                m == sv.len(),
                e <= m,
                sv == blocks[j as int].terminator.succs(),
                forall|x: int| 0 <= x < sv.len() ==> #[trigger] sv[x] < n,
                succs@ == sv,
                visited@.len() == n,
                visited@[0],
                visited@[j as int],
                forall|m2: int| 0 <= m2 < n ==> (#[trigger] visited@[m2] ==> reachable(blocks, m2 as usize)),
                forall|w: int| 0 <= w < worklist@.len() ==> #[trigger] worklist@[w] < n && visited@[worklist@[w] as int],
                forall|j2: usize, s: usize|
                    j2 < n && j2 != j && visited@[j2 as int] && !worklist@.contains(j2)
                        && #[trigger] edge(blocks, j2, s) ==> visited@[s as int],
                forall|x: int| 0 <= x < e ==> visited@[#[trigger] sv[x] as int],
                count_false(visited@) < count_false(old_visited) || (visited@ == old_visited
                    && worklist@ == old_worklist.drop_last()),
            decreases m - e,
        {
            let s = succs[e];
            if !visited[s] {
                proof {
                    lemma_count_false_update(visited@, s as int);
                    assert(blocks[j as int].terminator.succs().contains(sv[e as int]));
                    assert(edge(blocks, j, s));
                    lemma_reachable_step(blocks, j, s);
                }
                let ghost wl_before = worklist@;
                visited[s] = true;
                worklist.push(s);
                proof {
                    assert forall|y: usize| wl_before.contains(y) implies worklist@.contains(
                        y,
                    ) by {
                        lemma_contains_push(wl_before, s, y);
                    }
                    assert forall|y: usize| worklist@.contains(y) implies wl_before.contains(y)
                        || y == s by {
                        lemma_contains_push(wl_before, s, y);
                    }
                    assert(worklist@[worklist@.len() - 1] == s);
                    assert(worklist@.contains(s));
                }
            }
            e = e + 1;
        }
    }
    proof {
        assert forall|i2: int| 0 <= i2 < n implies (visited@[i2] <==> reachable(
            blocks,
            i2 as usize,
        )) by {
            if visited@[i2] {
            } else {
                if reachable(blocks, i2 as usize) {
                    let k = choose|k: nat| #[trigger] reachable_in(blocks, i2 as usize, k);
                    lemma_closed_covers_reachable(blocks, visited@, i2 as usize, k);
                }
            }
        }
    }
    visited
}

// ---------------------------------------------------------------------------
// Renumbering facts.
// ---------------------------------------------------------------------------

/// Renumbering maps a terminator's successors pointwise and keeps its unwind
/// field shape.
pub proof fn lemma_term_renum_edges(blocks: Seq<BasicBlockV>, t: TerminatorV)
    ensures
        term_renum(blocks, t).succs() =~= t.succs().map_values(|u: usize| renum(blocks, u)),
        term_renum(blocks, t).unwind() == (match t.unwind() {
            Some(Some(u)) => Some(Some(renum(blocks, u))),
            Some(None) => Some(None::<usize>),
            None => None::<Option<usize>>,
        }),
{
}

/// An unwind edge is one of the terminator's successors.
pub proof fn lemma_unwind_in_succs(t: TerminatorV, u: usize)
    requires
        t.unwind() == Some(Some(u)),
    ensures
        t.succs().contains(u),
{
    match t {
        TerminatorV::Call { destination, cleanup, .. } => {
            assert(t.succs()[t.succs().len() - 1] == u);
        },
        TerminatorV::Drop { .. } => {
            assert(t.succs()[1] == u);
        },
        TerminatorV::DropAndReplace { .. } => {
            assert(t.succs()[1] == u);
        },
        TerminatorV::Assert { .. } => {
            assert(t.succs()[1] == u);
        },
        TerminatorV::FalseUnwind { .. } => {
            assert(t.succs()[1] == u);
        },
        TerminatorV::InlineAsm { destination, cleanup } => {
            assert(t.succs()[t.succs().len() - 1] == u);
        },
        _ => {},
    }
}

/// Every compacted index is the image of some reachable old block.
pub proof fn lemma_renum_onto(blocks: Seq<BasicBlockV>, i: int, k: nat)
    requires
        blocks.len() <= usize::MAX,
        0 <= i <= blocks.len(),
        num_reachable_below(blocks, i) <= k < num_reachable_below(blocks, blocks.len() as int),
    ensures
        exists|u: usize|
            #![all_triggers]
            u < blocks.len() && i <= u && reachable(blocks, u) && num_reachable_below(
                blocks,
                u as int,
            ) == k,
    decreases blocks.len() - i,
{
    if i == blocks.len() {
    } else {
        if reachable(blocks, i as usize) && num_reachable_below(blocks, i) == k {
            let u = i as usize;
            assert(u as int == i);
            assert(u < blocks.len() && i <= u && reachable(blocks, u) && num_reachable_below(
                blocks,
                u as int,
            ) == k);
        } else {
            lemma_renum_onto(blocks, i + 1, k);
        }
    }
}

/// Dead-block removal keeps the body structurally well formed.
pub proof fn lemma_rdb_wf(b: BodyV)
    requires
        body_wf(b),
        b.blocks.len() <= usize::MAX,
    ensures
        body_wf(remove_dead_blocks_spec(b)),
{
    let blocks = b.blocks;
    let n = blocks.len() as int;
    let newb = remove_dead_blocks_spec(b).blocks;
    lemma_compact_len(blocks, 0);
    lemma_reachable_entry(blocks);
    assert(num_reachable_below(blocks, 1) == 1);
    lemma_nrb_mono(blocks, 1, n);
    assert(newb.len() >= 1);
    assert forall|k: int| 0 <= k < newb.len() implies term_ok(
        #[trigger] newb[k].terminator,
        newb,
    ) by {
        lemma_renum_onto(blocks, 0, k as nat);
        let u = choose|u: usize|
            #![all_triggers]
            u < blocks.len() && reachable(blocks, u) && num_reachable_below(blocks, u as int)
                == k;
        lemma_compact_index(blocks, 0, u);
        assert(newb[k] == block_renum(blocks, blocks[u as int]));
        let t = blocks[u as int].terminator;
        lemma_term_renum_edges(blocks, t);
        assert forall|j: int| 0 <= j < newb[k].terminator.succs().len() implies #[trigger] newb[k].terminator.succs()[j]
            < newb.len() by {
            let s = t.succs()[j];
            assert(t.succs().contains(s));
            lemma_reachable_step(blocks, u, s);
            assert(s < blocks.len());
            lemma_nrb_strict(blocks, s, n);
            assert(newb[k].terminator.succs()[j] == renum(blocks, s));
        }
        match newb[k].terminator.unwind() {
            Some(Some(w)) => {
                let w0 = choose|w0: usize| t.unwind() == Some(Some(w0)) && w == renum(blocks, w0);
                assert(t.unwind() == Some(Some(w0)) && w == renum(blocks, w0)) by {
                    match t.unwind() {
                        Some(Some(x)) => {
                            assert(newb[k].terminator.unwind() == Some(Some(renum(blocks, x))));
                        },
                        _ => {},
                    }
                }
                lemma_unwind_in_succs(t, w0);
                lemma_reachable_step(blocks, u, w0);
                lemma_nrb_strict(blocks, w0, n);
                lemma_nrb_mono(blocks, 0, w0 as int);
                lemma_compact_index(blocks, 0, w0);
                assert(newb[renum(blocks, w0) as int] == block_renum(blocks, blocks[w0 as int]));
                assert(blocks[w0 as int].is_cleanup);
            },
            _ => {},
        }
    }
}

// ---------------------------------------------------------------------------
// Executable dead-block removal.
// ---------------------------------------------------------------------------

/// Rewrites every block reference of a terminator through the replacement
/// table `repl`, which maps each old block id to its post-compaction id.
fn renumber_terminator(t: &mut Terminator, repl: &Vec<usize>, Ghost(blocks): Ghost<Seq<BasicBlockV>>)
    requires
        forall|u: int| 0 <= u < repl@.len() ==> #[trigger] repl@[u] == renum(blocks, u as usize),
        forall|x: int|
            0 <= x < old(t)@.succs().len() ==> #[trigger] old(t)@.succs()[x] < repl@.len(),
    ensures
        final (t)@ == term_renum(blocks, old(t)@),
{
    let ghost t0 = old(t)@;
    let mut tmp = Terminator::Return;
    core::mem::swap(t, &mut tmp);
    let newt = match tmp {
        Terminator::Goto { target } => {
            proof {
                assert(t0.succs()[0] == target);
            }
            Terminator::Goto { target: repl[target] }
        },
        Terminator::SwitchInt { discr, switch_ty, targets } => {
            let mut tg = targets;
            let ghost tv0 = tg.targets@;
            proof {
                assert(t0.succs() == tv0);
            }
            let n = tg.targets.len();
            let mut i: usize = 0;
            while i < n
                invariant
                    n == tg.targets@.len(),
                    tv0.len() == n,
                    i <= n,
                    tg.values@ == t0->SwitchInt_targets.values,
                    forall|u: int| 0 <= u < repl@.len() ==> #[trigger] repl@[u] == renum(
                        blocks,
                        u as usize,
                    ),
                    forall|x: int| 0 <= x < n ==> #[trigger] tv0[x] < repl@.len(),
                    forall|x: int| i <= x < n ==> #[trigger] tg.targets@[x] == tv0[x],
                    forall|x: int|
                        0 <= x < i ==> #[trigger] tg.targets@[x] == renum(blocks, tv0[x]),
                decreases n - i,
            {
                tg.targets[i] = repl[tg.targets[i]];
                i = i + 1;
            }
            proof {
                assert(tg.targets@ =~= tv0.map_values(|u: usize| renum(blocks, u)));
            }
            Terminator::SwitchInt { discr, switch_ty, targets: tg }
        },
        Terminator::Return => Terminator::Return,
        Terminator::Unreachable => Terminator::Unreachable,
        Terminator::Abort => Terminator::Abort,
        Terminator::Resume => Terminator::Resume,
        Terminator::GeneratorDrop => Terminator::GeneratorDrop,
        Terminator::Call { func, args, callee, callee_abi, destination, cleanup } => {
            let destination = match destination {
                Some(pair) => {
                    proof {
                        assert(t0.succs()[0] == pair.1);
                    }
                    let (p, u) = pair;
                    Some((p, repl[u]))
                },
                None => None,
            };
            let cleanup = match cleanup {
                Some(c) => {
                    proof {
                        assert(t0.succs()[t0.succs().len() - 1] == c);
                    }
                    Some(repl[c])
                },
                None => None,
            };
            Terminator::Call { func, args, callee, callee_abi, destination, cleanup }
        },
        Terminator::Drop { place, target, unwind } => {
            proof {
                assert(t0.succs()[0] == target);
            }
            let unwind = match unwind {
                Some(c) => {
                    proof {
                        assert(t0.succs()[1] == c);
                    }
                    Some(repl[c])
                },
                None => None,
            };
            Terminator::Drop { place, target: repl[target], unwind }
        },
        Terminator::DropAndReplace { place, value, target, unwind } => {
            proof {
                assert(t0.succs()[0] == target);
            }
            let unwind = match unwind {
                Some(c) => {
                    proof {
                        assert(t0.succs()[1] == c);
                    }
                    Some(repl[c])
                },
                None => None,
            };
            Terminator::DropAndReplace { place, value, target: repl[target], unwind }
        },
        Terminator::Assert { cond, expected, target, cleanup } => {
            proof {
                assert(t0.succs()[0] == target);
            }
            let cleanup = match cleanup {
                Some(c) => {
                    proof {
                        assert(t0.succs()[1] == c);
                    }
                    Some(repl[c])
                },
                None => None,
            };
            Terminator::Assert { cond, expected, target: repl[target], cleanup }
        },
        Terminator::Yield { value, resume, resume_arg, drop } => {
            proof {
                assert(t0.succs()[0] == resume);
            }
            let drop = match drop {
                Some(c) => {
                    proof {
                        assert(t0.succs()[1] == c);
                    }
                    Some(repl[c])
                },
                None => None,
            };
            Terminator::Yield { value, resume: repl[resume], resume_arg, drop }
        },
        Terminator::FalseEdge { real_target, imaginary_target } => {
            proof {
                assert(t0.succs()[0] == real_target);
                assert(t0.succs()[1] == imaginary_target);
            }
            Terminator::FalseEdge {
                real_target: repl[real_target],
                imaginary_target: repl[imaginary_target],
            }
        },
        Terminator::FalseUnwind { real_target, unwind } => {
            proof {
                assert(t0.succs()[0] == real_target);
            }
            let unwind = match unwind {
                Some(c) => {
                    proof {
                        assert(t0.succs()[1] == c);
                    }
                    Some(repl[c])
                },
                None => None,
            };
            Terminator::FalseUnwind { real_target: repl[real_target], unwind }
        },
        Terminator::InlineAsm { destination, cleanup } => {
            let destination = match destination {
                Some(d) => {
                    proof {
                        assert(t0.succs()[0] == d);
                    }
                    Some(repl[d])
                },
                None => None,
            };
            let cleanup = match cleanup {
                Some(c) => {
                    proof {
                        assert(t0.succs()[t0.succs().len() - 1] == c);
                    }
                    Some(repl[c])
                },
                None => None,
            };
            Terminator::InlineAsm { destination, cleanup }
        },
    };
    *t = newt;
    proof {
        assert(t@ =~= term_renum(blocks, t0));
    }
}

/// Computes reachability from the entry block, discards unreachable blocks,
/// and renumbers the surviving blocks consistently, fixing every block
/// reference up to the new numbering.
pub fn remove_dead_blocks(body: &mut Body)
    requires
        body_wf(old(body)@),
    ensures
        final (body)@ == remove_dead_blocks_spec(old(body)@),
        body_wf(final (body)@),
{
    let ghost blocks0 = old(body)@.blocks;
    let visited = compute_reachable(body);
    let n = body.basic_blocks.len();
    let mut repl: Vec<usize> = Vec::new();
    let mut cnt: usize = 0;
    let mut i: usize = 0;
    proof {
        lemma_nrb_mono(blocks0, 0, n as int);
    }
    while i < n
        invariant
            n == blocks0.len(),
            visited@.len() == n,
            forall|m: int| 0 <= m < n ==> (#[trigger] visited@[m] <==> reachable(
                blocks0,
                m as usize,
            )),
            i <= n,
            repl@.len() == i,
            cnt == num_reachable_below(blocks0, i as int),
            cnt <= i,
            forall|u: int| 0 <= u < i ==> #[trigger] repl@[u] == renum(blocks0, u as usize),
        decreases n - i,
    {
        repl.push(cnt);
        proof {
            lemma_nrb_mono(blocks0, 0, i as int);
        }
        if visited[i] {
            cnt = cnt + 1;
        }
        i = i + 1;
    }
    let mut out: Vec<BasicBlock> = Vec::new();
    let mut i: usize = 0;
    proof {
        assert(body.basic_blocks@.map_values(|b: BasicBlock| b@) =~= blocks0.skip(0));
        assert(out@.map_values(|b: BasicBlock| b@) + compact_blocks(blocks0, 0) =~= compact_blocks(
            blocks0,
            0,
        ));
    }
    while i < n
        invariant
            n == blocks0.len(),
            visited@.len() == n,
            repl@.len() == n,
            forall|m: int| 0 <= m < n ==> (#[trigger] visited@[m] <==> reachable(
                blocks0,
                m as usize,
            )),
            forall|u: int| 0 <= u < n ==> #[trigger] repl@[u] == renum(blocks0, u as usize),
            i <= n,
            body.basic_blocks@.map_values(|b: BasicBlock| b@) == blocks0.skip(i as int),
            forall|m: int| 0 <= m < blocks0.len() ==> term_ok(
                #[trigger] blocks0[m].terminator,
                blocks0,
            ),
            out@.map_values(|b: BasicBlock| b@) + compact_blocks(blocks0, i as int)
                == compact_blocks(blocks0, 0),
            body.local_decls@ == old(body).local_decls@,
            body.arg_count == old(body).arg_count,
            body.var_debug_info@ == old(body).var_debug_info@,
            body.phase == old(body).phase,
            body.source == old(body).source,
        decreases n - i,
    {
        let ghost outv0 = out@.map_values(|b: BasicBlock| b@);
        let ghost bbs_before = body.basic_blocks@;
        proof {
            assert(bbs_before.map_values(|b: BasicBlock| b@).len() == bbs_before.len());
            assert(bbs_before.len() == n - i);
        }
        let mut bb = body.basic_blocks.remove(0);
        proof {
            assert(bb == bbs_before[0]);
            assert(bbs_before.map_values(|b: BasicBlock| b@)[0] == bb@);
            assert(blocks0.skip(i as int)[0] == blocks0[i as int]);
            assert(bb@ == blocks0[i as int]);
            assert(body.basic_blocks@.len() == bbs_before.len() - 1);
            let ghost bbs_after = body.basic_blocks@;
            assert forall|k: int| 0 <= k < bbs_after.len() implies (#[trigger] bbs_after[k])@
                == blocks0.skip(i + 1)[k] by {
                assert(bbs_after[k] == bbs_before[k + 1]);
                assert(bbs_before.map_values(|b: BasicBlock| b@)[k + 1] == blocks0.skip(
                    i as int,
                )[k + 1]);
            }
            assert(body.basic_blocks@.map_values(|b: BasicBlock| b@) =~= blocks0.skip(i + 1));
            assert(term_ok(blocks0[i as int].terminator, blocks0));
        }
        if visited[i] {
            renumber_terminator(&mut bb.terminator, &repl, Ghost(blocks0));
            proof {
                assert(bb@ =~= block_renum(blocks0, blocks0[i as int]));
            }
            out.push(bb);
            proof {
                assert(out@.map_values(|b: BasicBlock| b@) =~= outv0.push(block_renum(
                    blocks0,
                    blocks0[i as int],
                )));
                assert(compact_blocks(blocks0, i as int) == seq![
                    block_renum(blocks0, blocks0[i as int]),
                ] + compact_blocks(blocks0, i + 1));
                assert(outv0.push(block_renum(blocks0, blocks0[i as int])) + compact_blocks(
                    blocks0,
                    i + 1,
                ) =~= outv0 + compact_blocks(blocks0, i as int));
            }
        } else {
            proof {
                assert(compact_blocks(blocks0, i as int) == compact_blocks(blocks0, i + 1));
            }
        }
        i = i + 1;
    }
    body.basic_blocks = out;
    proof {
        assert(compact_blocks(blocks0, n as int) =~= Seq::<BasicBlockV>::empty());
        assert(body@.blocks =~= compact_blocks(blocks0, 0));
        assert(body@ =~= remove_dead_blocks_spec(old(body)@));
        lemma_rdb_wf(old(body)@);
    }
}

// ---------------------------------------------------------------------------
// Generic CFG simplification.
// ---------------------------------------------------------------------------


/// The target this block's goto merges, when the single-predecessor merge
/// applies: the block ends in a goto to a block other than itself and the
/// entry, not yet consumed by an earlier merge, into which that goto is the
/// only edge of the original graph.
pub open spec fn merge_ok(
    blocks0: Seq<BasicBlockV>,
    bs: Seq<BasicBlockV>,
    merged: Seq<bool>,
    b: int,
) -> Option<usize> {
    if 0 <= b < bs.len() {
        match bs[b].terminator {
            TerminatorV::Goto { target } => {
                if target != b && target != 0 && target < merged.len() && !merged[target as int]
                    && target < bs.len() && preds_of(blocks0, target) == 1 {
                    Some(target)
                } else {
                    None
                }
            },
            _ => None,
        }
    } else {
        None
    }
}

/// One merge: the target is gutted to an unreachable stub and this block
/// absorbs its statements and terminator.
pub open spec fn merge_one(bs: Seq<BasicBlockV>, b: int, t: usize) -> Seq<BasicBlockV> {
    bs.update(
        t as int,
        BasicBlockV {
            statements: Seq::<crate::ir::StatementV>::empty(),
            terminator: TerminatorV::Unreachable,
            is_cleanup: bs[t as int].is_cleanup,
        },
    ).update(
        b,
        BasicBlockV {
            statements: bs[b].statements + bs[t as int].statements,
            terminator: bs[t as int].terminator,
            is_cleanup: bs[b].is_cleanup,
        },
    )
}

/// The goto chain starting at one block, merged until no merge applies.
pub open spec fn merge_chain(
    blocks0: Seq<BasicBlockV>,
    bs: Seq<BasicBlockV>,
    merged: Seq<bool>,
    b: int,
    fuel: nat,
) -> (Seq<BasicBlockV>, Seq<bool>)
    decreases fuel,
{
    if fuel == 0 {
        (bs, merged)
    } else {
        match merge_ok(blocks0, bs, merged, b) {
            Some(t) => merge_chain(
                blocks0,
                merge_one(bs, b, t),
                merged.update(t as int, true),
                b,
                (fuel - 1) as nat,
            ),
            None => (bs, merged),
        }
    }
}

/// The chain at one block, with enough fuel for every possible merge.
pub open spec fn merge_at(
    blocks0: Seq<BasicBlockV>,
    bs: Seq<BasicBlockV>,
    merged: Seq<bool>,
    b: int,
) -> (Seq<BasicBlockV>, Seq<bool>) {
    merge_chain(blocks0, bs, merged, b, count_false(merged) + 1)
}

/// Every block's goto chain merged, in block order.
pub open spec fn merge_all(
    blocks0: Seq<BasicBlockV>,
    bs: Seq<BasicBlockV>,
    merged: Seq<bool>,
    b: int,
    n: int,
) -> (Seq<BasicBlockV>, Seq<bool>)
    decreases n - b,
{
    if b < 0 || b >= n {
        (bs, merged)
    } else {
        let st = merge_at(blocks0, bs, merged, b);
        merge_all(blocks0, st.0, st.1, b + 1, n)
    }
}

/// What CFG simplification produces: the goto chains merged, then the dead
/// blocks removed.
pub open spec fn simplify_cfg_spec(b: BodyV) -> BodyV {
    let st = merge_all(
        b.blocks,
        b.blocks,
        Seq::new(b.blocks.len(), |x: int| false),
        0,
        b.blocks.len() as int,
    );
    remove_dead_blocks_spec(
        BodyV {
            blocks: st.0,
            locals: b.locals,
            arg_count: b.arg_count,
            debug: b.debug,
            phase: b.phase,
            source: b.source,
        },
    )
}

/// Merging never changes how many blocks or flags there are.
pub proof fn lemma_merge_chain_len(
    blocks0: Seq<BasicBlockV>,
    bs: Seq<BasicBlockV>,
    merged: Seq<bool>,
    b: int,
    fuel: nat,
)
    ensures
        merge_chain(blocks0, bs, merged, b, fuel).0.len() == bs.len(),
        merge_chain(blocks0, bs, merged, b, fuel).1.len() == merged.len(),
    decreases fuel,
{
    if fuel > 0 {
        match merge_ok(blocks0, bs, merged, b) {
            Some(t) => {
                lemma_merge_chain_len(
                    blocks0,
                    merge_one(bs, b, t),
                    merged.update(t as int, true),
                    b,
                    (fuel - 1) as nat,
                );
            },
            None => {},
        }
    }
}

/// Merging every chain never changes how many blocks there are.
pub proof fn lemma_merge_all_len(
    blocks0: Seq<BasicBlockV>,
    bs: Seq<BasicBlockV>,
    merged: Seq<bool>,
    b: int,
    n: int,
)
    ensures
        merge_all(blocks0, bs, merged, b, n).0.len() == bs.len(),
    decreases n - b,
{
    if 0 <= b < n {
        let st = merge_at(blocks0, bs, merged, b);
        lemma_merge_chain_len(blocks0, bs, merged, b, count_false(merged) + 1);
        lemma_merge_all_len(blocks0, st.0, st.1, b + 1, n);
    }
}

/// Collapses chains of single-predecessor blocks into their unique
/// predecessor, then removes the blocks that became dead. A block `t` is
/// merged into `b` when `b` ends in `Goto(t)`, `t` is not the entry block,
/// and the goto is the only edge into `t`; `b` absorbs `t`'s statements and
/// terminator and `t` is gutted to an unreachable stub for the compaction to
/// discard.
pub fn simplify_cfg(body: &mut Body)
    requires
        body_wf(old(body)@),
    ensures
        body_wf(final (body)@),
        final (body)@ == simplify_cfg_spec(old(body)@),
        final (body)@.blocks.len() <= old(body)@.blocks.len(),
        final (body)@.locals == old(body)@.locals,
        final (body)@.arg_count == old(body)@.arg_count,
        final (body)@.debug == old(body)@.debug,
        final (body)@.phase == old(body)@.phase,
        final (body)@.source == old(body)@.source,
{
    let ghost blocks0 = old(body)@.blocks;
    let n = body.basic_blocks.len();
    // Count the edges into each block; a count saturates at usize::MAX,
    // which only ever prevents a merge.
    let mut preds: Vec<usize> = Vec::new();
    let mut i: usize = 0;
    while i < n
        invariant
            i <= n,
            preds@.len() == i,
            forall|x: int| 0 <= x < i ==> #[trigger] preds@[x] == 0,
        decreases n - i,
    {
        preds.push(0);
        i = i + 1;
    }
    let mut b: usize = 0;
    while b < n
        invariant
            body_wf(body@),
            blocks0 == body@.blocks,
            n == blocks0.len(),
            n == body.basic_blocks@.len(),
            preds@.len() == n,
            b <= n,
            forall|t: int| 0 <= t < n ==> #[trigger] preds@[t] == preds_below(
                blocks0,
                t as usize,
                b as int,
            ) || (preds@[t] == usize::MAX && preds_below(blocks0, t as usize, b as int)
                >= usize::MAX),
        decreases n - b,
    {
        let succs = term_succs_vec(&body.basic_blocks[b].terminator);
        let ghost svv = succs@;
        proof {
            assert(body@.blocks[b as int] == body.basic_blocks@[b as int]@);
            assert(svv == blocks0[b as int].terminator.succs());
        }
        let m = succs.len();
        let mut e: usize = 0;
        proof {
            assert(count_in(svv.take(0), 0usize) == 0);
        }
        while e < m
            invariant
                body_wf(body@),
                blocks0 == body@.blocks,
                n == blocks0.len(),
                n == body.basic_blocks@.len(),
                b < n,
                m == svv.len(),
                succs@ == svv,
                svv == blocks0[b as int].terminator.succs(),
                e <= m,
                preds@.len() == n,
                forall|t: int| 0 <= t < n ==> #[trigger] preds@[t] as nat == (preds_below(
                    blocks0,
                    t as usize,
                    b as int,
                ) + count_in(svv.take(e as int), t as usize)) || (preds@[t] == usize::MAX
                    && preds_below(blocks0, t as usize, b as int) + count_in(
                    svv.take(e as int),
                    t as usize,
                ) >= usize::MAX),
            decreases m - e,
        {
            let s = succs[e];
            proof {
                assert(term_ok(body@.blocks[b as int].terminator, body@.blocks));
                assert(body@.blocks[b as int].terminator.succs()[e as int] < n);
                assert(svv.take(e + 1).drop_last() =~= svv.take(e as int));
                assert(svv.take(e + 1).last() == svv[e as int]);
            }
            let c = preds[s];
            if c < usize::MAX {
                preds[s] = c + 1;
            }
            e = e + 1;
        }
        proof {
            assert(svv.take(m as int) =~= svv);
            assert forall|t: int| 0 <= t < n implies #[trigger] preds@[t] == preds_below(
                blocks0,
                t as usize,
                b + 1,
            ) || (preds@[t] == usize::MAX && preds_below(blocks0, t as usize, b + 1)
                >= usize::MAX) by {
                assert(preds_below(blocks0, t as usize, b + 1) == preds_below(
                    blocks0,
                    t as usize,
                    b as int,
                ) + count_in(svv, t as usize));
            }
        }
        b = b + 1;
    }
    // Merge goto chains.
    let mut merged: Vec<bool> = Vec::new();
    let mut i: usize = 0;
    while i < n
        invariant
            i <= n,
            merged@.len() == i,
            forall|x: int| 0 <= x < i ==> !(#[trigger] merged@[x]),
        decreases n - i,
    {
        merged.push(false);
        i = i + 1;
    }
    let mut b: usize = 0;
    proof {
        assert(merged@ =~= Seq::new(n as nat, |x: int| false));
    }
    while b < n
        invariant
            body_wf(body@),
            n == blocks0.len(),
            n == body.basic_blocks@.len(),
            preds@.len() == n,
            merged@.len() == n,
            b <= n,
            forall|t: int| 0 <= t < n ==> #[trigger] preds@[t] == preds_of(blocks0, t as usize)
                || (preds@[t] == usize::MAX && preds_of(blocks0, t as usize) >= usize::MAX),
            merge_all(blocks0, blocks0, Seq::new(n as nat, |x: int| false), 0, n as int)
                == merge_all(blocks0, body@.blocks, merged@, b as int, n as int),
            body@.locals == old(body)@.locals,
            body@.arg_count == old(body)@.arg_count,
            body@.debug == old(body)@.debug,
            body@.phase == old(body)@.phase,
            body@.source == old(body)@.source,
        decreases n - b,
    {
        let ghost bs_entry = body@.blocks;
        let ghost merged_entry = merged@;
        loop
            invariant_except_break
                body_wf(body@),
                n == blocks0.len(),
                n == body.basic_blocks@.len(),
                preds@.len() == n,
                merged@.len() == n,
                b < n,
                forall|t: int| 0 <= t < n ==> #[trigger] preds@[t] == preds_of(
                    blocks0,
                    t as usize,
                ) || (preds@[t] == usize::MAX && preds_of(blocks0, t as usize) >= usize::MAX),
                merge_chain(blocks0, bs_entry, merged_entry, b as int, count_false(merged_entry)
                    + 1) == merge_chain(
                    blocks0,
                    body@.blocks,
                    merged@,
                    b as int,
                    count_false(merged@) + 1,
                ),
                body@.locals == old(body)@.locals,
                body@.arg_count == old(body)@.arg_count,
                body@.debug == old(body)@.debug,
                body@.phase == old(body)@.phase,
                body@.source == old(body)@.source,
            ensures
                body_wf(body@),
                n == body.basic_blocks@.len(),
                preds@.len() == n,
                merged@.len() == n,
                b < n,
                merge_at(blocks0, bs_entry, merged_entry, b as int) == (body@.blocks, merged@),
                body@.locals == old(body)@.locals,
                body@.arg_count == old(body)@.arg_count,
                body@.debug == old(body)@.debug,
                body@.phase == old(body)@.phase,
                body@.source == old(body)@.source,
            decreases count_false(merged@),
        {
            proof {
                assert(body@.blocks[b as int] == body.basic_blocks@[b as int]@);
            }
            let target: usize = match &body.basic_blocks[b].terminator {
                Terminator::Goto { target } => *target,
                _ => {
                    proof {
                        assert(merge_ok(blocks0, body@.blocks, merged@, b as int) is None);
                        assert(merge_at(blocks0, bs_entry, merged_entry, b as int) == (
                        body@.blocks,
                        merged@,
                        ));
                    }
                    break ;
                },
            };
            proof {
                assert(term_ok(body@.blocks[b as int].terminator, body@.blocks));
                assert(body@.blocks[b as int].terminator.succs()[0] == target);
            }
            if target == b || target == 0 || merged[target] || preds[target] != 1 {
                proof {
                    assert(merge_ok(blocks0, body@.blocks, merged@, b as int) is None);
                    assert(merge_at(blocks0, bs_entry, merged_entry, b as int) == (
                    body@.blocks,
                    merged@,
                    ));
                }
                break ;
            }
            let ghost pre = body@.blocks;
            let ghost merged_pre = merged@;
            proof {
                assert(merge_ok(blocks0, pre, merged_pre, b as int) == Some(target));
                lemma_count_false_update(merged@, target as int);
            }
            merged[target] = true;
            // Gut the target block, leaving an unreachable stub with the
            // same cleanup flag.
            let cl_t = body.basic_blocks[target].is_cleanup;
            let mut stub_t = BasicBlock {
                statements: Vec::new(),
                terminator: Terminator::Unreachable,
                is_cleanup: cl_t,
            };
            core::mem::swap(&mut body.basic_blocks[target], &mut stub_t);
            let taken = stub_t;
            proof {
                assert(taken@ == pre[target as int]);
                assert forall|m2: int| 0 <= m2 < n implies #[trigger] body@.blocks[m2]
                    == pre.update(
                    target as int,
                    BasicBlockV {
                        statements: Seq::<crate::ir::StatementV>::empty(),
                        terminator: TerminatorV::Unreachable,
                        is_cleanup: pre[target as int].is_cleanup,
                    },
                )[m2] by {
                    if m2 == target {
                        assert(body@.blocks[m2] =~= BasicBlockV {
                            statements: Seq::<crate::ir::StatementV>::empty(),
                            terminator: TerminatorV::Unreachable,
                            is_cleanup: pre[target as int].is_cleanup,
                        });
                    }
                }
                assert(body@.blocks =~= pre.update(
                    target as int,
                    BasicBlockV {
                        statements: Seq::<crate::ir::StatementV>::empty(),
                        terminator: TerminatorV::Unreachable,
                        is_cleanup: pre[target as int].is_cleanup,
                    },
                ));
                assert forall|m2: int| 0 <= m2 < n implies term_ok(
                    #[trigger] body@.blocks[m2].terminator,
                    body@.blocks,
                ) by {
                    if m2 != target {
                        lemma_term_ok_same_shape(pre[m2].terminator, pre, body@.blocks);
                    }
                }
            }
            let ghost pre2 = body@.blocks;
            // Take this block out, absorb the target's contents into it, and
            // put it back.
            let cl_b = body.basic_blocks[b].is_cleanup;
            let mut workb = BasicBlock {
                statements: Vec::new(),
                terminator: Terminator::Unreachable,
                is_cleanup: cl_b,
            };
            core::mem::swap(&mut body.basic_blocks[b], &mut workb);
            proof {
                assert(workb@ == pre2[b as int]);
                assert forall|m2: int| 0 <= m2 < n implies term_ok(
                    #[trigger] body@.blocks[m2].terminator,
                    body@.blocks,
                ) by {
                    assert(body@.blocks[m2].is_cleanup == pre2[m2].is_cleanup);
                    if m2 != b {
                        assert(body@.blocks[m2].terminator == pre2[m2].terminator);
                        lemma_term_ok_same_shape(pre2[m2].terminator, pre2, body@.blocks);
                    }
                }
            }
            let mut stolen_statements = taken.statements;
            let stolen_terminator = taken.terminator;
            let ghost stolen_v = stolen_statements@.map_values(|s: Statement| s@);
            let ghost workb0 = workb@;
            proof {
                assert(stolen_v == pre[target as int].statements);
                assert(stolen_terminator@ == pre[target as int].terminator);
                assert(stolen_statements@.map_values(|s: Statement| s@) =~= stolen_v.skip(0));
                assert(workb@.statements =~= workb0.statements + stolen_v.take(0));
            }
            let sn = stolen_statements.len();
            let mut k: usize = 0;
            while k < sn
                invariant
                    k <= sn,
                    sn == stolen_v.len(),
                    stolen_statements@.map_values(|s: Statement| s@) == stolen_v.skip(k as int),
                    workb@.statements == workb0.statements + stolen_v.take(k as int),
                    workb@.terminator == workb0.terminator,
                    workb@.is_cleanup == workb0.is_cleanup,
                decreases sn - k,
            {
                let ghost sbefore = stolen_statements@;
                proof {
                    assert(sbefore.map_values(|s: Statement| s@).len() == sbefore.len());
                }
                let st = stolen_statements.remove(0);
                proof {
                    assert(sbefore.map_values(|s: Statement| s@)[0] == st@);
                    assert(st@ == stolen_v[k as int]);
                    assert forall|x: int| 0 <= x < stolen_statements@.len() implies (
                    #[trigger] stolen_statements@[x])@ == stolen_v.skip(k + 1)[x] by {
                        assert(stolen_statements@[x] == sbefore[x + 1]);
                        assert(sbefore.map_values(|s: Statement| s@)[x + 1] == stolen_v.skip(
                            k as int,
                        )[x + 1]);
                    }
                    assert(stolen_statements@.map_values(|s: Statement| s@) =~= stolen_v.skip(
                        k + 1,
                    ));
                }
                let ghost wstmts = workb.statements@;
                workb.statements.push(st);
                proof {
                    assert(workb.statements@ == wstmts.push(st));
                    assert(workb@.statements =~= wstmts.map_values(|s: Statement| s@).push(st@));
                    assert(stolen_v.take(k + 1) =~= stolen_v.take(k as int).push(
                        stolen_v[k as int],
                    ));
                    assert(workb@.statements =~= workb0.statements + stolen_v.take(k + 1));
                }
                k = k + 1;
            }
            workb.terminator = stolen_terminator;
            proof {
                assert(stolen_v.take(sn as int) =~= stolen_v);
            }
            core::mem::swap(&mut body.basic_blocks[b], &mut workb);
            proof {
                assert(body@.blocks[b as int] == BasicBlockV {
                    statements: pre2[b as int].statements + stolen_v,
                    terminator: pre[target as int].terminator,
                    is_cleanup: pre2[b as int].is_cleanup,
                });
                assert forall|m2: int| 0 <= m2 < n implies term_ok(
                    #[trigger] body@.blocks[m2].terminator,
                    body@.blocks,
                ) by {
                    assert(body@.blocks[m2].is_cleanup == pre2[m2].is_cleanup);
                    if m2 == b {
                        assert(term_ok(pre[target as int].terminator, pre));
                        lemma_term_ok_same_shape(pre[target as int].terminator, pre, body@.blocks);
                    } else {
                        assert(body@.blocks[m2].terminator == pre2[m2].terminator);
                        lemma_term_ok_same_shape(pre2[m2].terminator, pre2, body@.blocks);
                    }
                }
                // The iteration performed exactly one spec merge step.
                assert(body@.blocks =~= merge_one(pre, b as int, target)) by {
                    assert forall|m2: int| 0 <= m2 < n implies body@.blocks[m2] == merge_one(
                        pre,
                        b as int,
                        target,
                    )[m2] by {
                        if m2 == b {
                        } else if m2 == target {
                            assert(body@.blocks[m2] == pre2[m2]);
                        } else {
                            assert(body@.blocks[m2] == pre2[m2]);
                            assert(pre2[m2] == pre[m2]);
                        }
                    }
                }
                assert(merged@ == merged_pre.update(target as int, true));
                assert(count_false(merged@) + 1 == count_false(merged_pre));
                assert(merge_chain(blocks0, pre, merged_pre, b as int, count_false(merged_pre) + 1)
                    == merge_chain(
                    blocks0,
                    body@.blocks,
                    merged@,
                    b as int,
                    count_false(merged@) + 1,
                ));
            }
        }
        proof {
            assert(merge_all(blocks0, bs_entry, merged_entry, b as int, n as int) == merge_all(
                blocks0,
                body@.blocks,
                merged@,
                b + 1,
                n as int,
            ));
        }
        b = b + 1;
    }
    proof {
        assert(merge_all(blocks0, blocks0, Seq::new(n as nat, |x: int| false), 0, n as int) == (
        body@.blocks,
        merged@,
        ));
    }
    let ghost mid = body@;
    remove_dead_blocks(body);
    proof {
        lemma_compact_len(mid.blocks, 0);
        lemma_nrb_mono(mid.blocks, 0, mid.blocks.len() as int);
        lemma_merge_all_len(
            blocks0,
            blocks0,
            Seq::new(n as nat, |x: int| false),
            0,
            n as int,
        );
        assert(mid =~= BodyV {
            blocks: merge_all(
                blocks0,
                blocks0,
                Seq::new(n as nat, |x: int| false),
                0,
                n as int,
            ).0,
            locals: old(body)@.locals,
            arg_count: old(body)@.arg_count,
            debug: old(body)@.debug,
            phase: old(body)@.phase,
            source: old(body)@.source,
        });
        assert(body@ == simplify_cfg_spec(old(body)@));
    }
}

} // verus!
