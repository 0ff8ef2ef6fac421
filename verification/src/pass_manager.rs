//! The pass manager: runs an ordered list of passes over a body, consulting
//! the override table and each pass's own enablement, dumping around enabled
//! passes, enforcing strictly monotonic phase transitions, and validating the
//! body's structural invariants.

use vstd::prelude::*;

use crate::abort_unwinding_calls::{abort_rewrite_spec, is_function, AbortUnwindingCalls};
use crate::check_packed_ref::{lint_upto, CheckPackedRef};
use crate::const_debuginfo::{const_debuginfo_spec, ConstDebugInfo};
use crate::const_goto::{const_goto_opt, const_goto_spec, ConstGoto};
use crate::context::{Ctx, DumpRecord, PassName, Session};
use crate::ir::{body_wf, phase_index, phase_order, term_ok, Body, Phase};
use crate::locals::simplify_locals_spec;
use crate::multiple_return_terminators::{fold_returns_spec, MultipleReturnTerminators};
use crate::nrvo::{nrvo_candidate, nrvo_spec, RenameReturnPlace};
use crate::remove_noop_landing_pads::{is_resume_block, RemoveNoopLandingPads};
use crate::remove_storage_markers::{strip_markers_spec, RemoveStorageMarkers};
use crate::remove_unneeded_drops::{drop_removable, remove_drops_spec, RemoveUnneededDrops};
use crate::remove_zsts::{remove_zsts_spec, RemoveZsts};
use crate::reveal_all::{reveal_all_spec, RevealAll};
use crate::ir::DefKind;
use crate::simplify::{remove_dead_blocks_spec, simplify_cfg_spec, term_succs_vec};
use crate::simplify_branches::{simplify_branches_spec, SimplifyConstCondition};
use crate::unreachable_prop::UnreachablePropagation;

verus! {

/// Just like a pass, except it cannot mutate the body: it may only consult
/// the context's queries and address its sinks.
pub trait MirLint {
    /// Whether the lint runs at the given session options.
    spec fn lint_enabled_spec(&self, sess: Session) -> bool;

    /// Executable counterpart of the enablement predicate.
    fn lint_is_enabled(&self, sess: &Session) -> (r: bool)
        ensures
            r == self.lint_enabled_spec(*sess),
    ;

    /// Examines the body; only the context's sinks may change.
    fn run_lint(&self, ctx: &mut Ctx, body: &Body)
        ensures
            old(ctx).same_queries(*final (ctx)),
            final (ctx).fuel == old(ctx).fuel,
    ;
}

impl MirLint for CheckPackedRef {
    open spec fn lint_enabled_spec(&self, sess: Session) -> bool {
        CheckPackedRef::enabled_spec(sess)
    }

    fn lint_is_enabled(&self, sess: &Session) -> (r: bool) {
        self.is_enabled(sess)
    }

    fn run_lint(&self, ctx: &mut Ctx, body: &Body) {
        CheckPackedRef::run_lint(self, ctx, body)
    }
}

/// An adapter that runs a lint where a pass is expected: the body passes
/// through untouched and no dump is taken around it.
pub struct Lint<T>(pub T);

/// A pass held behind a minimum optimization level.
pub struct WithMinOptLevel<T>(pub u32, pub T);

impl<T> WithMinOptLevel<T> {
    /// Whether the session's optimization level reaches the required level.
    pub open spec fn level_enabled_spec(&self, sess: Session) -> bool {
        sess.mir_opt_level >= self.0
    }

    /// Executable counterpart of [`WithMinOptLevel::level_enabled_spec`].
    pub fn level_enabled(&self, sess: &Session) -> (r: bool)
        ensures
            r == self.level_enabled_spec(*sess),
    {
        sess.mir_opt_level >= self.0 as u64
    }
}

/// One entry of the static pass table: an identifier, an enablement
/// predicate and a run function, each given by the variant.
pub enum PipelinePass {
    AbortUnwindingCalls(AbortUnwindingCalls),
    CheckPackedRef(Lint<CheckPackedRef>),
    ConstDebugInfo(ConstDebugInfo),
    ConstGoto(ConstGoto),
    MultipleReturnTerminators(MultipleReturnTerminators),
    RenameReturnPlace(RenameReturnPlace),
    RemoveNoopLandingPads(RemoveNoopLandingPads),
    RemoveStorageMarkers(RemoveStorageMarkers),
    RemoveUnneededDrops(RemoveUnneededDrops),
    RemoveZsts(RemoveZsts),
    RevealAll(RevealAll),
    SimplifyConstCondition(WithMinOptLevel<SimplifyConstCondition>),
    UnreachablePropagation(UnreachablePropagation),
    /// A marker that only advances the body's phase.
    PhaseMarker(Phase),
}

impl PipelinePass {
    /// The pass's identity, for the override table and the dump sink.
    pub open spec fn name_spec(&self) -> PassName {
        match self {
            PipelinePass::AbortUnwindingCalls(_) => PassName::AbortUnwindingCalls,
            PipelinePass::CheckPackedRef(_) => PassName::CheckPackedRef,
            PipelinePass::ConstDebugInfo(_) => PassName::ConstDebugInfo,
            PipelinePass::ConstGoto(_) => PassName::ConstGoto,
            PipelinePass::MultipleReturnTerminators(_) => PassName::MultipleReturnTerminators,
            PipelinePass::RenameReturnPlace(_) => PassName::RenameReturnPlace,
            PipelinePass::RemoveNoopLandingPads(_) => PassName::RemoveNoopLandingPads,
            PipelinePass::RemoveStorageMarkers(_) => PassName::RemoveStorageMarkers,
            PipelinePass::RemoveUnneededDrops(_) => PassName::RemoveUnneededDrops,
            PipelinePass::RemoveZsts(_) => PassName::RemoveZsts,
            PipelinePass::RevealAll(_) => PassName::RevealAll,
            PipelinePass::SimplifyConstCondition(_) => PassName::SimplifyConstCondition,
            PipelinePass::UnreachablePropagation(_) => PassName::UnreachablePropagation,
            PipelinePass::PhaseMarker(_) => PassName::PhaseMarker,
        }
    }

    /// Executable counterpart of [`PipelinePass::name_spec`].
    pub fn name(&self) -> (r: PassName)
        ensures
            r == self.name_spec(),
    {
        match self {
            PipelinePass::AbortUnwindingCalls(_) => PassName::AbortUnwindingCalls,
            PipelinePass::CheckPackedRef(_) => PassName::CheckPackedRef,
            PipelinePass::ConstDebugInfo(_) => PassName::ConstDebugInfo,
            PipelinePass::ConstGoto(_) => PassName::ConstGoto,
            PipelinePass::MultipleReturnTerminators(_) => PassName::MultipleReturnTerminators,
            PipelinePass::RenameReturnPlace(_) => PassName::RenameReturnPlace,
            PipelinePass::RemoveNoopLandingPads(_) => PassName::RemoveNoopLandingPads,
            PipelinePass::RemoveStorageMarkers(_) => PassName::RemoveStorageMarkers,
            PipelinePass::RemoveUnneededDrops(_) => PassName::RemoveUnneededDrops,
            PipelinePass::RemoveZsts(_) => PassName::RemoveZsts,
            PipelinePass::RevealAll(_) => PassName::RevealAll,
            PipelinePass::SimplifyConstCondition(_) => PassName::SimplifyConstCondition,
            PipelinePass::UnreachablePropagation(_) => PassName::UnreachablePropagation,
            PipelinePass::PhaseMarker(_) => PassName::PhaseMarker,
        }
    }

    /// The pass's own enablement at the given session options.
    pub open spec fn enabled_spec(&self, sess: Session) -> bool {
        match self {
            PipelinePass::AbortUnwindingCalls(_) => AbortUnwindingCalls::enabled_spec(sess),
            PipelinePass::CheckPackedRef(l) => l.0.lint_enabled_spec(sess),
            PipelinePass::ConstDebugInfo(_) => ConstDebugInfo::enabled_spec(sess),
            PipelinePass::ConstGoto(_) => ConstGoto::enabled_spec(sess),
            PipelinePass::MultipleReturnTerminators(_) => MultipleReturnTerminators::enabled_spec(
                sess,
            ),
            PipelinePass::RenameReturnPlace(_) => RenameReturnPlace::enabled_spec(sess),
            PipelinePass::RemoveNoopLandingPads(_) => RemoveNoopLandingPads::enabled_spec(sess),
            PipelinePass::RemoveStorageMarkers(_) => RemoveStorageMarkers::enabled_spec(sess),
            PipelinePass::RemoveUnneededDrops(_) => RemoveUnneededDrops::enabled_spec(sess),
            PipelinePass::RemoveZsts(_) => RemoveZsts::enabled_spec(sess),
            PipelinePass::RevealAll(_) => RevealAll::enabled_spec(sess),
            PipelinePass::SimplifyConstCondition(w) => w.level_enabled_spec(sess)
                && SimplifyConstCondition::enabled_spec(sess),
            PipelinePass::UnreachablePropagation(_) => UnreachablePropagation::enabled_spec(sess),
            PipelinePass::PhaseMarker(_) => true,
        }
    }

    /// Executable counterpart of [`PipelinePass::enabled_spec`].
    pub fn is_enabled(&self, sess: &Session) -> (r: bool)
        ensures
            r == self.enabled_spec(*sess),
    {
        match self {
            PipelinePass::AbortUnwindingCalls(p) => p.is_enabled(sess),
            PipelinePass::CheckPackedRef(l) => l.0.lint_is_enabled(sess),
            PipelinePass::ConstDebugInfo(p) => p.is_enabled(sess),
            PipelinePass::ConstGoto(p) => p.is_enabled(sess),
            PipelinePass::MultipleReturnTerminators(p) => p.is_enabled(sess),
            PipelinePass::RenameReturnPlace(p) => p.is_enabled(sess),
            PipelinePass::RemoveNoopLandingPads(p) => p.is_enabled(sess),
            PipelinePass::RemoveStorageMarkers(p) => p.is_enabled(sess),
            PipelinePass::RemoveUnneededDrops(p) => p.is_enabled(sess),
            PipelinePass::RemoveZsts(p) => p.is_enabled(sess),
            PipelinePass::RevealAll(p) => p.is_enabled(sess),
            PipelinePass::SimplifyConstCondition(w) => {
                let a = w.level_enabled(sess);
                a && w.1.is_enabled(sess)
            },
            PipelinePass::UnreachablePropagation(p) => p.is_enabled(sess),
            PipelinePass::PhaseMarker(_) => true,
        }
    }

    /// Whether dumps are taken around the pass; lints are never dumped.
    pub open spec fn dump_enabled_spec(&self) -> bool {
        match self {
            PipelinePass::CheckPackedRef(_) => false,
            _ => true,
        }
    }

    /// Executable counterpart of [`PipelinePass::dump_enabled_spec`].
    pub fn is_mir_dump_enabled(&self) -> (r: bool)
        ensures
            r == self.dump_enabled_spec(),
    {
        match self {
            PipelinePass::CheckPackedRef(_) => false,
            _ => true,
        }
    }

    /// The phase the pass commits to on success, if it declares one.
    pub open spec fn phase_change_spec(&self) -> Option<Phase> {
        match self {
            PipelinePass::PhaseMarker(p) => Some(*p),
            _ => None,
        }
    }

    /// Executable counterpart of [`PipelinePass::phase_change_spec`].
    pub fn phase_change(&self) -> (r: Option<Phase>)
        ensures
            r == self.phase_change_spec(),
    {
        match self {
            PipelinePass::PhaseMarker(p) => Some(*p),
            _ => None,
        }
    }

    /// Runs the pass: the body stays structurally well formed, the
    /// context's query tables are never touched, and the result is the
    /// variant's own pass applied to the body.
    pub fn run_pass(&self, ctx: &mut Ctx, body: &mut Body)
        requires
            body_wf(old(body)@),
        ensures
            body_wf(final (body)@),
            old(ctx).same_queries(*final (ctx)),
            final (ctx).dumps@ == old(ctx).dumps@,
            final (body)@.phase == old(body)@.phase,
            (match self {
                PipelinePass::AbortUnwindingCalls(_) => {
                    &&& (!is_function(old(body)@.source.kind) ==> final (body)@ == old(body)@)
                    &&& (is_function(old(body)@.source.kind) ==> final (body)@
                        == remove_dead_blocks_spec(abort_rewrite_spec(*old(ctx), old(body)@)))
                },
                PipelinePass::CheckPackedRef(_) => {
                    &&& final (body)@ == old(body)@
                    &&& (final (ctx).diagnostics@, final (ctx).reported_derives@) == lint_upto(
                        *old(ctx),
                        old(body)@,
                        old(body)@.blocks.len() as int,
                        0,
                        (old(ctx).diagnostics@, old(ctx).reported_derives@),
                    )
                },
                PipelinePass::ConstDebugInfo(_) => final (body)@ == const_debuginfo_spec(
                    old(body)@,
                ),
                PipelinePass::ConstGoto(_) => {
                    &&& ((forall|i: int| #[trigger] const_goto_opt(old(body)@, i) is None)
                        ==> final (body)@ == old(body)@)
                    &&& ((exists|i: int| (#[trigger] const_goto_opt(old(body)@, i)) is Some)
                        ==> final (body)@ == simplify_locals_spec(
                        simplify_cfg_spec(const_goto_spec(old(body)@)),
                    ))
                },
                PipelinePass::MultipleReturnTerminators(_) => {
                    &&& (old(ctx).fuel_unlimited() ==> final (body)@ == remove_dead_blocks_spec(
                        fold_returns_spec(old(body)@),
                    ))
                    &&& (old(ctx).fuel == Some(0u64) ==> final (body)@ == remove_dead_blocks_spec(
                        old(body)@,
                    ))
                },
                PipelinePass::RenameReturnPlace(_) => {
                    &&& (nrvo_candidate(old(body)@) is None ==> final (body)@ == old(body)@)
                    &&& ((nrvo_candidate(old(body)@) is Some && old(ctx).fuel != Some(0u64))
                        ==> final (body)@ == nrvo_spec(
                        old(body)@,
                        nrvo_candidate(old(body)@)->0,
                    ))
                    &&& (old(ctx).fuel == Some(0u64) ==> final (body)@ == old(body)@)
                },
                PipelinePass::RemoveNoopLandingPads(_) => {
                    &&& exists|r: int|
                        0 <= r < final (body)@.blocks.len() && is_resume_block(
                            #[trigger] final (body)@.blocks[r],
                        )
                    &&& exists|order: Seq<usize>|
                        #![all_triggers]
                        crate::traversal::postorder_valid(
                            crate::remove_noop_landing_pads::with_resume(old(body)@).0.blocks,
                            order,
                        ) && crate::traversal::postorder_ordered(
                            crate::remove_noop_landing_pads::with_resume(old(body)@).0.blocks,
                            order,
                        ) && final (body)@ == crate::remove_noop_landing_pads::noop_pads_spec(
                            old(body)@,
                            order,
                        )
                },
                PipelinePass::RemoveStorageMarkers(_) => final (body)@ == (
                if old(ctx).sess.emit_lifetime_markers {
                    old(body)@
                } else {
                    strip_markers_spec(old(body)@)
                }),
                PipelinePass::RemoveUnneededDrops(_) => {
                    &&& (old(ctx).fuel_unlimited() ==> final (body)@ == (if exists|m: int|
                        0 <= m < old(body)@.blocks.len() && drop_removable(
                            *old(ctx),
                            old(body)@.locals,
                            (#[trigger] old(body)@.blocks[m]).terminator,
                        ) {
                        simplify_cfg_spec(remove_drops_spec(*old(ctx), old(body)@))
                    } else {
                        old(body)@
                    }))
                    &&& (old(ctx).fuel == Some(0u64) ==> final (body)@ == old(body)@)
                },
                PipelinePass::RemoveZsts(_) => {
                    &&& (old(body)@.source.kind == DefKind::Generator ==> final (body)@ == old(
                        body,
                    )@)
                    &&& ((old(ctx).fuel_unlimited() && old(body)@.source.kind
                        != DefKind::Generator) ==> final (body)@ == remove_zsts_spec(
                        *old(ctx),
                        old(body)@,
                    ))
                    &&& (old(ctx).fuel == Some(0u64) ==> final (body)@ == old(body)@)
                },
                PipelinePass::RevealAll(_) => {
                    &&& (old(body)@.source.kind == DefKind::Generator ==> final (body)@ == old(
                        body,
                    )@)
                    &&& (old(body)@.source.kind != DefKind::Generator ==> final (body)@
                        == reveal_all_spec(*old(ctx), old(body)@))
                },
                PipelinePass::SimplifyConstCondition(_) => final (body)@
                    == simplify_branches_spec(old(body)@),
                PipelinePass::UnreachablePropagation(_) => old(ctx).fuel_unlimited()
                    ==> exists|order: Seq<usize>|
                    #![all_triggers]
                    crate::traversal::postorder_valid(old(body)@.blocks, order)
                        && crate::traversal::postorder_ordered(old(body)@.blocks, order)
                        && final (body)@ == crate::unreachable_prop::unreachable_prop_spec(
                        old(body)@,
                        order,
                    ),
                PipelinePass::PhaseMarker(_) => final (body)@ == old(body)@,
            }),
    {
        match self {
            PipelinePass::AbortUnwindingCalls(p) => p.run_pass(ctx, body),
            PipelinePass::CheckPackedRef(l) => l.0.run_lint(ctx, body),
            PipelinePass::ConstDebugInfo(p) => p.run_pass(ctx, body),
            PipelinePass::ConstGoto(p) => p.run_pass(ctx, body),
            PipelinePass::MultipleReturnTerminators(p) => p.run_pass(ctx, body),
            PipelinePass::RenameReturnPlace(p) => p.run_pass(ctx, body),
            PipelinePass::RemoveNoopLandingPads(p) => p.run_pass(ctx, body),
            PipelinePass::RemoveStorageMarkers(p) => p.run_pass(ctx, body),
            PipelinePass::RemoveUnneededDrops(p) => p.run_pass(ctx, body),
            PipelinePass::RemoveZsts(p) => p.run_pass(ctx, body),
            PipelinePass::RevealAll(p) => p.run_pass(ctx, body),
            PipelinePass::SimplifyConstCondition(w) => w.1.run_pass(ctx, body),
            PipelinePass::UnreachablePropagation(p) => p.run_pass(ctx, body),
            PipelinePass::PhaseMarker(_) => {},
        }
    }
}


/// What the override table decides for a pass: the polarity of the last
/// entry naming it, if any.
pub open spec fn forced_spec(ov: Seq<(PassName, bool)>, name: PassName) -> Option<bool>
    decreases ov.len(),
{
    if ov.len() == 0 {
        None
    } else if ov.last().0 == name {
        Some(ov.last().1)
    } else {
        forced_spec(ov.drop_last(), name)
    }
}

/// Whether the manager runs a pass: an override entry wins over the pass's
/// own enablement.
pub open spec fn pass_enabled_in(ctx0: Ctx, p: PipelinePass) -> bool {
    match forced_spec(ctx0.overridden_passes@, p.name_spec()) {
        Some(polarity) => polarity,
        None => p.enabled_spec(ctx0.sess),
    }
}

/// What the manager's bookkeeping looks like after the first `i` passes:
/// the dump records taken so far, the dump counter, and either the current
/// phase or the first offending phase transition (current phase, declared
/// phase). A disabled pass contributes nothing; an enabled dumpable pass
/// contributes its before/after pair even when its phase declaration then
/// stops the run.
pub open spec fn manager_fold(ctx0: Ctx, ps: Seq<PipelinePass>, i: int, start: Phase) -> (
    Seq<DumpRecord>,
    nat,
    Result<Phase, (Phase, Phase)>,
)
    decreases i,
{
    if i <= 0 {
        (Seq::<DumpRecord>::empty(), 0nat, Ok(start))
    } else {
        let prev = manager_fold(ctx0, ps, i - 1, start);
        match prev.2 {
            Err(e) => prev,
            Ok(ph) => {
                let p = ps[i - 1];
                if !pass_enabled_in(ctx0, p) {
                    prev
                } else {
                    let ds = (if p.dump_enabled_spec() {
                        prev.0.push(
                            DumpRecord {
                                phase: start,
                                pass: p.name_spec(),
                                cnt: prev.1 as usize,
                                is_after: false,
                            },
                        ).push(
                            DumpRecord {
                                phase: start,
                                pass: p.name_spec(),
                                cnt: prev.1 as usize,
                                is_after: true,
                            },
                        )
                    } else {
                        prev.0
                    });
                    let cnt = (if p.dump_enabled_spec() {
                        prev.1 + 1
                    } else {
                        prev.1
                    });
                    match p.phase_change_spec() {
                        Some(np) => {
                            if phase_order(np) <= phase_order(ph) {
                                (ds, cnt, Err((ph, np)))
                            } else {
                                (ds, cnt, Ok(np))
                            }
                        },
                        None => (ds, cnt, Ok(ph)),
                    }
                }
            },
        }
    }
}

/// Once the fold stops on a fault, later passes change nothing.
pub proof fn lemma_manager_fold_err_stable(ctx0: Ctx, ps: Seq<PipelinePass>, i: int, j: int, start: Phase)
    requires
        0 <= i <= j,
        manager_fold(ctx0, ps, i, start).2 is Err,
    ensures
        manager_fold(ctx0, ps, j, start) == manager_fold(ctx0, ps, i, start),
    decreases j - i,
{
    if i < j {
        lemma_manager_fold_err_stable(ctx0, ps, i, j - 1, start);
    }
}

/// The one fatal outcome the manager can signal: a pass tried to move the
/// phase backward or sideways. It marks a bug in the pass list, not a
/// property of the input program.
#[derive(Clone, Copy, PartialEq, Eq, Structural, Debug)]
pub enum FatalError {
    PhaseTransition { from: Phase, to: Phase },
}

/// Structurally validates the body: every terminator target names an
/// existing block, every unwind edge leads to a cleanup block, the entry
/// block exists and the return slot and arguments are declared.
pub fn validate_body(body: &Body) -> (r: bool)
    ensures
        r == body_wf(body@),
{
    let n = body.basic_blocks.len();
    if n == 0 {
        return false;
    }
    if body.local_decls.len() == 0 || body.local_decls.len() - 1 < body.arg_count {
        return false;
    }
    let mut i: usize = 0;
    while i < n
        invariant
            n == body.basic_blocks@.len(),
            i <= n,
            forall|m: int| 0 <= m < i ==> term_ok(
                (#[trigger] body@.blocks[m]).terminator,
                body@.blocks,
            ),
        decreases n - i,
    {
        proof {
            assert(body@.blocks[i as int] == body.basic_blocks@[i as int]@);
        }
        let succs = term_succs_vec(&body.basic_blocks[i].terminator);
        let m = succs.len();
        let mut e: usize = 0;
        while e < m
            invariant
                n == body.basic_blocks@.len(),
                i < n,
                m == succs@.len(),
                succs@ == body@.blocks[i as int].terminator.succs(),
                e <= m,
                forall|x: int| 0 <= x < e ==> #[trigger] succs@[x] < n,
            decreases m - e,
        {
            if succs[e] >= n {
                proof {
                    assert(!term_ok(body@.blocks[i as int].terminator, body@.blocks));
                }
                return false;
            }
            e = e + 1;
        }
        match body.basic_blocks[i].terminator.get_unwind() {
            Some(Some(u)) => {
                if u >= n || !body.basic_blocks[u].is_cleanup {
                    proof {
                        assert(body@.blocks[u as int] == body.basic_blocks@[u as int]@ || u
                            >= n);
                        assert(!term_ok(body@.blocks[i as int].terminator, body@.blocks));
                    }
                    return false;
                }
                proof {
                    assert(body@.blocks[u as int] == body.basic_blocks@[u as int]@);
                }
            },
            _ => {},
        }
        i = i + 1;
    }
    true
}

/// Hands a dump record to the dump sink.
pub fn dump_mir(ctx: &mut Ctx, body: &Body, phase: Phase, pass: PassName, cnt: usize, is_after: bool)
    ensures
        final (ctx).dumps@ == old(ctx).dumps@.push(DumpRecord { phase, pass, cnt, is_after }),
        old(ctx).same_queries(*final (ctx)),
        final (ctx).fuel == old(ctx).fuel,
        final (ctx).diagnostics@ == old(ctx).diagnostics@,
        final (ctx).reported_derives@ == old(ctx).reported_derives@,
{
    ctx.dumps.push(DumpRecord { phase, pass, cnt, is_after });
}

/// Runs the ordered pass list over the body. Before anything, and after each
/// enabled pass, the body is validated when the session asks for it; a pass
/// forced on or off in the override table is run or skipped regardless of
/// its own enablement; a declared phase transition must strictly advance the
/// phase, else the run stops with the fatal error; the final state is
/// validated when validation is on or the terminal phase was reached.
pub fn run_passes(ctx: &mut Ctx, body: &mut Body, passes: &Vec<PipelinePass>) -> (r: Result<
    (),
    FatalError,
>)
    requires
        body_wf(old(body)@),
    ensures
        body_wf(final (body)@),
        old(ctx).same_queries(*final (ctx)),
        phase_order(final (body)@.phase) >= phase_order(old(body)@.phase),
        ({
            let f = manager_fold(*old(ctx), passes@, passes@.len() as int, old(body)@.phase);
            &&& final (ctx).dumps@ == old(ctx).dumps@ + f.0
            &&& (match f.2 {
                Ok(ph) => r is Ok && final (body)@.phase == ph,
                Err((from, to)) => r == Err::<(), FatalError>(
                    FatalError::PhaseTransition { from, to },
                ) && final (body)@.phase == from,
            })
        }),
        (forall|j: int|
            0 <= j < passes@.len() ==> !pass_enabled_in(*old(ctx), #[trigger] passes@[j]))
            ==> final (body)@ == old(body)@,
{
    let ghost ctx0 = *old(ctx);
    let ghost ps = passes@;
    let start_phase = body.phase;
    let mut cnt: usize = 0;
    let validate = ctx.sess.validate_mir;
    if validate {
        let ok = validate_body(body);
        proof {
            assert(ok);
        }
    }
    let pn = passes.len();
    let mut i: usize = 0;
    while i < pn
        invariant
            ctx0 == *old(ctx),
            ps == passes@,
            pn == ps.len(),
            start_phase == old(body)@.phase,
            i <= pn,
            body_wf(body@),
            old(ctx).same_queries(*ctx),
            validate == ctx.sess.validate_mir,
            phase_order(body@.phase) >= phase_order(old(body)@.phase),
            cnt <= i,
            ({
                let f = manager_fold(ctx0, ps, i as int, start_phase);
                &&& ctx.dumps@ == old(ctx).dumps@ + f.0
                &&& cnt as nat == f.1
                &&& f.2 == Ok::<Phase, (Phase, Phase)>(body@.phase)
            }),
            (forall|j: int| 0 <= j < i ==> !pass_enabled_in(ctx0, #[trigger] ps[j])) ==> body@
                == old(body)@,
        decreases pn - i,
    {
        let ghost fprev = manager_fold(ctx0, ps, i as int, start_phase);
        let pass = &passes[i];
        let name = pass.name();
        // The override table: the last entry naming this pass wins.
        let mut forced: Option<bool> = None;
        let on = ctx.overridden_passes.len();
        let mut o: usize = 0;
        proof {
            assert(forced_spec(ctx.overridden_passes@.take(0), name) is None);
        }
        while o < on
            invariant
                on == ctx.overridden_passes@.len(),
                o <= on,
                forced == forced_spec(ctx.overridden_passes@.take(o as int), name),
            decreases on - o,
        {
            proof {
                assert(ctx.overridden_passes@.take(o + 1).drop_last()
                    =~= ctx.overridden_passes@.take(o as int));
                assert(ctx.overridden_passes@.take(o + 1).last()
                    == ctx.overridden_passes@[o as int]);
            }
            let (nm, polarity) = ctx.overridden_passes[o];
            if nm == name {
                forced = Some(polarity);
            }
            o = o + 1;
        }
        proof {
            assert(ctx.overridden_passes@.take(on as int) =~= ctx.overridden_passes@);
            assert(ctx.overridden_passes@ == ctx0.overridden_passes@);
        }
        let enabled = match forced {
            Some(p) => p,
            None => pass.is_enabled(&ctx.sess),
        };
        proof {
            assert(ctx.sess == ctx0.sess);
            assert(enabled == pass_enabled_in(ctx0, ps[i as int]));
        }
        if enabled {
            let dump_enabled = pass.is_mir_dump_enabled();
            if dump_enabled {
                dump_mir(ctx, body, start_phase, name, cnt, false);
            }
            pass.run_pass(ctx, body);
            if dump_enabled {
                dump_mir(ctx, body, start_phase, name, cnt, true);
                cnt = cnt + 1;
            }
            proof {
                assert(ctx.dumps@ =~= old(ctx).dumps@ + (if ps[i as int].dump_enabled_spec() {
                    fprev.0.push(
                        DumpRecord {
                            phase: start_phase,
                            pass: ps[i as int].name_spec(),
                            cnt: fprev.1 as usize,
                            is_after: false,
                        },
                    ).push(
                        DumpRecord {
                            phase: start_phase,
                            pass: ps[i as int].name_spec(),
                            cnt: fprev.1 as usize,
                            is_after: true,
                        },
                    )
                } else {
                    fprev.0
                }));
            }
            match pass.phase_change() {
                Some(new_phase) => {
                    if phase_index(body.phase) >= phase_index(new_phase) {
                        proof {
                            assert(manager_fold(ctx0, ps, i + 1, start_phase).2 == Err::<
                                Phase,
                                (Phase, Phase),
                            >((body@.phase, new_phase)));
                            lemma_manager_fold_err_stable(
                                ctx0,
                                ps,
                                i + 1,
                                pn as int,
                                start_phase,
                            );
                        }
                        return Err(
                            FatalError::PhaseTransition { from: body.phase, to: new_phase },
                        );
                    }
                    let ghost prev = body@;
                    body.phase = new_phase;
                    proof {
                        assert(body@.blocks == prev.blocks);
                        assert(body@.locals == prev.locals);
                        assert(body_wf(body@));
                    }
                },
                None => {},
            }
            if validate {
                let ok = validate_body(body);
                proof {
                    assert(ok);
                }
            }
            proof {
                assert(manager_fold(ctx0, ps, i + 1, start_phase).2 == Ok::<
                    Phase,
                    (Phase, Phase),
                >(body@.phase));
            }
        } else {
            proof {
                assert(manager_fold(ctx0, ps, i + 1, start_phase) == fprev);
            }
        }
        i = i + 1;
    }
    let terminal = match body.phase {
        Phase::Optimized => true,
        _ => false,
    };
    if validate || terminal {
        let ok = validate_body(body);
        proof {
            assert(ok);
        }
    }
    Ok(())
}

} // verus!
