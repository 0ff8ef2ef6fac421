//! A pass that removes assignments to zero-sized places, except where the
//! place is reached through a union, whose writes a conservative memory model
//! must keep.

use vstd::prelude::*;

use crate::context::{Ctx, Session, TyShape};
use crate::ir::{
    body_wf, lemma_term_ok_same_shape, place_ty, term_ok, BasicBlockV, Body, BodyV, DefKind,
    LocalDecl, Place, PlaceV, Statement, StatementV,
};

verus! {

/// The cheap syntactic pre-filter: shapes that could possibly be zero-sized,
/// sparing the layout query for the rest.
pub open spec fn maybe_zst(shape: TyShape) -> bool {
    match shape {
        TyShape::Adt => true,
        TyShape::Array => true,
        TyShape::Closure => true,
        TyShape::Tuple => true,
        TyShape::Opaque => true,
        TyShape::FnDef => true,
        TyShape::Never => true,
        TyShape::Other => false,
    }
}

/// Whether some step of the place, from its base local to its final
/// projection, passes through a union type. An undeclared base local is
/// treated as a union, which only ever keeps a statement.
pub open spec fn involves_a_union(ctx: Ctx, locals: Seq<LocalDecl>, p: PlaceV) -> bool {
    if p.local >= locals.len() {
        true
    } else {
        ctx.type_info(locals[p.local as int].ty).is_union || exists|k: int|
            0 <= k < p.projection.len() && ctx.type_info(#[trigger] p.projection[k].ty).is_union
    }
}

/// Executable counterpart of [`involves_a_union`].
pub fn involves_a_union_check(ctx: &Ctx, locals: &Vec<LocalDecl>, p: &Place) -> (r: bool)
    ensures
        r == involves_a_union(*ctx, locals@, p@),
{
    if p.local >= locals.len() {
        return true;
    }
    if ctx.type_info_of(locals[p.local].ty).is_union {
        return true;
    }
    let n = p.projection.len();
    let mut k: usize = 0;
    while k < n
        invariant
            n == p.projection@.len(),
            k <= n,
            p.local < locals@.len(),
            !ctx.type_info(locals@[p.local as int].ty).is_union,
            forall|m: int| 0 <= m < k ==> !ctx.type_info(#[trigger] p.projection@[m].ty).is_union,
        decreases n - k,
    {
        if ctx.type_info_of(p.projection[k].ty).is_union {
            return true;
        }
        k = k + 1;
    }
    false
}

/// Whether the pass turns a statement into a no-op: an assignment or
/// reinitialization of a place whose type has a zero-sized layout and which
/// does not pass through a union.
pub open spec fn zst_removable(ctx: Ctx, locals: Seq<LocalDecl>, s: StatementV) -> bool {
    match s {
        StatementV::Assign(p, _) => zst_removable_place(ctx, locals, p),
        StatementV::Deinit(p) => zst_removable_place(ctx, locals, p),
        _ => false,
    }
}

/// The place-level condition of [`zst_removable`].
pub open spec fn zst_removable_place(ctx: Ctx, locals: Seq<LocalDecl>, p: PlaceV) -> bool {
    match place_ty(locals, p) {
        Some(ty) => maybe_zst(ctx.type_info(ty).shape) && ctx.type_info(ty).zst == Some(true)
            && !involves_a_union(ctx, locals, p),
        None => false,
    }
}

/// What the pass produces when the body is not a generator's.
pub open spec fn remove_zsts_spec(ctx: Ctx, b: BodyV) -> BodyV {
    BodyV {
        blocks: b.blocks.map_values(
            |bb: BasicBlockV| BasicBlockV {
                statements: bb.statements.map_values(
                    |s: StatementV| if zst_removable(ctx, b.locals, s) {
                        StatementV::Nop
                    } else {
                        s
                    },
                ),
                terminator: bb.terminator,
                is_cleanup: bb.is_cleanup,
            },
        ),
        locals: b.locals,
        arg_count: b.arg_count,
        debug: b.debug,
        phase: b.phase,
        source: b.source,
    }
}

/// Removes assignments to zero-sized places.
pub struct RemoveZsts;

impl RemoveZsts {
    /// Whether the pass runs at the given session options.
    pub open spec fn enabled_spec(sess: Session) -> bool {
        sess.mir_opt_level > 0
    }

    /// Executable counterpart of [`RemoveZsts::enabled_spec`].
    pub fn is_enabled(&self, sess: &Session) -> (r: bool)
        ensures
            r == Self::enabled_spec(*sess),
    {
        sess.mir_opt_level > 0
    }

    /// Turns every removable zero-sized assignment into a no-op. Generator
    /// bodies are skipped: their layout query would be circular at this
    /// phase.
    pub fn run_pass(&self, ctx: &mut Ctx, body: &mut Body)
        requires
            body_wf(old(body)@),
        ensures
            old(ctx).same_queries(*final (ctx)),
            final (ctx).dumps@ == old(ctx).dumps@,
            final (ctx).diagnostics@ == old(ctx).diagnostics@,
            final (ctx).reported_derives@ == old(ctx).reported_derives@,
            body_wf(final (body)@),
            old(body)@.source.kind == DefKind::Generator ==> final (body)@ == old(body)@,
            (old(ctx).fuel_unlimited() && old(body)@.source.kind != DefKind::Generator)
                ==> final (body)@ == remove_zsts_spec(*old(ctx), old(body)@),
            old(ctx).fuel == Some(0u64) ==> final (body)@ == old(body)@,
            old(ctx).fuel_unlimited() ==> final (ctx).fuel_unlimited(),
            final (body)@.locals == old(body)@.locals,
            final (body)@.arg_count == old(body)@.arg_count,
            final (body)@.debug == old(body)@.debug,
            final (body)@.phase == old(body)@.phase,
            final (body)@.source == old(body)@.source,
    {
        match body.source.kind {
            DefKind::Generator => {
                return ;
            },
            _ => {},
        }
        let ghost spec_body = remove_zsts_spec(*old(ctx), old(body)@);
        let n = body.basic_blocks.len();
        let mut i: usize = 0;
        while i < n
            invariant
                body_wf(old(body)@),
                old(body)@.source.kind != DefKind::Generator,
                n == old(body)@.blocks.len(),
                body@.blocks.len() == n,
                body.basic_blocks@.len() == n,
                i <= n,
                spec_body == remove_zsts_spec(*old(ctx), old(body)@),
                old(ctx).same_queries(*ctx),
                ctx.dumps@ == old(ctx).dumps@,
                ctx.diagnostics@ == old(ctx).diagnostics@,
                ctx.reported_derives@ == old(ctx).reported_derives@,
                old(ctx).fuel_unlimited() ==> ctx.fuel_unlimited(),
                old(ctx).fuel == Some(0u64) ==> ctx.fuel == Some(0u64) && forall|m: int|
                    0 <= m < n ==> #[trigger] body@.blocks[m] == old(body)@.blocks[m],
                old(ctx).fuel_unlimited() ==> forall|m: int|
                    0 <= m < i ==> #[trigger] body@.blocks[m] == spec_body.blocks[m],
                forall|m: int| i <= m < n ==> #[trigger] body@.blocks[m] == old(body)@.blocks[m],
                forall|m: int|
                    0 <= m < n ==> #[trigger] body@.blocks[m].terminator == old(
                        body,
                    )@.blocks[m].terminator,
                forall|m: int|
                    0 <= m < n ==> #[trigger] body@.blocks[m].is_cleanup == old(
                        body,
                    )@.blocks[m].is_cleanup,
                body@.locals == old(body)@.locals,
                body@.arg_count == old(body)@.arg_count,
                body@.debug == old(body)@.debug,
                body@.phase == old(body)@.phase,
                body@.source == old(body)@.source,
            decreases n - i,
        {
            let mut bb = body.take_block(i);
            proof {
                assert(bb@ == old(body)@.blocks[i as int]);
            }
            let ghost sv = bb.statements@.map_values(|s: Statement| s@);
            let sn = bb.statements.len();
            let mut k: usize = 0;
            while k < sn
                invariant
                    k <= sn,
                    sn == bb.statements@.len(),
                    sn == sv.len(),
                    sv == old(body)@.blocks[i as int].statements,
                    i < n,
                    n == old(body)@.blocks.len(),
                    spec_body == remove_zsts_spec(*old(ctx), old(body)@),
                    body_wf(old(body)@),
                    old(ctx).same_queries(*ctx),
                    ctx.dumps@ == old(ctx).dumps@,
                    ctx.diagnostics@ == old(ctx).diagnostics@,
                    ctx.reported_derives@ == old(ctx).reported_derives@,
                    old(ctx).fuel_unlimited() ==> ctx.fuel_unlimited(),
                    old(ctx).fuel == Some(0u64) ==> ctx.fuel == Some(0u64) && (forall|m: int|
                        0 <= m < sn ==> (#[trigger] bb.statements@[m])@ == sv[m]),
                    bb.terminator@ == old(body)@.blocks[i as int].terminator,
                    bb.is_cleanup == old(body)@.blocks[i as int].is_cleanup,
                    body@.locals == old(body)@.locals,
                    old(ctx).fuel_unlimited() ==> forall|m: int|
                        0 <= m < k ==> (#[trigger] bb.statements@[m])@ == spec_body.blocks[i as int].statements[m],
                    forall|m: int| k <= m < sn ==> (#[trigger] bb.statements@[m])@ == sv[m],
                decreases sn - k,
            {
                let removable: bool = match &bb.statements[k] {
                    Statement::Assign(p, _) => Self::place_removable(ctx, &body.local_decls, p),
                    Statement::Deinit(p) => Self::place_removable(ctx, &body.local_decls, p),
                    _ => false,
                };
                proof {
                    assert(removable == zst_removable(*old(ctx), old(body)@.locals, sv[k as int]));
                }
                if removable {
                    if ctx.consider_optimizing() {
                        bb.statements[k] = Statement::Nop;
                    } else {
                        proof {
                            assert(!old(ctx).fuel_unlimited());
                        }
                    }
                }
                k = k + 1;
            }
            proof {
                if old(ctx).fuel_unlimited() {
                    assert(bb@ =~= spec_body.blocks[i as int]);
                }
                if old(ctx).fuel == Some(0u64) {
                    assert(bb@ =~= old(body)@.blocks[i as int]);
                }
                assert(body.basic_blocks@.len() == body@.blocks.len());
            }
            body.put_block(i, bb);
            proof {
                assert(body.basic_blocks@.len() == body@.blocks.len());
            }
            i = i + 1;
        }
        proof {
            if old(ctx).fuel_unlimited() {
                assert(body@.blocks =~= spec_body.blocks);
                assert(body@ =~= spec_body);
            }
            assert forall|m: int| 0 <= m < n implies term_ok(
                #[trigger] body@.blocks[m].terminator,
                body@.blocks,
            ) by {
                lemma_term_ok_same_shape(
                    old(body)@.blocks[m].terminator,
                    old(body)@.blocks,
                    body@.blocks,
                );
            }
        }
    }

    /// The executable place-level test of [`zst_removable_place`].
    fn place_removable(ctx: &Ctx, locals: &Vec<LocalDecl>, p: &Place) -> (r: bool)
        ensures
            r == zst_removable_place(*ctx, locals@, p@),
    {
        match crate::ir::place_ty_of(locals, p) {
            Some(ty) => {
                let info = ctx.type_info_of(ty);
                let shape_maybe = match info.shape {
                    TyShape::Other => false,
                    _ => true,
                };
                proof {
                    assert(shape_maybe == maybe_zst(ctx.type_info(ty).shape));
                }
                if !shape_maybe {
                    return false;
                }
                let is_zst = match info.zst {
                    Some(z) => z,
                    None => {
                        return false;
                    },
                };
                if !is_zst {
                    return false;
                }
                !involves_a_union_check(ctx, locals, p)
            },
            None => false,
        }
    }
}

} // verus!
