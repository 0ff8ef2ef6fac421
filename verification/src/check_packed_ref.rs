//! A lint pass that reports references to insufficiently aligned fields of
//! packed aggregates: creating such a reference is undefined behavior even if
//! it is never dereferenced. The pass never mutates the body.

use vstd::prelude::*;

use crate::context::{Ctx, Diagnostic, Session, TyShape};
use crate::ir::{
    place_ty, Body, BodyV, LocalDecl, Place, PlaceV, Rvalue, Statement, StatementV,
};

verus! {

/// The packing under which a place's address is computed: the packing of the
/// innermost packed aggregate a field projection passes through, looking
/// from the end of the projection; a dereference resets the walk.
pub open spec fn within_packed(ctx: Ctx, locals: Seq<LocalDecl>, p: PlaceV, k: int) -> Option<
    u64,
>
    decreases k + 1,
{
    if k < 0 || k >= p.projection.len() {
        None
    } else {
        let container = (if k == 0 {
            if p.local < locals.len() {
                Some(locals[p.local as int].ty)
            } else {
                None
            }
        } else {
            Some(p.projection[k - 1].ty)
        });
        match p.projection[k].kind {
            crate::ir::ProjKind::Deref => None,
            crate::ir::ProjKind::Field(_) => {
                match container {
                    Some(cty) => {
                        if ctx.type_info(cty).shape == TyShape::Adt {
                            ctx.type_info(cty).packed
                        } else {
                            within_packed(ctx, locals, p, k - 1)
                        }
                    },
                    None => None,
                }
            },
            _ => within_packed(ctx, locals, p, k - 1),
        }
    }
}

/// Whether dereferencing a reference to this place is not guaranteed
/// aligned: the place lies within a packed aggregate whose packing is below
/// the alignment its type wants, or its layout cannot be computed at all.
pub open spec fn is_disaligned(ctx: Ctx, locals: Seq<LocalDecl>, p: PlaceV) -> bool {
    match within_packed(ctx, locals, p, p.projection.len() - 1) {
        None => false,
        Some(pack) => {
            match place_ty(locals, p) {
                Some(ty) => {
                    if ctx.type_info(ty).zst is Some && ctx.type_info(ty).align <= pack {
                        false
                    } else {
                        true
                    }
                },
                None => true,
            }
        },
    }
}

/// The packing walk only reads the type table, so two contexts with the
/// same tables agree on it.
pub proof fn lemma_within_packed_same_queries(
    c1: Ctx,
    c2: Ctx,
    locals: Seq<LocalDecl>,
    p: PlaceV,
    k: int,
)
    requires
        c1.types@ == c2.types@,
    ensures
        within_packed(c1, locals, p, k) == within_packed(c2, locals, p, k),
    decreases k + 1,
{
    if !(k < 0 || k >= p.projection.len()) {
        lemma_within_packed_same_queries(c1, c2, locals, p, k - 1);
    }
}

/// Executable counterpart of [`within_packed`], for the whole projection.
fn within_packed_check(ctx: &Ctx, locals: &Vec<LocalDecl>, p: &Place) -> (r: Option<u64>)
    ensures
        r == within_packed(*ctx, locals@, p@, p@.projection.len() - 1),
{
    let n = p.projection.len();
    let mut k: usize = n;
    while k > 0
        invariant
            n == p.projection@.len(),
            k <= n,
            within_packed(*ctx, locals@, p@, n - 1) == within_packed(*ctx, locals@, p@, k - 1),
        decreases k,
    {
        let e = p.projection[k - 1];
        match e.kind {
            crate::ir::ProjKind::Deref => {
                return None;
            },
            crate::ir::ProjKind::Field(_) => {
                let container: Option<usize> = if k == 1 {
                    if p.local < locals.len() {
                        Some(locals[p.local].ty)
                    } else {
                        None
                    }
                } else {
                    Some(p.projection[k - 2].ty)
                };
                match container {
                    Some(cty) => {
                        let info = ctx.type_info_of(cty);
                        let is_adt = match info.shape {
                            TyShape::Adt => true,
                            _ => false,
                        };
                        if is_adt {
                            return info.packed;
                        }
                    },
                    None => {
                        return None;
                    },
                }
            },
            _ => {},
        }
        k = k - 1;
    }
    None
}

/// Executable counterpart of [`is_disaligned`].
pub fn is_disaligned_check(ctx: &Ctx, locals: &Vec<LocalDecl>, p: &Place) -> (r: bool)
    ensures
        r == is_disaligned(*ctx, locals@, p@),
{
    match within_packed_check(ctx, locals, p) {
        None => false,
        Some(pk) => {
            match crate::ir::place_ty_of(locals, p) {
                Some(ty) => {
                    let info = ctx.type_info_of(ty);
                    let computable = match info.zst {
                        Some(_) => true,
                        None => false,
                    };
                    if computable && info.align <= pk {
                        false
                    } else {
                        true
                    }
                },
                None => true,
            }
        },
    }
}

/// The one place a statement uses in borrow position, if any.
pub open spec fn stmt_borrow_place(s: StatementV) -> Option<PlaceV> {
    match s {
        StatementV::Assign(_, crate::ir::RvalueV::Ref(_, p)) => Some(p),
        _ => None,
    }
}

/// One step of the lint: the diagnostics and reported-derive memo after
/// examining statement `k` of block `i`.
pub open spec fn lint_step(
    ctx: Ctx,
    b: BodyV,
    i: int,
    k: int,
    st: (Seq<Diagnostic>, Seq<usize>),
) -> (Seq<Diagnostic>, Seq<usize>) {
    if 0 <= i < b.blocks.len() && 0 <= k < b.blocks[i].statements.len() {
        match stmt_borrow_place(b.blocks[i].statements[k]) {
            Some(p) => {
                if is_disaligned(ctx, b.locals, p) {
                    match ctx.spec_derive_impl(b.source.def_id) {
                        Some(imp) => {
                            if st.1.contains(imp) {
                                st
                            } else {
                                (
                                    st.0.push(Diagnostic::UnsafeDeriveOnReprPacked { derive_impl: imp }),
                                    st.1.push(imp),
                                )
                            }
                        },
                        None => {
                            (
                                st.0.push(
                                    Diagnostic::UnalignedReference {
                                        block: i as usize,
                                        statement: k as usize,
                                    },
                                ),
                                st.1,
                            )
                        },
                    }
                } else {
                    st
                }
            },
            None => st,
        }
    } else {
        st
    }
}

/// The lint's state after the first `i` blocks and the first `k` statements
/// of block `i`, starting from `st0`.
pub open spec fn lint_upto(
    ctx: Ctx,
    b: BodyV,
    i: int,
    k: int,
    st0: (Seq<Diagnostic>, Seq<usize>),
) -> (Seq<Diagnostic>, Seq<usize>)
    decreases i, k,
{
    if i < 0 || k < 0 {
        st0
    } else if k == 0 {
        if i == 0 {
            st0
        } else {
            lint_upto(ctx, b, i - 1, b.blocks[i - 1].statements.len() as int, st0)
        }
    } else {
        lint_step(ctx, b, i, k - 1, lint_upto(ctx, b, i, k - 1, st0))
    }
}

/// Detects references to packed fields, a purely diagnostic pass.
pub struct CheckPackedRef;

impl CheckPackedRef {
    /// Whether the lint runs; it is part of every pipeline.
    pub open spec fn enabled_spec(sess: Session) -> bool {
        true
    }

    /// Executable counterpart of [`CheckPackedRef::enabled_spec`].
    pub fn is_enabled(&self, sess: &Session) -> (r: bool)
        ensures
            r == Self::enabled_spec(*sess),
    {
        true
    }

    /// Walks every borrow in the body and reports the misaligned ones:
    /// immediately at the borrow site, or, inside automatically derived
    /// code, once per derivation impl against that impl.
    pub fn run_lint(&self, ctx: &mut Ctx, body: &Body)
        ensures
            old(ctx).same_queries(*final (ctx)),
            final (ctx).fuel == old(ctx).fuel,
            final (ctx).dumps@ == old(ctx).dumps@,
            (final (ctx).diagnostics@, final (ctx).reported_derives@) == lint_upto(
                *old(ctx),
                body@,
                body@.blocks.len() as int,
                0,
                (old(ctx).diagnostics@, old(ctx).reported_derives@),
            ),
    {
        let ghost st0 = (old(ctx).diagnostics@, old(ctx).reported_derives@);
        let n = body.basic_blocks.len();
        let mut i: usize = 0;
        while i < n
            invariant
                n == body.basic_blocks@.len(),
                i <= n,
                old(ctx).same_queries(*ctx),
                ctx.fuel == old(ctx).fuel,
                ctx.dumps@ == old(ctx).dumps@,
                (ctx.diagnostics@, ctx.reported_derives@) == lint_upto(
                    *old(ctx),
                    body@,
                    i as int,
                    0,
                    st0,
                ),
            decreases n - i,
        {
            let sn = body.basic_blocks[i].statements.len();
            let mut k: usize = 0;
            while k < sn
                invariant
                    n == body.basic_blocks@.len(),
                    i < n,
                    sn == body@.blocks[i as int].statements.len(),
                    k <= sn,
                    old(ctx).same_queries(*ctx),
                    ctx.fuel == old(ctx).fuel,
                    ctx.dumps@ == old(ctx).dumps@,
                    (ctx.diagnostics@, ctx.reported_derives@) == lint_upto(
                        *old(ctx),
                        body@,
                        i as int,
                        k as int,
                        st0,
                    ),
                decreases sn - k,
            {
                let ghost st_before = (ctx.diagnostics@, ctx.reported_derives@);
                proof {
                    assert(body@.blocks[i as int] == body.basic_blocks@[i as int]@);
                    assert(body@.blocks[i as int].statements[k as int]
                        == body.basic_blocks@[i as int].statements@[k as int]@);
                }
                let borrow_place: Option<&Place> = match &body.basic_blocks[i].statements[k] {
                    Statement::Assign(_, Rvalue::Ref(_, p)) => Some(p),
                    _ => None,
                };
                match borrow_place {
                    Some(p) => {
                        proof {
                            assert(stmt_borrow_place(
                                body@.blocks[i as int].statements[k as int],
                            ) == Some(p@));
                        }
                        let dis = is_disaligned_check(ctx, &body.local_decls, p);
                        proof {
                            lemma_within_packed_same_queries(
                                *old(ctx),
                                *ctx,
                                body@.locals,
                                p@,
                                p@.projection.len() - 1,
                            );
                            assert(dis == is_disaligned(*old(ctx), body@.locals, p@));
                        }
                        if dis {
                            match ctx.derive_impl_of(body.source.def_id) {
                                Some(imp) => {
                                    let mut seen = false;
                                    let rn = ctx.reported_derives.len();
                                    let mut e: usize = 0;
                                    while e < rn
                                        invariant
                                            rn == ctx.reported_derives@.len(),
                                            e <= rn,
                                            seen == exists|x: int|
                                                0 <= x < e && ctx.reported_derives@[x] == imp,
                                        decreases rn - e,
                                    {
                                        if ctx.reported_derives[e] == imp {
                                            seen = true;
                                        }
                                        e = e + 1;
                                    }
                                    proof {
                                        assert(seen == ctx.reported_derives@.contains(imp));
                                    }
                                    if !seen {
                                        ctx.diagnostics.push(
                                            Diagnostic::UnsafeDeriveOnReprPacked {
                                                derive_impl: imp,
                                            },
                                        );
                                        ctx.reported_derives.push(imp);
                                    }
                                },
                                None => {
                                    ctx.diagnostics.push(
                                        Diagnostic::UnalignedReference { block: i, statement: k },
                                    );
                                },
                            }
                        }
                    },
                    None => {},
                }
                proof {
                    match stmt_borrow_place(body@.blocks[i as int].statements[k as int]) {
                        Some(pv) => {
                            if is_disaligned(*old(ctx), body@.locals, pv) {
                                match old(ctx).spec_derive_impl(body@.source.def_id) {
                                    Some(imp) => {
                                        if st_before.1.contains(imp) {
                                            assert(ctx.diagnostics@ == st_before.0);
                                        } else {
                                            assert(ctx.diagnostics@ == st_before.0.push(
                                                Diagnostic::UnsafeDeriveOnReprPacked {
                                                    derive_impl: imp,
                                                },
                                            ));
                                        }
                                    },
                                    None => {
                                        assert(ctx.diagnostics@ == st_before.0.push(
                                            Diagnostic::UnalignedReference {
                                                block: i,
                                                statement: k,
                                            },
                                        ));
                                    },
                                }
                            } else {
                                assert(ctx.diagnostics@ == st_before.0);
                            }
                        },
                        None => {
                            assert(ctx.diagnostics@ == st_before.0);
                        },
                    }
                    assert((ctx.diagnostics@, ctx.reported_derives@) == lint_step(
                        *old(ctx),
                        body@,
                        i as int,
                        k as int,
                        st_before,
                    ));
                }
                k = k + 1;
            }
            proof {
                assert(lint_upto(*old(ctx), body@, i + 1, 0, st0) == lint_upto(
                    *old(ctx),
                    body@,
                    i as int,
                    sn as int,
                    st0,
                ));
            }
            i = i + 1;
        }
        proof {
            if n == 0 {
                assert(lint_upto(*old(ctx), body@, 0, 0, st0) == st0);
            }
            assert(lint_upto(*old(ctx), body@, n as int, 0, st0) == (if n == 0 {
                st0
            } else {
                lint_upto(
                    *old(ctx),
                    body@,
                    n - 1,
                    body@.blocks[n - 1].statements.len() as int,
                    st0,
                )
            }));
        }
    }
}

} // verus!
