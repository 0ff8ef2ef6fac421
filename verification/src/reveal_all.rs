//! A pass that normalizes every type reference in the body with all opaque
//! definitions revealed, through the normalization query.

use vstd::prelude::*;

use crate::context::{Ctx, Session};
use crate::ir::{
    body_wf, lemma_term_ok_same_shape, term_ok, BasicBlockV, Body, BodyV, Constant, DebugContents,
    DebugContentsV, DefKind, LocalDecl, Operand, OperandV, Place, PlaceV, ProjElem, Rvalue,
    RvalueV, Statement, StatementV, Terminator, TerminatorV, VarDebugInfoV,
};

verus! {

/// What a type normalizes to; a type the query cannot resolve stays itself.
pub open spec fn norm_ty(ctx: Ctx, t: usize) -> usize {
    match ctx.type_info(t).normalized {
        Some(u) => u,
        None => t,
    }
}

/// A projection step with its type normalized.
pub open spec fn proj_norm(ctx: Ctx, e: ProjElem) -> ProjElem {
    ProjElem { kind: e.kind, ty: norm_ty(ctx, e.ty) }
}

/// A place with its projection types normalized.
pub open spec fn place_norm(ctx: Ctx, p: PlaceV) -> PlaceV {
    PlaceV { local: p.local, projection: p.projection.map_values(|e: ProjElem| proj_norm(ctx, e)) }
}

/// A constant with its type normalized.
pub open spec fn const_norm(ctx: Ctx, c: Constant) -> Constant {
    Constant { ty: norm_ty(ctx, c.ty), bits: c.bits }
}

/// An operand with its types normalized.
pub open spec fn operand_norm(ctx: Ctx, o: OperandV) -> OperandV {
    match o {
        OperandV::Copy(p) => OperandV::Copy(place_norm(ctx, p)),
        OperandV::Move(p) => OperandV::Move(place_norm(ctx, p)),
        OperandV::Constant(c) => OperandV::Constant(const_norm(ctx, c)),
    }
}

/// An rvalue with its types normalized.
pub open spec fn rvalue_norm(ctx: Ctx, r: RvalueV) -> RvalueV {
    match r {
        RvalueV::Use(o) => RvalueV::Use(operand_norm(ctx, o)),
        RvalueV::Ref(m, p) => RvalueV::Ref(m, place_norm(ctx, p)),
        RvalueV::AddressOf(m, p) => RvalueV::AddressOf(m, place_norm(ctx, p)),
        RvalueV::Discriminant(p) => RvalueV::Discriminant(place_norm(ctx, p)),
        RvalueV::UnaryOp(o) => RvalueV::UnaryOp(operand_norm(ctx, o)),
        RvalueV::BinaryOp(a, b) => RvalueV::BinaryOp(operand_norm(ctx, a), operand_norm(ctx, b)),
        RvalueV::Cast(o) => RvalueV::Cast(operand_norm(ctx, o)),
        RvalueV::Aggregate(os) => RvalueV::Aggregate(
            os.map_values(|o: OperandV| operand_norm(ctx, o)),
        ),
    }
}

/// A statement with its types normalized.
pub open spec fn stmt_norm(ctx: Ctx, s: StatementV) -> StatementV {
    match s {
        StatementV::Assign(p, r) => StatementV::Assign(place_norm(ctx, p), rvalue_norm(ctx, r)),
        StatementV::SetDiscriminant(p, v) => StatementV::SetDiscriminant(place_norm(ctx, p), v),
        StatementV::Deinit(p) => StatementV::Deinit(place_norm(ctx, p)),
        StatementV::CopyNonOverlapping(a, b, c) => StatementV::CopyNonOverlapping(
            operand_norm(ctx, a),
            operand_norm(ctx, b),
            operand_norm(ctx, c),
        ),
        StatementV::Retag(p) => StatementV::Retag(place_norm(ctx, p)),
        StatementV::FakeRead(p) => StatementV::FakeRead(place_norm(ctx, p)),
        StatementV::AscribeUserType(p) => StatementV::AscribeUserType(place_norm(ctx, p)),
        _ => s,
    }
}

/// A terminator with its types normalized; block targets are untouched.
pub open spec fn term_norm(ctx: Ctx, t: TerminatorV) -> TerminatorV {
    match t {
        TerminatorV::SwitchInt { discr, switch_ty, targets } => TerminatorV::SwitchInt {
            discr: operand_norm(ctx, discr),
            switch_ty: norm_ty(ctx, switch_ty),
            targets,
        },
        TerminatorV::Call { func, args, callee, callee_abi, destination, cleanup } => TerminatorV::Call {
            func: operand_norm(ctx, func),
            args: args.map_values(|o: OperandV| operand_norm(ctx, o)),
            callee,
            callee_abi,
            destination: (match destination {
                Some((p, t2)) => Some((place_norm(ctx, p), t2)),
                None => None,
            }),
            cleanup,
        },
        TerminatorV::Drop { place, target, unwind } => TerminatorV::Drop {
            place: place_norm(ctx, place),
            target,
            unwind,
        },
        TerminatorV::DropAndReplace { place, value, target, unwind } => TerminatorV::DropAndReplace {
            place: place_norm(ctx, place),
            value: operand_norm(ctx, value),
            target,
            unwind,
        },
        TerminatorV::Assert { cond, expected, target, cleanup } => TerminatorV::Assert {
            cond: operand_norm(ctx, cond),
            expected,
            target,
            cleanup,
        },
        TerminatorV::Yield { value, resume, resume_arg, drop } => TerminatorV::Yield {
            value: operand_norm(ctx, value),
            resume,
            resume_arg: place_norm(ctx, resume_arg),
            drop,
        },
        _ => t,
    }
}

/// A debug-info value with its types normalized.
pub open spec fn debug_norm(ctx: Ctx, d: DebugContentsV) -> DebugContentsV {
    match d {
        DebugContentsV::Place(p) => DebugContentsV::Place(place_norm(ctx, p)),
        DebugContentsV::Const(c) => DebugContentsV::Const(const_norm(ctx, c)),
    }
}

/// What the pass produces for non-generator bodies: every type reference in
/// declarations, statements, terminators and debug info normalized.
pub open spec fn reveal_all_spec(ctx: Ctx, b: BodyV) -> BodyV {
    BodyV {
        blocks: b.blocks.map_values(
            |bb: BasicBlockV| BasicBlockV {
                statements: bb.statements.map_values(|s: StatementV| stmt_norm(ctx, s)),
                terminator: term_norm(ctx, bb.terminator),
                is_cleanup: bb.is_cleanup,
            },
        ),
        locals: b.locals.map_values(
            |d: LocalDecl| LocalDecl { ty: norm_ty(ctx, d.ty), mutable: d.mutable },
        ),
        arg_count: b.arg_count,
        debug: b.debug.map_values(
            |d: VarDebugInfoV| VarDebugInfoV { name: d.name, value: debug_norm(ctx, d.value) },
        ),
        phase: b.phase,
        source: b.source,
    }
}

/// Normalizing types leaves a terminator's control-flow edges alone.
pub proof fn lemma_term_norm_edges(ctx: Ctx, t: TerminatorV)
    ensures
        term_norm(ctx, t).succs() =~= t.succs(),
        term_norm(ctx, t).unwind() == t.unwind(),
{
}

/// Normalizes the whole body in revealed mode.
pub struct RevealAll;

impl RevealAll {
    /// Whether the pass runs at the given session options: only at the
    /// levels where later optimizations rely on revealed types. A session
    /// that force-enables inlining would want this too; that sits in the
    /// override table here, since no inlining pass is part of this pipeline.
    pub open spec fn enabled_spec(sess: Session) -> bool {
        sess.mir_opt_level >= 3
    }

    /// Executable counterpart of [`RevealAll::enabled_spec`].
    pub fn is_enabled(&self, sess: &Session) -> (r: bool)
        ensures
            r == Self::enabled_spec(*sess),
    {
        sess.mir_opt_level >= 3
    }

    /// Rewrites every type reference to its normalized form. Generator
    /// bodies are not touched.
    pub fn run_pass(&self, ctx: &mut Ctx, body: &mut Body)
        requires
            body_wf(old(body)@),
        ensures
            *final (ctx) == *old(ctx),
            body_wf(final (body)@),
            old(body)@.source.kind == DefKind::Generator ==> final (body)@ == old(body)@,
            old(body)@.source.kind != DefKind::Generator ==> final (body)@ == reveal_all_spec(
                *old(ctx),
                old(body)@,
            ),
    {
        match body.source.kind {
            DefKind::Generator => {
                return ;
            },
            _ => {},
        }
        let ghost b0 = old(body)@;
        let ghost spec_after = reveal_all_spec(*old(ctx), b0);
        let n = body.basic_blocks.len();
        let mut i: usize = 0;
        while i < n
            invariant
                b0 == old(body)@,
                spec_after == reveal_all_spec(*old(ctx), b0),
                old(ctx).same_queries(*ctx),
                *ctx == *old(ctx),
                n == b0.blocks.len(),
                body@.blocks.len() == n,
                body.basic_blocks@.len() == n,
                i <= n,
                forall|m: int| 0 <= m < i ==> #[trigger] body@.blocks[m] == spec_after.blocks[m],
                forall|m: int| i <= m < n ==> #[trigger] body@.blocks[m] == b0.blocks[m],
                body@.locals == b0.locals,
                body@.arg_count == b0.arg_count,
                body@.debug == b0.debug,
                body@.phase == b0.phase,
                body@.source == b0.source,
            decreases n - i,
        {
            let mut bb = body.take_block(i);
            let ghost bbv = bb@;
            proof {
                assert(bbv == b0.blocks[i as int]);
            }
            let sn = bb.statements.len();
            let ghost sv = bbv.statements;
            let mut k: usize = 0;
            while k < sn
                invariant
                    *ctx == *old(ctx),
                    sn == bb.statements@.len(),
                    sv.len() == sn,
                    sv == b0.blocks[i as int].statements,
                    k <= sn,
                    forall|x: int| 0 <= x < k ==> (#[trigger] bb.statements@[x])@ == stmt_norm(
                        *old(ctx),
                        sv[x],
                    ),
                    forall|x: int| k <= x < sn ==> (#[trigger] bb.statements@[x])@ == sv[x],
                    bb.terminator@ == bbv.terminator,
                    bb.is_cleanup == bbv.is_cleanup,
                decreases sn - k,
            {
                Self::norm_statement(ctx, &mut bb.statements[k]);
                k = k + 1;
            }
            Self::norm_terminator(ctx, &mut bb.terminator);
            proof {
                assert(bb@.statements =~= bbv.statements.map_values(
                    |s: StatementV| stmt_norm(*old(ctx), s),
                ));
                assert(bb@ =~= spec_after.blocks[i as int]);
                assert(body.basic_blocks@.len() == body@.blocks.len());
            }
            body.put_block(i, bb);
            proof {
                assert(body.basic_blocks@.len() == body@.blocks.len());
            }
            i = i + 1;
        }
        // Local declarations.
        let ln = body.local_decls.len();
        let mut l: usize = 0;
        while l < ln
            invariant
                b0 == old(body)@,
                spec_after == reveal_all_spec(*old(ctx), b0),
                *ctx == *old(ctx),
                ln == b0.locals.len(),
                ln == body.local_decls@.len(),
                l <= ln,
                body@.blocks == spec_after.blocks,
                forall|x: int| 0 <= x < l ==> #[trigger] body@.locals[x] == spec_after.locals[x],
                forall|x: int| l <= x < ln ==> #[trigger] body@.locals[x] == b0.locals[x],
                body@.arg_count == b0.arg_count,
                body@.debug == b0.debug,
                body@.phase == b0.phase,
                body@.source == b0.source,
            decreases ln - l,
        {
            let d = body.local_decls[l];
            let nt = Self::norm(ctx, d.ty);
            let ghost lpre = body@.locals;
            body.local_decls[l] = LocalDecl { ty: nt, mutable: d.mutable };
            proof {
                assert(body@.locals == lpre.update(
                    l as int,
                    LocalDecl { ty: norm_ty(*old(ctx), b0.locals[l as int].ty), mutable: b0.locals[l as int].mutable },
                ));
                assert(spec_after.locals[l as int] == LocalDecl {
                    ty: norm_ty(*old(ctx), b0.locals[l as int].ty),
                    mutable: b0.locals[l as int].mutable,
                });
                assert(body@.locals[l as int] == spec_after.locals[l as int]);
            }
            l = l + 1;
        }
        proof {
            assert(body@.locals =~= spec_after.locals);
        }
        // Debug info.
        let mut dvec: Vec<crate::ir::VarDebugInfo> = Vec::new();
        core::mem::swap(&mut body.var_debug_info, &mut dvec);
        let dn = dvec.len();
        let mut out: Vec<crate::ir::VarDebugInfo> = Vec::new();
        let mut j: usize = 0;
        proof {
            assert(dvec@.map_values(|d: crate::ir::VarDebugInfo| d@) == b0.debug);
        }
        while j < dn
            invariant
                b0 == old(body)@,
                spec_after == reveal_all_spec(*old(ctx), b0),
                *ctx == *old(ctx),
                dn == b0.debug.len(),
                dvec@.map_values(|d: crate::ir::VarDebugInfo| d@) == b0.debug.skip(j as int),
                j <= dn,
                out@.map_values(|d: crate::ir::VarDebugInfo| d@) == spec_after.debug.take(j as int),
                body@.blocks == spec_after.blocks,
                body@.locals == spec_after.locals,
                body@.arg_count == b0.arg_count,
                body@.phase == b0.phase,
                body@.source == b0.source,
            decreases dn - j,
        {
            let ghost dbefore = dvec@;
            proof {
                assert(dbefore.map_values(|d: crate::ir::VarDebugInfo| d@).len() == dbefore.len());
            }
            let entry = dvec.remove(0);
            proof {
                assert(dbefore.map_values(|d: crate::ir::VarDebugInfo| d@)[0] == entry@);
                assert(entry@ == b0.debug[j as int]);
                assert forall|x: int| 0 <= x < dvec@.len() implies (#[trigger] dvec@[x])@
                    == b0.debug.skip(j + 1)[x] by {
                    assert(dvec@[x] == dbefore[x + 1]);
                    assert(dbefore.map_values(|d: crate::ir::VarDebugInfo| d@)[x + 1]
                        == b0.debug.skip(j as int)[x + 1]);
                }
                assert(dvec@.map_values(|d: crate::ir::VarDebugInfo| d@) =~= b0.debug.skip(j + 1));
            }
            let crate::ir::VarDebugInfo { name, value } = entry;
            let newval = match value {
                DebugContents::Place(p) => {
                    let mut p2 = p;
                    Self::norm_place(ctx, &mut p2);
                    DebugContents::Place(p2)
                },
                DebugContents::Const(c) => DebugContents::Const(
                    Constant { ty: Self::norm(ctx, c.ty), bits: c.bits },
                ),
            };
            let newentry = crate::ir::VarDebugInfo { name, value: newval };
            proof {
                assert(newentry@ =~~= spec_after.debug[j as int]);
            }
            let ghost obefore = out@;
            out.push(newentry);
            proof {
                assert(out@.map_values(|d: crate::ir::VarDebugInfo| d@) =~= obefore.map_values(
                    |d: crate::ir::VarDebugInfo| d@,
                ).push(newentry@));
                assert(spec_after.debug.take(j + 1) =~= spec_after.debug.take(j as int).push(
                    spec_after.debug[j as int],
                ));
                assert(out@.map_values(|d: crate::ir::VarDebugInfo| d@) =~= spec_after.debug.take(
                    j + 1,
                ));
            }
            j = j + 1;
        }
        body.var_debug_info = out;
        proof {
            assert(spec_after.debug.take(dn as int) =~= spec_after.debug);
            assert(body@.locals =~= spec_after.locals);
            assert(body@ =~= spec_after);
            assert forall|m: int| 0 <= m < n implies term_ok(
                #[trigger] body@.blocks[m].terminator,
                body@.blocks,
            ) by {
                lemma_term_norm_edges(*old(ctx), b0.blocks[m].terminator);
                lemma_term_ok_same_shape(b0.blocks[m].terminator, b0.blocks, body@.blocks);
            }
        }
    }

    /// Executable counterpart of [`norm_ty`].
    fn norm(ctx: &Ctx, t: usize) -> (r: usize)
        ensures
            r == norm_ty(*ctx, t),
    {
        match ctx.type_info_of(t).normalized {
            Some(u) => u,
            None => t,
        }
    }

    /// Normalizes a place's projection types in place.
    fn norm_place(ctx: &Ctx, p: &mut Place)
        ensures
            final (p)@ == place_norm(*ctx, old(p)@),
    {
        let ghost p0 = old(p)@;
        let n = p.projection.len();
        let mut k: usize = 0;
        while k < n
            invariant
                n == p.projection@.len(),
                k <= n,
                p.local == p0.local,
                p.projection@.len() == p0.projection.len(),
                forall|x: int| 0 <= x < k ==> #[trigger] p.projection@[x] == proj_norm(
                    *ctx,
                    p0.projection[x],
                ),
                forall|x: int| k <= x < n ==> #[trigger] p.projection@[x] == p0.projection[x],
            decreases n - k,
        {
            let e = p.projection[k];
            p.projection[k] = ProjElem { kind: e.kind, ty: Self::norm(ctx, e.ty) };
            k = k + 1;
        }
        proof {
            assert(p@.projection =~= p0.projection.map_values(|e: ProjElem| proj_norm(*ctx, e)));
            assert(p@ =~= place_norm(*ctx, p0));
        }
    }

    /// Normalizes an operand's types in place.
    fn norm_operand(ctx: &Ctx, o: &mut Operand)
        ensures
            final (o)@ == operand_norm(*ctx, old(o)@),
    {
        match o {
            Operand::Copy(p) => Self::norm_place(ctx, p),
            Operand::Move(p) => Self::norm_place(ctx, p),
            Operand::Constant(c) => {
                let nt = Self::norm(ctx, c.ty);
                c.ty = nt;
            },
        }
    }

    /// Normalizes an rvalue's types in place.
    fn norm_rvalue(ctx: &Ctx, r: &mut Rvalue)
        ensures
            final (r)@ == rvalue_norm(*ctx, old(r)@),
    {
        let ghost r0 = old(r)@;
        match r {
            Rvalue::Use(o) => Self::norm_operand(ctx, o),
            Rvalue::Ref(_, p) => Self::norm_place(ctx, p),
            Rvalue::AddressOf(_, p) => Self::norm_place(ctx, p),
            Rvalue::Discriminant(p) => Self::norm_place(ctx, p),
            Rvalue::UnaryOp(o) => Self::norm_operand(ctx, o),
            Rvalue::BinaryOp(a, b) => {
                Self::norm_operand(ctx, a);
                Self::norm_operand(ctx, b);
            },
            Rvalue::Cast(o) => Self::norm_operand(ctx, o),
            Rvalue::Aggregate(os) => {
                let ghost os0 = os@.map_values(|o: Operand| o@);
                let n = os.len();
                let mut k: usize = 0;
                while k < n
                    invariant
                        n == os@.len(),
                        os0.len() == n,
                        k <= n,
                        forall|x: int| 0 <= x < k ==> (#[trigger] os@[x])@ == operand_norm(
                            *ctx,
                            os0[x],
                        ),
                        forall|x: int| k <= x < n ==> (#[trigger] os@[x])@ == os0[x],
                    decreases n - k,
                {
                    Self::norm_operand(ctx, &mut os[k]);
                    k = k + 1;
                }
                proof {
                    assert(os@.map_values(|o: Operand| o@) =~= os0.map_values(
                        |o: OperandV| operand_norm(*ctx, o),
                    ));
                    assert(r@ =~= rvalue_norm(*ctx, r0));
                }
            },
        }
    }

    /// Normalizes a statement's types in place.
    fn norm_statement(ctx: &Ctx, s: &mut Statement)
        ensures
            final (s)@ == stmt_norm(*ctx, old(s)@),
    {
        match s {
            Statement::Assign(p, r) => {
                Self::norm_place(ctx, p);
                Self::norm_rvalue(ctx, r);
            },
            Statement::SetDiscriminant(p, _) => Self::norm_place(ctx, p),
            Statement::Deinit(p) => Self::norm_place(ctx, p),
            Statement::CopyNonOverlapping(a, b, c) => {
                Self::norm_operand(ctx, a);
                Self::norm_operand(ctx, b);
                Self::norm_operand(ctx, c);
            },
            Statement::Retag(p) => Self::norm_place(ctx, p),
            Statement::FakeRead(p) => Self::norm_place(ctx, p),
            Statement::AscribeUserType(p) => Self::norm_place(ctx, p),
            _ => {},
        }
    }

    /// Normalizes a terminator's types in place.
    fn norm_terminator(ctx: &Ctx, t: &mut Terminator)
        ensures
            final (t)@ == term_norm(*ctx, old(t)@),
    {
        let ghost t0 = old(t)@;
        match t {
            Terminator::SwitchInt { discr, switch_ty, .. } => {
                Self::norm_operand(ctx, discr);
                let nt = Self::norm(ctx, *switch_ty);
                *switch_ty = nt;
            },
            Terminator::Call { func, args, destination, .. } => {
                Self::norm_operand(ctx, func);
                let ghost args0 = args@.map_values(|o: Operand| o@);
                let n = args.len();
                let mut k: usize = 0;
                while k < n
                    invariant
                        n == args@.len(),
                        args0.len() == n,
                        k <= n,
                        forall|x: int| 0 <= x < k ==> (#[trigger] args@[x])@ == operand_norm(
                            *ctx,
                            args0[x],
                        ),
                        forall|x: int| k <= x < n ==> (#[trigger] args@[x])@ == args0[x],
                    decreases n - k,
                {
                    Self::norm_operand(ctx, &mut args[k]);
                    k = k + 1;
                }
                proof {
                    assert(args@.map_values(|o: Operand| o@) =~= args0.map_values(
                        |o: OperandV| operand_norm(*ctx, o),
                    ));
                }
                match destination {
                    Some(pair) => {
                        Self::norm_place(ctx, &mut pair.0);
                    },
                    None => {},
                }
                proof {
                    assert(t@ =~= term_norm(*ctx, t0));
                }
            },
            Terminator::Drop { place, .. } => Self::norm_place(ctx, place),
            Terminator::DropAndReplace { place, value, .. } => {
                Self::norm_place(ctx, place);
                Self::norm_operand(ctx, value);
            },
            Terminator::Assert { cond, .. } => Self::norm_operand(ctx, cond),
            Terminator::Yield { value, resume_arg, .. } => {
                Self::norm_operand(ctx, value);
                Self::norm_place(ctx, resume_arg);
            },
            _ => {},
        }
    }
}

} // verus!
