//! Renaming and renumbering of locals: a single reusable traversal rewrites
//! every occurrence of a local through a replacement table, and dead-local
//! elimination builds on it to drop unused declarations and renumber the
//! rest.

use vstd::prelude::*;

use crate::ir::{
    BasicBlockV, Body, BodyV, DebugContents, DebugContentsV, Operand, OperandV, Place, PlaceV,
    ProjElem, ProjKind, Rvalue, RvalueV, Statement, StatementV, Terminator, TerminatorV,
    VarDebugInfoV,
};

verus! {

/// Where the table sends a local; locals beyond the table keep their id.
pub open spec fn lookup(m: Seq<usize>, l: usize) -> usize {
    if l < m.len() {
        m[l as int]
    } else {
        l
    }
}

/// A projection step with its index local replaced.
pub open spec fn proj_map(m: Seq<usize>, e: ProjElem) -> ProjElem {
    match e.kind {
        ProjKind::Index(l) => ProjElem { kind: ProjKind::Index(lookup(m, l)), ty: e.ty },
        _ => e,
    }
}

/// A place with every local occurrence replaced.
pub open spec fn place_map(m: Seq<usize>, p: PlaceV) -> PlaceV {
    PlaceV {
        local: lookup(m, p.local),
        projection: p.projection.map_values(|e: ProjElem| proj_map(m, e)),
    }
}

/// An operand with every local occurrence replaced.
pub open spec fn operand_map(m: Seq<usize>, o: OperandV) -> OperandV {
    match o {
        OperandV::Copy(p) => OperandV::Copy(place_map(m, p)),
        OperandV::Move(p) => OperandV::Move(place_map(m, p)),
        OperandV::Constant(c) => OperandV::Constant(c),
    }
}

/// An rvalue with every local occurrence replaced.
pub open spec fn rvalue_map(m: Seq<usize>, r: RvalueV) -> RvalueV {
    match r {
        RvalueV::Use(o) => RvalueV::Use(operand_map(m, o)),
        RvalueV::Ref(mt, p) => RvalueV::Ref(mt, place_map(m, p)),
        RvalueV::AddressOf(mt, p) => RvalueV::AddressOf(mt, place_map(m, p)),
        RvalueV::Discriminant(p) => RvalueV::Discriminant(place_map(m, p)),
        RvalueV::UnaryOp(o) => RvalueV::UnaryOp(operand_map(m, o)),
        RvalueV::BinaryOp(a, b) => RvalueV::BinaryOp(operand_map(m, a), operand_map(m, b)),
        RvalueV::Cast(o) => RvalueV::Cast(operand_map(m, o)),
        RvalueV::Aggregate(os) => RvalueV::Aggregate(
            os.map_values(|o: OperandV| operand_map(m, o)),
        ),
    }
}

/// A statement with every local occurrence replaced.
pub open spec fn stmt_map(m: Seq<usize>, s: StatementV) -> StatementV {
    match s {
        StatementV::Assign(p, r) => StatementV::Assign(place_map(m, p), rvalue_map(m, r)),
        StatementV::SetDiscriminant(p, v) => StatementV::SetDiscriminant(place_map(m, p), v),
        StatementV::Deinit(p) => StatementV::Deinit(place_map(m, p)),
        StatementV::CopyNonOverlapping(a, b, c) => StatementV::CopyNonOverlapping(
            operand_map(m, a),
            operand_map(m, b),
            operand_map(m, c),
        ),
        StatementV::Retag(p) => StatementV::Retag(place_map(m, p)),
        StatementV::StorageLive(l) => StatementV::StorageLive(lookup(m, l)),
        StatementV::StorageDead(l) => StatementV::StorageDead(lookup(m, l)),
        StatementV::FakeRead(p) => StatementV::FakeRead(place_map(m, p)),
        StatementV::AscribeUserType(p) => StatementV::AscribeUserType(place_map(m, p)),
        StatementV::Coverage => StatementV::Coverage,
        StatementV::Nop => StatementV::Nop,
    }
}

/// A terminator with every local occurrence replaced; block targets are
/// untouched.
pub open spec fn term_map(m: Seq<usize>, t: TerminatorV) -> TerminatorV {
    match t {
        TerminatorV::SwitchInt { discr, switch_ty, targets } => TerminatorV::SwitchInt {
            discr: operand_map(m, discr),
            switch_ty,
            targets,
        },
        TerminatorV::Call { func, args, callee, callee_abi, destination, cleanup } => TerminatorV::Call {
            func: operand_map(m, func),
            args: args.map_values(|o: OperandV| operand_map(m, o)),
            callee,
            callee_abi,
            destination: (match destination {
                Some((p, t2)) => Some((place_map(m, p), t2)),
                None => None,
            }),
            cleanup,
        },
        TerminatorV::Drop { place, target, unwind } => TerminatorV::Drop {
            place: place_map(m, place),
            target,
            unwind,
        },
        TerminatorV::DropAndReplace { place, value, target, unwind } => TerminatorV::DropAndReplace {
            place: place_map(m, place),
            value: operand_map(m, value),
            target,
            unwind,
        },
        TerminatorV::Assert { cond, expected, target, cleanup } => TerminatorV::Assert {
            cond: operand_map(m, cond),
            expected,
            target,
            cleanup,
        },
        TerminatorV::Yield { value, resume, resume_arg, drop } => TerminatorV::Yield {
            value: operand_map(m, value),
            resume,
            resume_arg: place_map(m, resume_arg),
            drop,
        },
        _ => t,
    }
}

/// A debug-info value with every local occurrence replaced.
pub open spec fn debug_map(m: Seq<usize>, d: DebugContentsV) -> DebugContentsV {
    match d {
        DebugContentsV::Place(p) => DebugContentsV::Place(place_map(m, p)),
        DebugContentsV::Const(c) => DebugContentsV::Const(c),
    }
}

/// A whole body with every local occurrence replaced; declarations are not
/// touched.
pub open spec fn body_map_locals(m: Seq<usize>, b: BodyV) -> BodyV {
    BodyV {
        blocks: b.blocks.map_values(
            |bb: BasicBlockV| BasicBlockV {
                statements: bb.statements.map_values(|s: StatementV| stmt_map(m, s)),
                terminator: term_map(m, bb.terminator),
                is_cleanup: bb.is_cleanup,
            },
        ),
        locals: b.locals,
        arg_count: b.arg_count,
        debug: b.debug.map_values(
            |d: VarDebugInfoV| VarDebugInfoV { name: d.name, value: debug_map(m, d.value) },
        ),
        phase: b.phase,
        source: b.source,
    }
}

/// Rewrites the locals of a place in place.
fn apply_place(m: &Vec<usize>, p: &mut Place)
    ensures
        final (p)@ == place_map(m@, old(p)@),
{
    let ghost p0 = old(p)@;
    if p.local < m.len() {
        p.local = m[p.local];
    }
    let n = p.projection.len();
    let mut k: usize = 0;
    while k < n
        invariant
            n == p.projection@.len(),
            k <= n,
            p.local == lookup(m@, p0.local),
            p.projection@.len() == p0.projection.len(),
            forall|x: int| 0 <= x < k ==> #[trigger] p.projection@[x] == proj_map(
                m@,
                p0.projection[x],
            ),
            forall|x: int| k <= x < n ==> #[trigger] p.projection@[x] == p0.projection[x],
        decreases n - k,
    {
        let e = p.projection[k];
        match e.kind {
            ProjKind::Index(l) => {
                let nl = if l < m.len() {
                    m[l]
                } else {
                    l
                };
                p.projection[k] = ProjElem { kind: ProjKind::Index(nl), ty: e.ty };
            },
            _ => {},
        }
        k = k + 1;
    }
    proof {
        assert(p@.projection =~= p0.projection.map_values(|e: ProjElem| proj_map(m@, e)));
        assert(p@ =~= place_map(m@, p0));
    }
}

/// Rewrites the locals of an operand in place.
fn apply_operand(m: &Vec<usize>, o: &mut Operand)
    ensures
        final (o)@ == operand_map(m@, old(o)@),
{
    match o {
        Operand::Copy(p) => apply_place(m, p),
        Operand::Move(p) => apply_place(m, p),
        Operand::Constant(_) => {},
    }
}

/// Rewrites the locals of an rvalue in place.
fn apply_rvalue(m: &Vec<usize>, r: &mut Rvalue)
    ensures
        final (r)@ == rvalue_map(m@, old(r)@),
{
    let ghost r0 = old(r)@;
    match r {
        Rvalue::Use(o) => apply_operand(m, o),
        Rvalue::Ref(_, p) => apply_place(m, p),
        Rvalue::AddressOf(_, p) => apply_place(m, p),
        Rvalue::Discriminant(p) => apply_place(m, p),
        Rvalue::UnaryOp(o) => apply_operand(m, o),
        Rvalue::BinaryOp(a, b) => {
            apply_operand(m, a);
            apply_operand(m, b);
        },
        Rvalue::Cast(o) => apply_operand(m, o),
        Rvalue::Aggregate(os) => {
            let ghost os0 = os@.map_values(|o: Operand| o@);
            let n = os.len();
            let mut k: usize = 0;
            while k < n
                invariant
                    n == os@.len(),
                    os0.len() == n,
                    k <= n,
                    forall|x: int| 0 <= x < k ==> (#[trigger] os@[x])@ == operand_map(m@, os0[x]),
                    forall|x: int| k <= x < n ==> (#[trigger] os@[x])@ == os0[x],
                decreases n - k,
            {
                apply_operand(m, &mut os[k]);
                k = k + 1;
            }
            proof {
                assert(os@.map_values(|o: Operand| o@) =~= os0.map_values(
                    |o: OperandV| operand_map(m@, o),
                ));
                assert(r@ =~= rvalue_map(m@, r0));
            }
        },
    }
}

/// Rewrites the locals of a statement in place.
pub fn apply_statement(m: &Vec<usize>, s: &mut Statement)
    ensures
        final (s)@ == stmt_map(m@, old(s)@),
{
    match s {
        Statement::Assign(p, r) => {
            apply_place(m, p);
            apply_rvalue(m, r);
        },
        Statement::SetDiscriminant(p, _) => apply_place(m, p),
        Statement::Deinit(p) => apply_place(m, p),
        Statement::CopyNonOverlapping(a, b, c) => {
            apply_operand(m, a);
            apply_operand(m, b);
            apply_operand(m, c);
        },
        Statement::Retag(p) => apply_place(m, p),
        Statement::StorageLive(l) => {
            if *l < m.len() {
                *l = m[*l];
            }
        },
        Statement::StorageDead(l) => {
            if *l < m.len() {
                *l = m[*l];
            }
        },
        Statement::FakeRead(p) => apply_place(m, p),
        Statement::AscribeUserType(p) => apply_place(m, p),
        Statement::Coverage => {},
        Statement::Nop => {},
    }
}

/// Rewrites the locals of a terminator in place.
pub fn apply_terminator(m: &Vec<usize>, t: &mut Terminator)
    ensures
        final (t)@ == term_map(m@, old(t)@),
{
    let ghost t0 = old(t)@;
    match t {
        Terminator::SwitchInt { discr, .. } => apply_operand(m, discr),
        Terminator::Call { func, args, destination, .. } => {
            apply_operand(m, func);
            let ghost args0 = args@.map_values(|o: Operand| o@);
            let n = args.len();
            let mut k: usize = 0;
            while k < n
                invariant
                    n == args@.len(),
                    args0.len() == n,
                    k <= n,
                    forall|x: int| 0 <= x < k ==> (#[trigger] args@[x])@ == operand_map(
                        m@,
                        args0[x],
                    ),
                    forall|x: int| k <= x < n ==> (#[trigger] args@[x])@ == args0[x],
                decreases n - k,
            {
                apply_operand(m, &mut args[k]);
                k = k + 1;
            }
            proof {
                assert(args@.map_values(|o: Operand| o@) =~= args0.map_values(
                    |o: OperandV| operand_map(m@, o),
                ));
            }
            match destination {
                Some(pair) => {
                    apply_place(m, &mut pair.0);
                },
                None => {},
            }
            proof {
                assert(t@ =~= term_map(m@, t0));
            }
        },
        Terminator::Drop { place, .. } => apply_place(m, place),
        Terminator::DropAndReplace { place, value, .. } => {
            apply_place(m, place);
            apply_operand(m, value);
        },
        Terminator::Assert { cond, .. } => apply_operand(m, cond),
        Terminator::Yield { value, resume_arg, .. } => {
            apply_operand(m, value);
            apply_place(m, resume_arg);
        },
        _ => {},
    }
}

/// Rewrites every local occurrence of the body through the table: the shared
/// renaming traversal. Declarations are left alone.
pub fn map_locals(m: &Vec<usize>, body: &mut Body)
    ensures
        final (body)@ == body_map_locals(m@, old(body)@),
{
    let ghost b0 = old(body)@;
    let n = body.basic_blocks.len();
    let mut i: usize = 0;
    while i < n
        invariant
            n == b0.blocks.len(),
            body@.blocks.len() == n,
            body.basic_blocks@.len() == n,
            i <= n,
            forall|m2: int| 0 <= m2 < i ==> #[trigger] body@.blocks[m2] == body_map_locals(
                m@,
                b0,
            ).blocks[m2],
            forall|m2: int| i <= m2 < n ==> #[trigger] body@.blocks[m2] == b0.blocks[m2],
            body@.locals == b0.locals,
            body@.arg_count == b0.arg_count,
            body@.debug == b0.debug,
            body@.phase == b0.phase,
            body@.source == b0.source,
        decreases n - i,
    {
        let mut bb = body.take_block(i);
        let ghost bbv = bb@;
        proof {
            assert(bbv == b0.blocks[i as int]);
        }
        let sn = bb.statements.len();
        let ghost sv = bb.statements@.map_values(|s: Statement| s@);
        let mut k: usize = 0;
        while k < sn
            invariant
                sn == bb.statements@.len(),
                sv.len() == sn,
                k <= sn,
                forall|x: int| 0 <= x < k ==> (#[trigger] bb.statements@[x])@ == stmt_map(
                    m@,
                    sv[x],
                ),
                forall|x: int| k <= x < sn ==> (#[trigger] bb.statements@[x])@ == sv[x],
                bb.terminator@ == bbv.terminator,
                bb.is_cleanup == bbv.is_cleanup,
            decreases sn - k,
        {
            apply_statement(m, &mut bb.statements[k]);
            k = k + 1;
        }
        apply_terminator(m, &mut bb.terminator);
        proof {
            assert(bb@.statements =~= bbv.statements.map_values(|s: StatementV| stmt_map(m@, s)));
            assert(bb@ =~= body_map_locals(m@, b0).blocks[i as int]);
            assert(body.basic_blocks@.len() == body@.blocks.len());
        }
        body.put_block(i, bb);
        proof {
            assert(body.basic_blocks@.len() == body@.blocks.len());
        }
        i = i + 1;
    }
    // Debug info entries observe locals too.
    let mut dvec: Vec<crate::ir::VarDebugInfo> = Vec::new();
    core::mem::swap(&mut body.var_debug_info, &mut dvec);
    let ghost dv = b0.debug;
    let dn = dvec.len();
    let mut out: Vec<crate::ir::VarDebugInfo> = Vec::new();
    let mut j: usize = 0;
    proof {
        assert(dvec@.map_values(|d: crate::ir::VarDebugInfo| d@) == dv);
    }
    while j < dn
        invariant
            dv == b0.debug,
            dn == dv.len(),
            dvec@.map_values(|d: crate::ir::VarDebugInfo| d@) == dv.skip(j as int),
            j <= dn,
            out@.map_values(|d: crate::ir::VarDebugInfo| d@) == body_map_locals(
                m@,
                b0,
            ).debug.take(j as int),
        decreases dn - j,
    {
        let ghost dbefore = dvec@;
        proof {
            assert(dbefore.map_values(|d: crate::ir::VarDebugInfo| d@).len() == dbefore.len());
        }
        let entry = dvec.remove(0);
        proof {
            assert(dbefore.map_values(|d: crate::ir::VarDebugInfo| d@)[0] == entry@);
            assert(entry@ == dv[j as int]);
            assert forall|x: int| 0 <= x < dvec@.len() implies (#[trigger] dvec@[x])@ == dv.skip(
                j + 1,
            )[x] by {
                assert(dvec@[x] == dbefore[x + 1]);
                assert(dbefore.map_values(|d: crate::ir::VarDebugInfo| d@)[x + 1] == dv.skip(
                    j as int,
                )[x + 1]);
            }
            assert(dvec@.map_values(|d: crate::ir::VarDebugInfo| d@) =~= dv.skip(j + 1));
        }
        let crate::ir::VarDebugInfo { name, value } = entry;
        let newval = match value {
            DebugContents::Place(p) => {
                let mut p2 = p;
                apply_place(m, &mut p2);
                DebugContents::Place(p2)
            },
            other => other,
        };
        let newentry = crate::ir::VarDebugInfo { name, value: newval };
        proof {
            assert(newentry@ =~~= body_map_locals(m@, b0).debug[j as int]);
        }
        let ghost obefore = out@;
        out.push(newentry);
        proof {
            assert(out@.map_values(|d: crate::ir::VarDebugInfo| d@) =~= obefore.map_values(
                |d: crate::ir::VarDebugInfo| d@,
            ).push(newentry@));
            assert(body_map_locals(m@, b0).debug.take(j + 1) =~= body_map_locals(
                m@,
                b0,
            ).debug.take(j as int).push(body_map_locals(m@, b0).debug[j as int]));
            assert(out@.map_values(|d: crate::ir::VarDebugInfo| d@) =~= body_map_locals(
                m@,
                b0,
            ).debug.take(j + 1));
        }
        j = j + 1;
    }
    body.var_debug_info = out;
    proof {
        assert(body_map_locals(m@, b0).debug.take(dn as int) =~= body_map_locals(m@, b0).debug);
    }
    proof {
        assert(body@.debug =~= body_map_locals(m@, b0).debug);
        assert(body@ =~= body_map_locals(m@, b0));
    }
}

// ---------------------------------------------------------------------------
// Dead-local elimination.
// ---------------------------------------------------------------------------

/// All local occurrences of a run of statements, in order.
pub open spec fn stmts_uses(ss: Seq<StatementV>) -> Seq<(usize, crate::visit::UseCtx)>
    decreases ss.len(),
{
    if ss.len() == 0 {
        Seq::<(usize, crate::visit::UseCtx)>::empty()
    } else {
        stmts_uses(ss.drop_last()) + crate::visit::stmt_uses(ss.last())
    }
}

/// All local occurrences of one block.
pub open spec fn block_uses(bb: BasicBlockV) -> Seq<(usize, crate::visit::UseCtx)> {
    stmts_uses(bb.statements) + crate::visit::term_uses(bb.terminator)
}

/// All local occurrences of a run of blocks.
pub open spec fn blocks_uses(bs: Seq<BasicBlockV>) -> Seq<(usize, crate::visit::UseCtx)>
    decreases bs.len(),
{
    if bs.len() == 0 {
        Seq::<(usize, crate::visit::UseCtx)>::empty()
    } else {
        blocks_uses(bs.drop_last()) + block_uses(bs.last())
    }
}

/// All local occurrences of the debug-info entries.
pub open spec fn debug_all_uses(ds: Seq<VarDebugInfoV>) -> Seq<(usize, crate::visit::UseCtx)>
    decreases ds.len(),
{
    if ds.len() == 0 {
        Seq::<(usize, crate::visit::UseCtx)>::empty()
    } else {
        debug_all_uses(ds.drop_last()) + (match ds.last().value {
            DebugContentsV::Place(p) => crate::visit::place_uses(p, crate::visit::use_none()),
            DebugContentsV::Const(_) => Seq::<(usize, crate::visit::UseCtx)>::empty(),
        })
    }
}

/// Every local occurrence of the whole body, debug info included.
pub open spec fn all_uses(b: BodyV) -> Seq<(usize, crate::visit::UseCtx)> {
    blocks_uses(b.blocks) + debug_all_uses(b.debug)
}

/// Whether a local must be kept: the return slot and the arguments always,
/// and any local that occurs anywhere in the body, storage markers and debug
/// info included.
pub open spec fn local_used(b: BodyV, l: usize) -> bool {
    l <= b.arg_count || exists|x: int| 0 <= x < all_uses(b).len() && (#[trigger] all_uses(b)[x]).0 == l
}

/// How many kept locals have an id below `i`.
pub open spec fn num_used_below(b: BodyV, i: int) -> nat
    decreases i,
{
    if i <= 0 {
        0
    } else {
        num_used_below(b, i - 1) + (if local_used(b, (i - 1) as usize) {
            1nat
        } else {
            0nat
        })
    }
}

/// The replacement table of dead-local elimination: each local's new id is
/// the number of kept locals before it.
pub open spec fn local_renum(b: BodyV) -> Seq<usize> {
    Seq::new(b.locals.len(), |l: int| num_used_below(b, l) as usize)
}

/// The kept declarations among `b.locals[i..]`, in order.
pub open spec fn compact_locals(b: BodyV, i: int) -> Seq<crate::ir::LocalDecl>
    decreases b.locals.len() - i,
{
    if i < 0 || i >= b.locals.len() {
        Seq::<crate::ir::LocalDecl>::empty()
    } else {
        let rest = compact_locals(b, i + 1);
        if local_used(b, i as usize) {
            seq![b.locals[i]] + rest
        } else {
            rest
        }
    }
}

/// What dead-local elimination produces: unused declarations dropped, every
/// occurrence renumbered to the compacted ids.
pub open spec fn simplify_locals_spec(b: BodyV) -> BodyV {
    BodyV {
        blocks: body_map_locals(local_renum(b), b).blocks,
        locals: compact_locals(b, 0),
        arg_count: b.arg_count,
        debug: body_map_locals(local_renum(b), b).debug,
        phase: b.phase,
        source: b.source,
    }
}

/// Removes locals that nothing in the body mentions, renumbering the rest
/// consistently and fixing up every reference.
pub fn simplify_locals(body: &mut Body)
    requires
        crate::ir::body_wf(old(body)@),
    ensures
        final (body)@ == simplify_locals_spec(old(body)@),
        crate::ir::body_wf(final (body)@),
{
    let ghost b0 = old(body)@;
    // Gather every local occurrence.
    let mut uses: Vec<(usize, crate::visit::UseCtx)> = Vec::new();
    let n = body.basic_blocks.len();
    let mut i: usize = 0;
    proof {
        assert(blocks_uses(b0.blocks.take(0)) =~= Seq::<(usize, crate::visit::UseCtx)>::empty());
        assert(uses@ =~= blocks_uses(b0.blocks.take(0)));
    }
    while i < n
        invariant
            b0 == old(body)@,
            body@ == b0,
            n == body.basic_blocks@.len(),
            i <= n,
            uses@ == blocks_uses(b0.blocks.take(i as int)),
        decreases n - i,
    {
        let ghost ubase = uses@;
        let bb = &body.basic_blocks[i];
        proof {
            assert(body@.blocks[i as int] == body.basic_blocks@[i as int]@);
        }
        let ghost sv = b0.blocks[i as int].statements;
        let sn = bb.statements.len();
        let mut k: usize = 0;
        proof {
            assert(stmts_uses(sv.take(0)) =~= Seq::<(usize, crate::visit::UseCtx)>::empty());
            assert(uses@ =~= ubase + stmts_uses(sv.take(0)));
        }
        while k < sn
            invariant
                b0 == old(body)@,
                body@ == b0,
                n == body.basic_blocks@.len(),
                i < n,
                sv == b0.blocks[i as int].statements,
                sn == sv.len(),
                sn == body.basic_blocks@[i as int].statements@.len(),
                k <= sn,
                uses@ == ubase + stmts_uses(sv.take(k as int)),
            decreases sn - k,
        {
            proof {
                assert(sv.take(k + 1).drop_last() =~= sv.take(k as int));
                assert(sv.take(k + 1).last() == sv[k as int]);
                assert(body@.blocks[i as int] == body.basic_blocks@[i as int]@);
                assert(body.basic_blocks@[i as int].statements@[k as int]@ == sv[k as int]);
            }
            crate::visit::collect_stmt_uses(&mut uses, &body.basic_blocks[i].statements[k]);
            proof {
                assert(uses@ =~= ubase + stmts_uses(sv.take(k + 1)));
            }
            k = k + 1;
        }
        proof {
            assert(sv.take(sn as int) =~= sv);
            assert(body@.blocks[i as int] == body.basic_blocks@[i as int]@);
        }
        crate::visit::collect_term_uses(&mut uses, &body.basic_blocks[i].terminator);
        proof {
            assert(b0.blocks.take(i + 1).drop_last() =~= b0.blocks.take(i as int));
            assert(b0.blocks.take(i + 1).last() == b0.blocks[i as int]);
            assert(uses@ =~= blocks_uses(b0.blocks.take(i + 1)));
        }
        i = i + 1;
    }
    proof {
        assert(b0.blocks.take(n as int) =~= b0.blocks);
    }
    let dn = body.var_debug_info.len();
    let mut j: usize = 0;
    proof {
        assert(debug_all_uses(b0.debug.take(0)) =~= Seq::<(usize, crate::visit::UseCtx)>::empty());
        assert(uses@ =~= blocks_uses(b0.blocks) + debug_all_uses(b0.debug.take(0)));
    }
    while j < dn
        invariant
            b0 == old(body)@,
            body@ == b0,
            dn == body.var_debug_info@.len(),
            j <= dn,
            uses@ == blocks_uses(b0.blocks) + debug_all_uses(b0.debug.take(j as int)),
        decreases dn - j,
    {
        proof {
            assert(b0.debug.take(j + 1).drop_last() =~= b0.debug.take(j as int));
            assert(b0.debug.take(j + 1).last() == b0.debug[j as int]);
            assert(body@.debug[j as int] == body.var_debug_info@[j as int]@);
        }
        match &body.var_debug_info[j].value {
            DebugContents::Place(p) => {
                let c = crate::visit::UseCtx { is_use: false, mutating: false, assignment: false };
                crate::visit::push_place_uses(&mut uses, p, c);
            },
            DebugContents::Const(_) => {},
        }
        proof {
            assert(uses@ =~= blocks_uses(b0.blocks) + debug_all_uses(b0.debug.take(j + 1)));
        }
        j = j + 1;
    }
    proof {
        assert(b0.debug.take(dn as int) =~= b0.debug);
        assert(uses@ == all_uses(b0));
    }
    // Mark the kept locals.
    let ln = body.local_decls.len();
    let mut used: Vec<bool> = Vec::new();
    let mut l: usize = 0;
    while l < ln
        invariant
            b0 == old(body)@,
            body@ == b0,
            ln == body.local_decls@.len(),
            l <= ln,
            used@.len() == l,
            forall|x: int| 0 <= x < l ==> (#[trigger] used@[x] <==> x <= b0.arg_count),
        decreases ln - l,
    {
        used.push(l <= body.arg_count);
        l = l + 1;
    }
    let un = uses.len();
    let mut x: usize = 0;
    while x < un
        invariant
            b0 == old(body)@,
            body@ == b0,
            ln == body.local_decls@.len(),
            ln == b0.locals.len(),
            un == uses@.len(),
            uses@ == all_uses(b0),
            x <= un,
            used@.len() == ln,
            forall|y: int|
                0 <= y < ln ==> (#[trigger] used@[y] <==> (y <= b0.arg_count || exists|e: int|
                    0 <= e < x && (#[trigger] all_uses(b0)[e]).0 == y)),
        decreases un - x,
    {
        let (ul, _) = uses[x];
        if ul < ln && !used[ul] {
            used[ul] = true;
        }
        x = x + 1;
    }
    proof {
        assert forall|y: int| 0 <= y < ln implies (#[trigger] used@[y] <==> local_used(
            b0,
            y as usize,
        )) by {
            if used@[y] {
            } else {
                if local_used(b0, y as usize) {
                    assert(y > b0.arg_count);
                    let e = choose|e: int|
                        0 <= e < all_uses(b0).len() && (#[trigger] all_uses(b0)[e]).0
                            == y as usize;
                    assert(0 <= e < un && all_uses(b0)[e].0 == y as usize);
                    assert(false);
                }
            }
        }
    }
    // A used local beyond the declaration table would keep its id; the
    // declarations cover every occurring local in a well-formed body, and
    // occurrences beyond the table are mapped to themselves by the lookup.
    // Build the replacement table.
    let mut repl: Vec<usize> = Vec::new();
    let mut cnt: usize = 0;
    let mut l: usize = 0;
    proof {
        crate::simplify::lemma_nrb_mono(b0.blocks, 0, 0);
    }
    while l < ln
        invariant
            b0 == old(body)@,
            body@ == b0,
            ln == b0.locals.len(),
            used@.len() == ln,
            forall|y: int| 0 <= y < ln ==> (#[trigger] used@[y] <==> local_used(b0, y as usize)),
            l <= ln,
            repl@.len() == l,
            cnt == num_used_below(b0, l as int),
            cnt <= l,
            forall|y: int| 0 <= y < l ==> #[trigger] repl@[y] == num_used_below(b0, y) as usize,
        decreases ln - l,
    {
        repl.push(cnt);
        if used[l] {
            cnt = cnt + 1;
        }
        l = l + 1;
    }
    // Drop the unused declarations.
    let mut newdecls: Vec<crate::ir::LocalDecl> = Vec::new();
    let mut l: usize = 0;
    proof {
        assert(newdecls@ + compact_locals(b0, 0) =~= compact_locals(b0, 0));
    }
    while l < ln
        invariant
            b0 == old(body)@,
            body@ == b0,
            ln == b0.locals.len(),
            ln == body.local_decls@.len(),
            used@.len() == ln,
            forall|y: int| 0 <= y < ln ==> (#[trigger] used@[y] <==> local_used(b0, y as usize)),
            l <= ln,
            newdecls@ + compact_locals(b0, l as int) == compact_locals(b0, 0),
        decreases ln - l,
    {
        if used[l] {
            newdecls.push(body.local_decls[l]);
            proof {
                assert(compact_locals(b0, l as int) == seq![b0.locals[l as int]] + compact_locals(
                    b0,
                    l + 1,
                ));
                assert(newdecls@ + compact_locals(b0, l + 1) =~= compact_locals(b0, 0));
            }
        } else {
            proof {
                assert(compact_locals(b0, l as int) == compact_locals(b0, l + 1));
            }
        }
        l = l + 1;
    }
    proof {
        assert(compact_locals(b0, ln as int) =~= Seq::<crate::ir::LocalDecl>::empty());
        assert(newdecls@ =~= compact_locals(b0, 0));
        assert(repl@ =~= local_renum(b0));
    }
    // Renumber every occurrence, then install the compacted declarations.
    map_locals(&repl, body);
    body.local_decls = newdecls;
    proof {
        assert(body@ =~= simplify_locals_spec(b0));
        // The entry block and the block structure are untouched; the
        // argument locals survive, so well-formedness carries over.
        assert(num_used_below(b0, 1 + b0.arg_count) == 1 + b0.arg_count) by {
            lemma_nub_prefix(b0, 1 + b0.arg_count as int);
        }
        crate::simplify::lemma_nrb_mono(b0.blocks, 0, 0);
        lemma_nub_mono(b0, 1 + b0.arg_count as int, ln as int);
        assert(body@.locals.len() >= 1 + b0.arg_count) by {
            lemma_compact_locals_len(b0, 0);
        }
        assert forall|m2: int| 0 <= m2 < body@.blocks.len() implies crate::ir::term_ok(
            #[trigger] body@.blocks[m2].terminator,
            body@.blocks,
        ) by {
            assert(body@.blocks[m2].terminator == term_map(local_renum(b0), b0.blocks[m2].terminator));
            lemma_term_map_edges(local_renum(b0), b0.blocks[m2].terminator);
            crate::ir::lemma_term_ok_same_shape(
                b0.blocks[m2].terminator,
                b0.blocks,
                body@.blocks,
            );
        }
    }
}

/// The first `i` locals are all kept when they are the return slot and the
/// arguments.
proof fn lemma_nub_prefix(b: BodyV, i: int)
    requires
        0 <= i <= b.arg_count + 1,
    ensures
        num_used_below(b, i) == i,
    decreases i,
{
    if i > 0 {
        lemma_nub_prefix(b, i - 1);
    }
}

/// Kept-local counting is monotone.
proof fn lemma_nub_mono(b: BodyV, i: int, j: int)
    requires
        i <= j,
    ensures
        num_used_below(b, i) <= num_used_below(b, j),
    decreases j - i,
{
    if i < j {
        lemma_nub_mono(b, i, j - 1);
    }
}

/// There are as many compacted declarations as kept locals.
proof fn lemma_compact_locals_len(b: BodyV, i: int)
    requires
        0 <= i <= b.locals.len(),
    ensures
        compact_locals(b, i).len() == num_used_below(b, b.locals.len() as int) - num_used_below(
            b,
            i,
        ),
    decreases b.locals.len() - i,
{
    if i < b.locals.len() {
        lemma_compact_locals_len(b, i + 1);
    }
}

/// Renaming locals leaves a terminator's control-flow edges alone.
pub proof fn lemma_term_map_edges(m: Seq<usize>, t: TerminatorV)
    ensures
        term_map(m, t).succs() =~= t.succs(),
        term_map(m, t).unwind() == t.unwind(),
{
}

} // verus!
