//! Enumeration of local-variable occurrences: every statement and terminator
//! yields the locals it touches, each classified by how it is touched. The
//! passes that count uses, look for reads, or rename locals all build on this
//! one traversal.

use vstd::prelude::*;

use crate::ir::{
    Operand, OperandV, Place, PlaceV, ProjKind, Rvalue, RvalueV, Statement, StatementV,
    Terminator, TerminatorV,
};

verus! {

/// How one occurrence of a local touches it.
#[derive(Clone, Copy, PartialEq, Eq, Structural, Debug)]
pub struct UseCtx {
    /// The occurrence reads or writes the local at runtime; storage markers,
    /// type ascriptions and debug info do not.
    pub is_use: bool,
    /// The occurrence may mutate the local.
    pub mutating: bool,
    /// The occurrence assigns the whole local: the left-hand side of an
    /// assignment, a call destination, or a yield resume slot.
    pub assignment: bool,
}

/// The classification of a plain read.
pub open spec fn use_read() -> UseCtx {
    UseCtx { is_use: true, mutating: false, assignment: false }
}

/// The classification of a whole-local assignment.
pub open spec fn use_store() -> UseCtx {
    UseCtx { is_use: true, mutating: true, assignment: true }
}

/// The classification of a mutation that is not a whole-local assignment.
pub open spec fn use_mutate() -> UseCtx {
    UseCtx { is_use: true, mutating: true, assignment: false }
}

/// The classification of a non-use occurrence (storage markers, type
/// ascriptions, debug info).
pub open spec fn use_none() -> UseCtx {
    UseCtx { is_use: false, mutating: false, assignment: false }
}

/// How the base local of a place is classified, given how the whole place is
/// used: through a projection, an assignment degrades to a bare mutation and
/// a read stays a read, while a non-use stays a non-use.
pub open spec fn through_projection(c: UseCtx) -> UseCtx {
    if c.mutating {
        use_mutate()
    } else if c.is_use {
        use_read()
    } else {
        c
    }
}

/// The locals read by the index projections of a place.
pub open spec fn index_uses(projection: Seq<crate::ir::ProjElem>) -> Seq<(usize, UseCtx)>
    decreases projection.len(),
{
    if projection.len() == 0 {
        Seq::<(usize, UseCtx)>::empty()
    } else {
        index_uses(projection.drop_last()) + (match projection.last().kind {
            ProjKind::Index(l) => seq![(l, use_read())],
            _ => Seq::<(usize, UseCtx)>::empty(),
        })
    }
}

/// The locals a place touches, its base local classified by `base`.
pub open spec fn place_uses(p: PlaceV, base: UseCtx) -> Seq<(usize, UseCtx)> {
    seq![
        (
            p.local,
            if p.projection.len() > 0 {
                through_projection(base)
            } else {
                base
            },
        ),
    ] + index_uses(p.projection)
}

/// The locals an operand reads.
pub open spec fn operand_uses(o: OperandV) -> Seq<(usize, UseCtx)> {
    match o {
        OperandV::Copy(p) => place_uses(p, use_read()),
        OperandV::Move(p) => place_uses(p, use_read()),
        OperandV::Constant(_) => Seq::<(usize, UseCtx)>::empty(),
    }
}

/// The locals a sequence of operands reads.
pub open spec fn operands_uses(os: Seq<OperandV>) -> Seq<(usize, UseCtx)>
    decreases os.len(),
{
    if os.len() == 0 {
        Seq::<(usize, UseCtx)>::empty()
    } else {
        operands_uses(os.drop_last()) + operand_uses(os.last())
    }
}

/// The locals an rvalue touches.
pub open spec fn rvalue_uses(r: RvalueV) -> Seq<(usize, UseCtx)> {
    match r {
        RvalueV::Use(o) => operand_uses(o),
        RvalueV::Ref(m, p) => place_uses(p, UseCtx { is_use: true, mutating: m, assignment: false }),
        RvalueV::AddressOf(m, p) => place_uses(
            p,
            UseCtx { is_use: true, mutating: m, assignment: false },
        ),
        RvalueV::Discriminant(p) => place_uses(p, use_read()),
        RvalueV::UnaryOp(o) => operand_uses(o),
        RvalueV::BinaryOp(a, b) => operand_uses(a) + operand_uses(b),
        RvalueV::Cast(o) => operand_uses(o),
        RvalueV::Aggregate(os) => operands_uses(os),
    }
}

/// The locals a statement touches.
pub open spec fn stmt_uses(s: StatementV) -> Seq<(usize, UseCtx)> {
    match s {
        StatementV::Assign(p, r) => place_uses(p, use_store()) + rvalue_uses(r),
        StatementV::SetDiscriminant(p, _) => place_uses(p, use_mutate()),
        StatementV::Deinit(p) => place_uses(p, use_mutate()),
        StatementV::CopyNonOverlapping(a, b, c) => operand_uses(a) + operand_uses(b)
            + operand_uses(c),
        StatementV::Retag(p) => place_uses(p, use_mutate()),
        StatementV::StorageLive(l) => seq![(l, use_none())],
        StatementV::StorageDead(l) => seq![(l, use_none())],
        StatementV::FakeRead(p) => place_uses(p, use_read()),
        StatementV::AscribeUserType(p) => place_uses(p, use_none()),
        StatementV::Coverage => Seq::<(usize, UseCtx)>::empty(),
        StatementV::Nop => Seq::<(usize, UseCtx)>::empty(),
    }
}

/// The locals a terminator touches. A bare `Return` touches nothing: the
/// return slot's use there is implicit.
pub open spec fn term_uses(t: TerminatorV) -> Seq<(usize, UseCtx)> {
    match t {
        TerminatorV::SwitchInt { discr, .. } => operand_uses(discr),
        TerminatorV::Call { func, args, destination, .. } => operand_uses(func) + operands_uses(
            args,
        ) + (match destination {
            Some((p, _)) => place_uses(p, use_store()),
            None => Seq::<(usize, UseCtx)>::empty(),
        }),
        TerminatorV::Drop { place, .. } => place_uses(place, use_mutate()),
        TerminatorV::DropAndReplace { place, value, .. } => place_uses(place, use_mutate())
            + operand_uses(value),
        TerminatorV::Assert { cond, .. } => operand_uses(cond),
        TerminatorV::Yield { value, resume_arg, .. } => operand_uses(value) + place_uses(
            resume_arg,
            use_store(),
        ),
        _ => Seq::<(usize, UseCtx)>::empty(),
    }
}

/// Appends the uses of a place to the collector.
pub fn push_place_uses(out: &mut Vec<(usize, UseCtx)>, p: &Place, base: UseCtx)
    ensures
        final (out)@ == old(out)@ + place_uses(p@, base),
{
    let ghost out0 = old(out)@;
    let c = if p.projection.len() > 0 {
        if base.mutating {
            UseCtx { is_use: true, mutating: true, assignment: false }
        } else if base.is_use {
            UseCtx { is_use: true, mutating: false, assignment: false }
        } else {
            base
        }
    } else {
        base
    };
    out.push((p.local, c));
    let ghost pre = out@;
    proof {
        assert(pre =~= out0 + seq![
            (
                p@.local,
                if p@.projection.len() > 0 {
                    through_projection(base)
                } else {
                    base
                },
            ),
        ]);
        assert(index_uses(p.projection@.take(0)) =~= Seq::<(usize, UseCtx)>::empty());
        assert(out@ =~= pre + index_uses(p.projection@.take(0)));
    }
    let n = p.projection.len();
    let mut k: usize = 0;
    while k < n
        invariant
            n == p.projection@.len(),
            k <= n,
            out@ == pre + index_uses(p.projection@.take(k as int)),
        decreases n - k,
    {
        proof {
            assert(p.projection@.take(k + 1).drop_last() =~= p.projection@.take(k as int));
            assert(p.projection@.take(k + 1).last() == p.projection@[k as int]);
        }
        match p.projection[k].kind {
            ProjKind::Index(l) => {
                out.push((l, UseCtx { is_use: true, mutating: false, assignment: false }));
                proof {
                    assert(out@ =~= pre + index_uses(p.projection@.take(k + 1)));
                }
            },
            _ => {
                proof {
                    assert(index_uses(p.projection@.take(k + 1)) =~= index_uses(
                        p.projection@.take(k as int),
                    ));
                }
            },
        }
        k = k + 1;
    }
    proof {
        assert(p.projection@.take(n as int) =~= p.projection@);
        assert(out@ =~= out0 + place_uses(p@, base));
    }
}

/// Appends the uses of an operand to the collector.
fn push_operand_uses(out: &mut Vec<(usize, UseCtx)>, o: &Operand)
    ensures
        final (out)@ == old(out)@ + operand_uses(o@),
{
    match o {
        Operand::Copy(p) => push_place_uses(
            out,
            p,
            UseCtx { is_use: true, mutating: false, assignment: false },
        ),
        Operand::Move(p) => push_place_uses(
            out,
            p,
            UseCtx { is_use: true, mutating: false, assignment: false },
        ),
        Operand::Constant(_) => {
            proof {
                assert(old(out)@ + operand_uses(o@) =~= old(out)@);
            }
        },
    }
}

/// Appends the uses of a sequence of operands to the collector.
fn push_operands_uses(out: &mut Vec<(usize, UseCtx)>, os: &Vec<Operand>)
    ensures
        final (out)@ == old(out)@ + operands_uses(os@.map_values(|o: Operand| o@)),
{
    let ghost out0 = old(out)@;
    let ghost osv = os@.map_values(|o: Operand| o@);
    let n = os.len();
    let mut k: usize = 0;
    proof {
        assert(operands_uses(osv.take(0)) =~= Seq::<(usize, UseCtx)>::empty());
        assert(out@ =~= out0 + operands_uses(osv.take(0)));
    }
    while k < n
        invariant
            n == os@.len(),
            osv == os@.map_values(|o: Operand| o@),
            osv.len() == n,
            k <= n,
            out@ == out0 + operands_uses(osv.take(k as int)),
        decreases n - k,
    {
        proof {
            assert(osv.take(k + 1).drop_last() =~= osv.take(k as int));
            assert(osv.take(k + 1).last() == osv[k as int]);
            assert(os@[k as int]@ == osv[k as int]);
        }
        push_operand_uses(out, &os[k]);
        proof {
            assert(out@ =~= out0 + operands_uses(osv.take(k + 1)));
        }
        k = k + 1;
    }
    proof {
        assert(osv.take(n as int) =~= osv);
    }
}

/// Appends the uses of an rvalue to the collector.
fn push_rvalue_uses(out: &mut Vec<(usize, UseCtx)>, r: &Rvalue)
    ensures
        final (out)@ == old(out)@ + rvalue_uses(r@),
{
    match r {
        Rvalue::Use(o) => push_operand_uses(out, o),
        Rvalue::Ref(m, p) => push_place_uses(
            out,
            p,
            UseCtx { is_use: true, mutating: *m, assignment: false },
        ),
        Rvalue::AddressOf(m, p) => push_place_uses(
            out,
            p,
            UseCtx { is_use: true, mutating: *m, assignment: false },
        ),
        Rvalue::Discriminant(p) => push_place_uses(
            out,
            p,
            UseCtx { is_use: true, mutating: false, assignment: false },
        ),
        Rvalue::UnaryOp(o) => push_operand_uses(out, o),
        Rvalue::BinaryOp(a, b) => {
            let ghost out0 = old(out)@;
            push_operand_uses(out, a);
            push_operand_uses(out, b);
            proof {
                assert(out@ =~= out0 + rvalue_uses(r@));
            }
        },
        Rvalue::Cast(o) => push_operand_uses(out, o),
        Rvalue::Aggregate(os) => push_operands_uses(out, os),
    }
}

/// The uses of one statement, in enumeration order.
pub fn collect_stmt_uses(out: &mut Vec<(usize, UseCtx)>, s: &Statement)
    ensures
        final (out)@ == old(out)@ + stmt_uses(s@),
{
    let ghost out0 = old(out)@;
    match s {
        Statement::Assign(p, r) => {
            push_place_uses(out, p, UseCtx { is_use: true, mutating: true, assignment: true });
            push_rvalue_uses(out, r);
            proof {
                assert(out@ =~= out0 + stmt_uses(s@));
            }
        },
        Statement::SetDiscriminant(p, _) => {
            push_place_uses(out, p, UseCtx { is_use: true, mutating: true, assignment: false });
        },
        Statement::Deinit(p) => {
            push_place_uses(out, p, UseCtx { is_use: true, mutating: true, assignment: false });
        },
        Statement::CopyNonOverlapping(a, b, c) => {
            push_operand_uses(out, a);
            push_operand_uses(out, b);
            push_operand_uses(out, c);
            proof {
                assert(out@ =~= out0 + stmt_uses(s@));
            }
        },
        Statement::Retag(p) => {
            push_place_uses(out, p, UseCtx { is_use: true, mutating: true, assignment: false });
        },
        Statement::StorageLive(l) => {
            out.push((*l, UseCtx { is_use: false, mutating: false, assignment: false }));
            proof {
                assert(out@ =~= out0 + stmt_uses(s@));
            }
        },
        Statement::StorageDead(l) => {
            out.push((*l, UseCtx { is_use: false, mutating: false, assignment: false }));
            proof {
                assert(out@ =~= out0 + stmt_uses(s@));
            }
        },
        Statement::FakeRead(p) => {
            push_place_uses(out, p, UseCtx { is_use: true, mutating: false, assignment: false });
        },
        Statement::AscribeUserType(p) => {
            push_place_uses(out, p, UseCtx { is_use: false, mutating: false, assignment: false });
        },
        Statement::Coverage => {
            proof {
                assert(out@ =~= out0 + stmt_uses(s@));
            }
        },
        Statement::Nop => {
            proof {
                assert(out@ =~= out0 + stmt_uses(s@));
            }
        },
    }
}

/// The uses of one terminator, in enumeration order.
pub fn collect_term_uses(out: &mut Vec<(usize, UseCtx)>, t: &Terminator)
    ensures
        final (out)@ == old(out)@ + term_uses(t@),
{
    let ghost out0 = old(out)@;
    match t {
        Terminator::SwitchInt { discr, .. } => {
            push_operand_uses(out, discr);
        },
        Terminator::Call { func, args, destination, .. } => {
            push_operand_uses(out, func);
            push_operands_uses(out, args);
            match destination {
                Some(pair) => {
                    push_place_uses(
                        out,
                        &pair.0,
                        UseCtx { is_use: true, mutating: true, assignment: true },
                    );
                },
                None => {},
            }
            proof {
                assert(out@ =~= out0 + term_uses(t@));
            }
        },
        Terminator::Drop { place, .. } => {
            push_place_uses(out, place, UseCtx { is_use: true, mutating: true, assignment: false });
        },
        Terminator::DropAndReplace { place, value, .. } => {
            push_place_uses(out, place, UseCtx { is_use: true, mutating: true, assignment: false });
            push_operand_uses(out, value);
            proof {
                assert(out@ =~= out0 + term_uses(t@));
            }
        },
        Terminator::Assert { cond, .. } => {
            push_operand_uses(out, cond);
        },
        Terminator::Yield { value, resume_arg, .. } => {
            push_operand_uses(out, value);
            push_place_uses(
                out,
                resume_arg,
                UseCtx { is_use: true, mutating: true, assignment: true },
            );
            proof {
                assert(out@ =~= out0 + term_uses(t@));
            }
        },
        _ => {
            proof {
                assert(out@ =~= out0 + term_uses(t@));
            }
        },
    }
}

} // verus!
